// A static checker for single ownership with move and copy semantics, reference regions, and
// trait method resolution with default bodies and supertraits. It walks a function body that a
// front end has already parsed and typed, and reports diagnostics in traversal order.

pub mod diag;
pub mod traits;
pub mod types;
pub mod region;
pub mod state;
pub mod checker;
pub mod fragments;
pub mod analyzer;
