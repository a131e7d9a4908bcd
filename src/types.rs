use vstd::prelude::*;

verus! {

/// Whether a type is a scalar or a struct.
#[derive(PartialEq, Eq, Structural, Clone, Copy, Debug)]
pub enum TypeKind {
    Scalar,
    Struct,
}

/// Whether reading a value duplicates it or moves it.
#[derive(PartialEq, Eq, Structural, Clone, Copy, Debug)]
pub enum Copyability {
    /// Duplicated on every read; the source stays usable.
    Copy,
    /// Has one live owner at a time; a read moves it.
    Move,
}

/// A declared type of the type catalog.
#[derive(PartialEq, Eq, Structural, Clone, Copy, Debug)]
pub struct TypeDecl {
    pub kind: TypeKind,
    pub copyability: Copyability,
}

impl TypeDecl {
    /// Whether values of this type move on assignment.
    pub fn is_move(&self) -> (r: bool)
        ensures
            r == (self.copyability == Copyability::Move),
    {
        match self.copyability {
            Copyability::Copy => false,
            Copyability::Move => true,
        }
    }
}

} // verus!
