use semcheck::checker::Checker;
use semcheck::diag::{Diagnostic, ErrorKind};
use semcheck::state::Liveness;
use semcheck::types::{Copyability, TypeDecl, TypeKind};

const SCALAR: usize = 0;
const OBJECT: usize = 1;

fn catalog() -> Vec<TypeDecl> {
    vec![
        TypeDecl { kind: TypeKind::Scalar, copyability: Copyability::Copy },
        TypeDecl { kind: TypeKind::Struct, copyability: Copyability::Move },
    ]
}

#[test]
fn copy_leaves_source_live() {
    let mut c = Checker::new(catalog());
    let num = c.declare(SCALAR);
    let num2 = c.let_from(num, 1);
    assert_eq!(num2, Some(1));
    assert!(c.read(num, 2));
    assert!(c.read(1, 3));
    assert_eq!(c.binding(num).state, Liveness::Live);
    assert_ne!(c.binding(num).alloc, c.binding(1).alloc);
    assert!(c.diagnostics().is_empty());
}

#[test]
fn copy_in_nested_scope_has_no_interaction() {
    let mut c = Checker::new(catalog());
    let num = c.declare(SCALAR);
    let _ = c.let_from(num, 1);
    c.open_scope();
    let inner = c.declare(SCALAR);
    let inner2 = c.let_from(inner, 3).unwrap();
    assert!(c.read(inner, 4));
    assert!(c.read(inner2, 4));
    c.close_scope();
    assert!(c.read(num, 5));
    assert!(c.diagnostics().is_empty());
    assert!(c.drops().is_empty());
}

#[test]
fn move_invalidates_source() {
    let mut c = Checker::new(catalog());
    let a = c.declare(OBJECT);
    let b = c.let_from(a, 1).unwrap();
    assert_eq!(c.binding(a).state, Liveness::Moved);
    assert!(!c.read(a, 2));
    assert!(c.read(b, 3));
    assert_eq!(c.diagnostics().clone(), vec![Diagnostic { kind: ErrorKind::UseAfterMove, at: 2 }]);
    assert_eq!(c.binding(a).state, Liveness::Moved);
}

#[test]
fn move_after_move_is_reported() {
    let mut c = Checker::new(catalog());
    let a = c.declare(OBJECT);
    let _ = c.let_from(a, 1);
    assert_eq!(c.let_from(a, 2), None);
    assert_eq!(c.diagnostics().clone(), vec![Diagnostic { kind: ErrorKind::MoveAfterMove, at: 2 }]);
    assert_eq!(c.binding_count(), 2);
}

#[test]
fn moved_object_dropped_once() {
    let mut c = Checker::new(catalog());
    let obj = c.declare(OBJECT);
    let _obj2 = c.let_from(obj, 1).unwrap();
    c.open_scope();
    let obj3 = c.declare(OBJECT);
    c.close_scope();
    assert_eq!(c.drops().clone(), vec![c.binding(obj3).alloc]);
    assert_eq!(c.binding(obj3).state, Liveness::Dropped);
    c.close_scope();
    assert_eq!(c.drops().clone(), vec![1, 0]);
    assert!(c.diagnostics().is_empty());
}

#[test]
fn move_in_block_drops_exactly_once() {
    let mut c = Checker::new(catalog());
    c.open_scope();
    let o = c.declare(OBJECT);
    let o2 = c.let_from(o, 1).unwrap();
    c.close_scope();
    assert_eq!(c.drops().clone(), vec![0]);
    assert_eq!(c.binding(o).state, Liveness::Moved);
    assert_eq!(c.binding(o2).state, Liveness::Dropped);
    assert!(!c.is_visible(o2));
}

#[test]
fn destructors_run_in_reverse_declaration_order() {
    let mut c = Checker::new(catalog());
    c.declare(OBJECT);
    c.declare(SCALAR);
    c.declare(OBJECT);
    c.declare(OBJECT);
    c.close_scope();
    assert_eq!(c.drops().clone(), vec![3, 2, 0]);
    assert_eq!(c.depth(), 0);
}

#[test]
fn moved_into_inner_scope_dropped_there() {
    let mut c = Checker::new(catalog());
    let a = c.declare(OBJECT);
    c.open_scope();
    let b = c.let_from(a, 1).unwrap();
    c.close_scope();
    assert_eq!(c.drops().clone(), vec![0]);
    assert_eq!(c.binding(b).state, Liveness::Dropped);
    c.close_scope();
    assert_eq!(c.drops().clone(), vec![0]);
}

#[test]
fn scope_visibility() {
    let mut c = Checker::new(catalog());
    let a = c.declare(SCALAR);
    c.open_scope();
    let b = c.declare(SCALAR);
    assert!(c.is_visible(a));
    assert!(c.is_visible(b));
    c.close_scope();
    assert!(c.is_visible(a));
    assert!(!c.is_visible(b));
    assert!(!c.is_visible(7));
}

#[test]
fn error_kind_messages() {
    assert_eq!(ErrorKind::UseAfterMove.message(), "value used after it was moved");
    assert_eq!(ErrorKind::CyclicSupertrait.message(), "supertrait declarations form a cycle");
    assert!(!ErrorKind::ConflictingBorrow.message().is_empty());
}
