use semcheck::checker::Checker;
use semcheck::diag::{Diagnostic, ErrorKind};
use semcheck::region::{result_region, return_allowed, storage_allowed, FnSig};
use semcheck::types::{Copyability, TypeDecl, TypeKind};

const REF: usize = 0;
const OBJECT: usize = 1;

fn catalog() -> Vec<TypeDecl> {
    vec![
        TypeDecl { kind: TypeKind::Scalar, copyability: Copyability::Copy },
        TypeDecl { kind: TypeKind::Struct, copyability: Copyability::Move },
    ]
}

/// `fn lifetime<'a>(x: &'a Object, y: &'a Object) -> &'a i32`
fn shared_sig() -> FnSig {
    FnSig { params: vec![0, 0], output: 0 }
}

/// `fn lifetimes<'a, 'b>(x: &'a Object, y: &'b Object) -> &'a i32`
fn distinct_sig() -> FnSig {
    FnSig { params: vec![0, 1], output: 0 }
}

#[test]
fn shared_lifetime_return_of_second_accepted() {
    let mut c = Checker::new(catalog());
    c.check_return(&shared_sig(), 1, 4);
    assert!(c.diagnostics().is_empty());
    assert!(return_allowed(&shared_sig(), 1));
}

#[test]
fn distinct_lifetime_return_of_second_rejected() {
    let mut c = Checker::new(catalog());
    c.check_return(&distinct_sig(), 0, 3);
    assert!(c.diagnostics().is_empty());
    c.check_return(&distinct_sig(), 1, 4);
    assert_eq!(c.diagnostics().clone(), vec![Diagnostic { kind: ErrorKind::BorrowOutlivesOwner, at: 4 }]);
}

#[test]
fn call_results_across_scopes() {
    let mut c = Checker::new(catalog());
    let obj1 = c.declare(OBJECT);
    let ret = c.declare(REF);
    c.open_scope();
    let obj2 = c.declare(OBJECT);
    let inner_ret = c.declare(REF);
    c.call_into(inner_ret, &shared_sig(), &vec![obj1, obj2], 10);
    assert!(c.diagnostics().is_empty());
    c.call_into(ret, &shared_sig(), &vec![obj1, obj2], 11);
    c.call_into(ret, &distinct_sig(), &vec![obj2, obj1], 12);
    c.call_into(ret, &distinct_sig(), &vec![obj1, obj2], 13);
    c.close_scope();
    assert_eq!(
        c.diagnostics().clone(),
        vec![
            Diagnostic { kind: ErrorKind::BorrowOutlivesOwner, at: 11 },
            Diagnostic { kind: ErrorKind::BorrowOutlivesOwner, at: 12 },
        ]
    );
}

#[test]
fn inner_borrow_stored_outside_rejected() {
    let mut c = Checker::new(catalog());
    let ret = c.declare(REF);
    c.open_scope();
    let obj = c.declare(OBJECT);
    c.borrow_into(ret, obj, 5);
    let local = c.declare(REF);
    c.borrow_into(local, obj, 6);
    c.close_scope();
    assert_eq!(c.diagnostics().clone(), vec![Diagnostic { kind: ErrorKind::BorrowOutlivesOwner, at: 5 }]);
}

#[test]
fn outer_borrow_stored_inside_accepted() {
    let mut c = Checker::new(catalog());
    let obj = c.declare(OBJECT);
    c.open_scope();
    let r = c.declare(REF);
    c.borrow_into(r, obj, 2);
    assert!(c.diagnostics().is_empty());
}

#[test]
fn borrow_of_moved_value_is_use_after_move() {
    let mut c = Checker::new(catalog());
    let obj = c.declare(OBJECT);
    let _ = c.let_from(obj, 1);
    let r = c.declare(REF);
    c.borrow_into(r, obj, 2);
    c.call_into(r, &shared_sig(), &vec![obj, obj], 3);
    assert_eq!(
        c.diagnostics().clone(),
        vec![
            Diagnostic { kind: ErrorKind::UseAfterMove, at: 2 },
            Diagnostic { kind: ErrorKind::UseAfterMove, at: 3 },
            Diagnostic { kind: ErrorKind::UseAfterMove, at: 3 },
        ]
    );
}

#[test]
fn tightest_region_among_tied_arguments() {
    assert_eq!(result_region(&shared_sig(), &vec![0, 2]), Some(2));
    assert_eq!(result_region(&shared_sig(), &vec![3, 1]), Some(3));
    assert_eq!(result_region(&distinct_sig(), &vec![0, 2]), Some(0));
    assert_eq!(result_region(&FnSig { params: vec![1, 2], output: 0 }, &vec![0, 2]), None);
    assert_eq!(result_region(&FnSig { params: vec![], output: 0 }, &vec![]), None);
}

#[test]
fn storage_rule() {
    assert!(storage_allowed(0, 0));
    assert!(storage_allowed(0, 2));
    assert!(!storage_allowed(2, 1));
}
