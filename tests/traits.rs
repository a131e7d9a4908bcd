use semcheck::checker::Checker;
use semcheck::diag::{Diagnostic, ErrorKind};
use semcheck::traits::{check_acyclic, find_impl, ImplDecl, Resolution, TraitDecl, TraitRegistry};
use semcheck::types::{Copyability, TypeDecl, TypeKind};

const REQUIRED: u64 = 1;
const M: u64 = 2;
const T: usize = 0;
const U: usize = 1;

fn decl(required: Vec<u64>, defaults: Vec<u64>, supers: Vec<usize>) -> TraitDecl {
    TraitDecl { required, defaults, supers }
}

fn catalog() -> Vec<TypeDecl> {
    vec![
        TypeDecl { kind: TypeKind::Struct, copyability: Copyability::Move },
        TypeDecl { kind: TypeKind::Scalar, copyability: Copyability::Copy },
    ]
}

#[test]
fn generic_call_without_impl_or_default_unresolved() {
    let reg = TraitRegistry::new(vec![decl(vec![M], vec![], vec![])], vec![]).unwrap();
    assert_eq!(reg.resolve(0, T, M), Err(ErrorKind::UnresolvedMethod));
    let mut c = Checker::new(catalog());
    assert_eq!(c.call_method(&reg, 0, T, M, 7), Err(ErrorKind::UnresolvedMethod));
    assert_eq!(c.diagnostics().clone(), vec![Diagnostic { kind: ErrorKind::UnresolvedMethod, at: 7 }]);
}

#[test]
fn generic_call_without_impl_uses_default() {
    let reg = TraitRegistry::new(vec![decl(vec![REQUIRED], vec![M], vec![])], vec![]).unwrap();
    let mut c = Checker::new(catalog());
    assert_eq!(c.call_method(&reg, 0, T, M, 7), Ok(Resolution::DefaultBody(0)));
    assert!(c.diagnostics().is_empty());
    assert_eq!(c.resolutions().clone(), vec![(7, T, Resolution::DefaultBody(0))]);
}

#[test]
fn impl_body_overrides_default() {
    let impls = vec![
        ImplDecl { trait_id: 0, type_id: U, methods: vec![REQUIRED] },
        ImplDecl { trait_id: 0, type_id: T, methods: vec![REQUIRED, M] },
    ];
    let reg = TraitRegistry::new(vec![decl(vec![REQUIRED], vec![M], vec![])], impls).unwrap();
    assert_eq!(reg.resolve(0, T, M), Ok(Resolution::ImplBody(1)));
    assert_eq!(reg.resolve(0, U, M), Ok(Resolution::DefaultBody(0)));
    assert_eq!(reg.resolve(0, U, REQUIRED), Ok(Resolution::ImplBody(0)));
}

#[test]
fn supertrait_default_reached_through_subtrait() {
    let base = decl(vec![REQUIRED], vec![M], vec![]);
    let sub = decl(vec![], vec![], vec![0]);
    let impls = vec![ImplDecl { trait_id: 0, type_id: T, methods: vec![REQUIRED] }];
    let reg = TraitRegistry::new(vec![base, sub], impls).unwrap();
    let mut c = Checker::new(catalog());
    assert_eq!(c.call_method(&reg, 1, T, M, 3), Ok(Resolution::DefaultBody(0)));
    assert!(c.diagnostics().is_empty());
}

#[test]
fn diamond_with_one_default_resolves() {
    let ts = vec![
        decl(vec![], vec![M], vec![]),
        decl(vec![], vec![], vec![0]),
        decl(vec![], vec![], vec![0]),
        decl(vec![], vec![], vec![1, 2]),
    ];
    let reg = TraitRegistry::new(ts, vec![]).unwrap();
    assert_eq!(reg.resolve(3, T, M), Ok(Resolution::DefaultBody(0)));
}

#[test]
fn two_supertrait_defaults_are_ambiguous() {
    let ts = vec![decl(vec![], vec![M], vec![]), decl(vec![], vec![M], vec![]), decl(vec![], vec![], vec![0, 1])];
    let reg = TraitRegistry::new(ts, vec![]).unwrap();
    let mut c = Checker::new(catalog());
    assert_eq!(c.call_method(&reg, 2, T, M, 9), Err(ErrorKind::AmbiguousTraitImpl));
    assert_eq!(c.diagnostics().clone(), vec![Diagnostic { kind: ErrorKind::AmbiguousTraitImpl, at: 9 }]);
}

#[test]
fn conflicting_impls_are_ambiguous() {
    let impls = vec![
        ImplDecl { trait_id: 0, type_id: T, methods: vec![M] },
        ImplDecl { trait_id: 0, type_id: T, methods: vec![M] },
    ];
    assert_eq!(find_impl(&impls, 0, T, M), Err(ErrorKind::AmbiguousTraitImpl));
    assert_eq!(find_impl(&impls, 0, U, M), Err(ErrorKind::UnresolvedMethod));
    let reg = TraitRegistry::new(vec![decl(vec![M], vec![], vec![])], impls).unwrap();
    assert_eq!(reg.resolve(0, T, M), Err(ErrorKind::AmbiguousTraitImpl));
}

#[test]
fn cyclic_supertraits_rejected() {
    let ts = vec![decl(vec![], vec![], vec![1]), decl(vec![], vec![], vec![0])];
    assert!(TraitRegistry::new(ts, vec![]).is_err());
    let self_loop = vec![decl(vec![], vec![], vec![]), decl(vec![], vec![], vec![1])];
    assert!(!check_acyclic(&self_loop));
    match TraitRegistry::new(self_loop, vec![]) {
        Err(e) => assert_eq!(e, ErrorKind::CyclicSupertrait),
        Ok(_) => panic!("a self-extending trait must be refused"),
    }
}

#[test]
fn acyclic_chains_accepted() {
    assert!(check_acyclic(&vec![]));
    let ts = vec![
        decl(vec![], vec![], vec![2]),
        decl(vec![], vec![], vec![0, 2]),
        decl(vec![], vec![], vec![]),
    ];
    assert!(check_acyclic(&ts));
}
