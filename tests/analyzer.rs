use semcheck::analyzer::{analyze, Program, Stmt};
use semcheck::diag::{Diagnostic, ErrorKind};
use semcheck::region::FnSig;
use semcheck::traits::{ImplDecl, TraitDecl, TraitRegistry};
use semcheck::types::{Copyability, TypeDecl, TypeKind};

const REF: usize = 0;
const OBJECT: usize = 1;

fn catalog() -> Vec<TypeDecl> {
    vec![
        TypeDecl { kind: TypeKind::Scalar, copyability: Copyability::Copy },
        TypeDecl { kind: TypeKind::Struct, copyability: Copyability::Move },
    ]
}

fn empty_registry() -> TraitRegistry {
    TraitRegistry::new(vec![], vec![]).unwrap()
}

#[test]
fn lifetime_program_reports_escaping_result() {
    // let obj1; let ret; { let obj2; let inner_ret = lifetime(&obj1, &obj2);
    //   ret = lifetimes(&obj2, &obj1); ret = lifetimes(&obj1, &obj2); }
    let prog = Program {
        types: catalog(),
        sigs: vec![FnSig { params: vec![0, 0], output: 0 }, FnSig { params: vec![0, 1], output: 0 }],
        body: vec![
            Stmt::Declare { ty: OBJECT },
            Stmt::Declare { ty: REF },
            Stmt::Open,
            Stmt::Declare { ty: OBJECT },
            Stmt::Declare { ty: REF },
            Stmt::Call { target: 3, sig: 0, args: vec![0, 2] },
            Stmt::Call { target: 1, sig: 1, args: vec![2, 0] },
            Stmt::Call { target: 1, sig: 1, args: vec![0, 2] },
            Stmt::Close,
            Stmt::Read { var: 1 },
        ],
    };
    let diags = analyze(&empty_registry(), &prog).unwrap();
    assert_eq!(diags, vec![Diagnostic { kind: ErrorKind::BorrowOutlivesOwner, at: 6 }]);
}

#[test]
fn move_program_reports_each_error_once() {
    let prog = Program {
        types: catalog(),
        sigs: vec![],
        body: vec![
            Stmt::Declare { ty: OBJECT },
            Stmt::Let { src: 0 },
            Stmt::Read { var: 0 },
            Stmt::Let { src: 0 },
            Stmt::Read { var: 1 },
            Stmt::Read { var: 0 },
        ],
    };
    let diags = analyze(&empty_registry(), &prog).unwrap();
    assert_eq!(
        diags,
        vec![
            Diagnostic { kind: ErrorKind::UseAfterMove, at: 2 },
            Diagnostic { kind: ErrorKind::MoveAfterMove, at: 3 },
            Diagnostic { kind: ErrorKind::UseAfterMove, at: 5 },
        ]
    );
}

#[test]
fn return_rules_in_program() {
    let prog = Program {
        types: catalog(),
        sigs: vec![FnSig { params: vec![0, 0], output: 0 }, FnSig { params: vec![0, 1], output: 0 }],
        body: vec![Stmt::Return { sig: 0, param: 1 }, Stmt::Return { sig: 1, param: 1 }],
    };
    let diags = analyze(&empty_registry(), &prog).unwrap();
    assert_eq!(diags, vec![Diagnostic { kind: ErrorKind::BorrowOutlivesOwner, at: 1 }]);
}

#[test]
fn trait_program_resolves_supertrait_default() {
    let base = TraitDecl { required: vec![1], defaults: vec![2], supers: vec![] };
    let sub = TraitDecl { required: vec![], defaults: vec![], supers: vec![0] };
    let impls = vec![ImplDecl { trait_id: 0, type_id: OBJECT, methods: vec![1] }];
    let reg = TraitRegistry::new(vec![base, sub], impls).unwrap();
    let prog = Program {
        types: catalog(),
        sigs: vec![],
        body: vec![
            Stmt::Declare { ty: OBJECT },
            Stmt::Method { tr: 1, ty: OBJECT, method: 2 },
            Stmt::Method { tr: 1, ty: OBJECT, method: 9 },
        ],
    };
    let diags = analyze(&reg, &prog).unwrap();
    assert_eq!(diags, vec![Diagnostic { kind: ErrorKind::UnresolvedMethod, at: 2 }]);
}

#[test]
fn empty_body_is_clean() {
    let prog = Program { types: catalog(), sigs: vec![], body: vec![] };
    assert_eq!(analyze(&empty_registry(), &prog), Some(vec![]));
}

#[test]
fn malformed_bodies_refused() {
    let out_of_scope = Program {
        types: catalog(),
        sigs: vec![],
        body: vec![Stmt::Open, Stmt::Declare { ty: REF }, Stmt::Close, Stmt::Read { var: 0 }],
    };
    assert_eq!(analyze(&empty_registry(), &out_of_scope), None);
    let unknown_type = Program { types: catalog(), sigs: vec![], body: vec![Stmt::Declare { ty: 5 }] };
    assert_eq!(analyze(&empty_registry(), &unknown_type), None);
    let no_scope = Program { types: catalog(), sigs: vec![], body: vec![Stmt::Close, Stmt::Close] };
    assert_eq!(analyze(&empty_registry(), &no_scope), None);
}
