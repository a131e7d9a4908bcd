use vstd::prelude::*;
use crate::checker::Checker;
use crate::diag::Diagnostic;
use crate::region::FnSig;
use crate::state::{
    after_borrow_into, after_call, after_let, after_method, after_read, after_return, closed, declared,
    lemma_closed_wf, lemma_declared_wf, lemma_let_wf, lemma_opened_wf, lemma_reads_only_report, opened,
    regions_of, state_wf, visible, CheckState, Frame,
};
use crate::traits::{resolution, TraitRegistry};
use crate::types::TypeDecl;

verus! {

/// One statement of a function body, as the front end hands it over. Bindings are named by
/// their declaration number: each `Declare`, and each `Let` that succeeds, introduces the next.
pub enum Stmt {
    /// Entering a block.
    Open,
    /// Leaving the innermost block.
    Close,
    /// `let v: ty = <fresh value>;`
    Declare { ty: usize },
    /// `let v = src;`
    Let { src: usize },
    /// A use of `var` by value.
    Read { var: usize },
    /// `target = &referent;`
    Borrow { target: usize, referent: usize },
    /// `target = f(&args[0], ...);` with `f` the function of signature number `sig`.
    Call { target: usize, sig: usize, args: Vec<usize> },
    /// `return` of a reference derived from parameter `param`, in a body with signature `sig`.
    Return { sig: usize, param: usize },
    /// A call of `method` through trait `tr` on a receiver of concrete type `ty`.
    Method { tr: usize, ty: usize, method: u64 },
}

/// A function body to check: the type catalog, the lifetime signatures it calls or returns
/// under, and its statements in traversal order.
pub struct Program {
    pub types: Vec<TypeDecl>,
    pub sigs: Vec<FnSig>,
    pub body: Vec<Stmt>,
}

/// The state at the entry of a body.
pub open spec fn initial(types: Seq<TypeDecl>) -> CheckState {
    CheckState {
        types,
        frames: seq![Frame { first: 0 }],
        bindings: Seq::empty(),
        n_allocs: 0,
        drops: Seq::empty(),
        diags: Seq::empty(),
        resolved: Seq::empty(),
    }
}

/// Statement `st` names only things that exist in state `s`: bindings in scope, declared
/// types, signatures and traits, parameters of the signature, an open scope where one is needed.
pub open spec fn fits(reg: &TraitRegistry, prog: &Program, s: CheckState, st: Stmt) -> bool {
    match st {
        Stmt::Open => true,
        Stmt::Close => s.frames.len() > 0,
        Stmt::Declare { ty } => ty < s.types.len() && s.frames.len() > 0,
        Stmt::Let { src } => visible(s, src) && s.frames.len() > 0,
        Stmt::Read { var } => visible(s, var),
        Stmt::Borrow { target, referent } => visible(s, target) && visible(s, referent),
        Stmt::Call { target, sig, args } => {
            &&& sig < prog.sigs@.len()
            &&& visible(s, target)
            &&& args@.len() == prog.sigs@[sig as int].params@.len()
            &&& forall|i: int| 0 <= i < args@.len() ==> visible(s, #[trigger] args@[i])
        },
        Stmt::Return { sig, param } => sig < prog.sigs@.len() && param < prog.sigs@[sig as int].params@.len(),
        Stmt::Method { tr, ty, method } => tr < reg.traits@.len(),
    }
}

/// The effect of statement `st`, at location `at`, on state `s`.
pub open spec fn step(reg: &TraitRegistry, prog: &Program, s: CheckState, st: Stmt, at: usize) -> CheckState {
    match st {
        Stmt::Open => opened(s),
        Stmt::Close => closed(s),
        Stmt::Declare { ty } => declared(s, ty),
        Stmt::Let { src } => after_let(s, src, at),
        Stmt::Read { var } => after_read(s, var, at),
        Stmt::Borrow { target, referent } => after_borrow_into(s, target, referent, at),
        Stmt::Call { target, sig, args } => after_call(s, target, &prog.sigs@[sig as int], args@, at),
        Stmt::Return { sig, param } => after_return(s, &prog.sigs@[sig as int], param, at),
        Stmt::Method { tr, ty, method } => after_method(
            s,
            ty,
            resolution(reg.traits@, reg.impls@, tr, ty, method),
            at,
        ),
    }
}

/// The state after the first `n` statements, each at its own index as location; `None` when
/// one of them does not fit the state before it.
pub open spec fn run(reg: &TraitRegistry, prog: &Program, n: nat) -> Option<CheckState>
    decreases n,
{
    if n == 0 {
        Some(initial(prog.types@))
    } else {
        match run(reg, prog, (n - 1) as nat) {
            Some(s) => if fits(reg, prog, s, prog.body@[n - 1]) {
                Some(step(reg, prog, s, prog.body@[n - 1], (n - 1) as usize))
            } else {
                None
            },
            None => None,
        }
    }
}

proof fn lemma_run_stops(reg: &TraitRegistry, prog: &Program, k: nat, n: nat)
    requires
        k <= n,
        run(reg, prog, k) is None,
    ensures
        run(reg, prog, n) is None,
    decreases n - k,
{
    if k < n {
        lemma_run_stops(reg, prog, (k + 1) as nat, n);
    }
}

fn all_visible(c: &Checker, args: &Vec<usize>) -> (r: bool)
    ensures
        r == forall|i: int| 0 <= i < args@.len() ==> visible(c@, #[trigger] args@[i]),
{
    let mut i: usize = 0;
    while i < args.len()
        invariant
            i <= args@.len(),
            forall|j: int| 0 <= j < i ==> visible(c@, #[trigger] args@[j]),
        decreases args@.len() - i,
    {
        if !c.is_visible(args[i]) {
            return false;
        }
        i = i + 1;
    }
    true
}

/// Checks a function body and returns its diagnostics in traversal order, each located at the
/// index of its statement; `None` when a statement names something that is not there.
pub fn analyze(reg: &TraitRegistry, prog: &Program) -> (r: Option<Vec<Diagnostic>>)
    requires
        reg.wf(),
    ensures
        match run(reg, prog, prog.body@.len()) {
            Some(s) => r matches Some(d) && d@ == s.diags,
            None => r is None,
        },
{
    let mut types: Vec<TypeDecl> = Vec::new();
    let mut k: usize = 0;
    while k < prog.types.len()
        invariant
            k <= prog.types@.len(),
            types@ == prog.types@.take(k as int),
        decreases prog.types@.len() - k,
    {
        types.push(prog.types[k]);
        k = k + 1;
        assert(types@ =~= prog.types@.take(k as int));
    }
    assert(types@ =~= prog.types@);
    let mut c = Checker::new(types);
    assert(c@ == initial(prog.types@));
    let n = prog.body.len();
    let mut i: usize = 0;
    while i < n
        invariant
            n == prog.body@.len(),
            i <= n,
            reg.wf(),
            run(reg, prog, i as nat) == Some(c@),
            state_wf(c@),
            c@.bindings.len() <= i,
            c@.n_allocs <= i,
        decreases n - i,
    {
        let ghost s = c@;
        let ghost ok = fits(reg, prog, s, prog.body@[i as int]);
        let fit = match &prog.body[i] {
            Stmt::Open => {
                c.open_scope();
                true
            },
            Stmt::Close => {
                if c.depth() == 0 {
                    false
                } else {
                    c.close_scope();
                    true
                }
            },
            Stmt::Declare { ty } => {
                if *ty >= c.type_count() || c.depth() == 0 {
                    false
                } else {
                    let _ = c.declare(*ty);
                    true
                }
            },
            Stmt::Let { src } => {
                if !c.is_visible(*src) || c.depth() == 0 {
                    false
                } else {
                    let _ = c.let_from(*src, i);
                    true
                }
            },
            Stmt::Read { var } => {
                if !c.is_visible(*var) {
                    false
                } else {
                    let _ = c.read(*var, i);
                    true
                }
            },
            Stmt::Borrow { target, referent } => {
                if !c.is_visible(*target) || !c.is_visible(*referent) {
                    false
                } else {
                    c.borrow_into(*target, *referent, i);
                    true
                }
            },
            Stmt::Call { target, sig, args } => {
                if *sig >= prog.sigs.len() || !c.is_visible(*target) || args.len() != prog.sigs[*sig].params.len()
                    || !all_visible(&c, args) {
                    false
                } else {
                    c.call_into(*target, &prog.sigs[*sig], args, i);
                    true
                }
            },
            Stmt::Return { sig, param } => {
                if *sig >= prog.sigs.len() || *param >= prog.sigs[*sig].params.len() {
                    false
                } else {
                    c.check_return(&prog.sigs[*sig], *param, i);
                    true
                }
            },
            Stmt::Method { tr, ty, method } => {
                if *tr >= reg.traits.len() {
                    false
                } else {
                    let _ = c.call_method(reg, *tr, *ty, *method, i);
                    true
                }
            },
        };
        if !fit {
            proof {
                assert(!ok);
                assert(run(reg, prog, (i + 1) as nat) is None);
                lemma_run_stops(reg, prog, (i + 1) as nat, n as nat);
            }
            return None;
        }
        assert(ok);
        assert(c@ == step(reg, prog, s, prog.body@[i as int], i));
        i = i + 1;
    }
    Some(c.into_diagnostics())
}


/// Every state a body reaches keeps the state invariant: no allocation's destructor runs twice,
/// however many bindings it passed through, and none runs while a live binding still holds it.
pub proof fn lemma_run_keeps_invariant(reg: &TraitRegistry, prog: &Program, n: nat)
    requires
        n <= prog.body@.len() <= usize::MAX,
    ensures
        run(reg, prog, n) matches Some(s) ==> state_wf(s) && s.bindings.len() <= n && s.n_allocs <= n,
    decreases n,
{
    if n > 0 {
        lemma_run_keeps_invariant(reg, prog, (n - 1) as nat);
        if let Some(s) = run(reg, prog, (n - 1) as nat) {
            let st = prog.body@[n - 1];
            let at = (n - 1) as usize;
            if fits(reg, prog, s, st) {
                match st {
                    Stmt::Open => lemma_opened_wf(s),
                    Stmt::Close => lemma_closed_wf(s),
                    Stmt::Declare { ty } => lemma_declared_wf(s, ty),
                    Stmt::Let { src } => lemma_let_wf(s, src, at),
                    Stmt::Call { target, sig, args } => {
                        lemma_reads_only_report(s, args@, at);
                    },
                    _ => {},
                }
            }
        }
    }
}

} // verus!
