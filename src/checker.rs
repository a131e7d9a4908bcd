use vstd::prelude::*;
use crate::diag::{Diagnostic, ErrorKind};
use crate::region::{result_region, storage_allowed, return_allowed, FnSig};
use crate::state::{
    after_borrow_into, after_call, after_let, after_method, after_read, after_reads, after_return,
    after_store, closed, declared, discarded, lemma_closed_wf, lemma_let_wf, opened, read_ok, regions_of, released,
    state_wf, visible, Binding, CheckState, Frame, Liveness,
};
use crate::traits::{resolution, Resolution, TraitRegistry};
use crate::types::TypeDecl;

verus! {

/// The checker for one function body: the scope stack, the bindings with their ownership
/// state, the destructor log and the diagnostics, updated statement by statement.
pub struct Checker {
    types: Vec<TypeDecl>,
    frames: Vec<Frame>,
    bindings: Vec<Binding>,
    n_allocs: usize,
    drops: Vec<usize>,
    diags: Vec<Diagnostic>,
    resolved: Vec<(usize, usize, Resolution)>,
}

impl View for Checker {
    type V = CheckState;

    closed spec fn view(&self) -> CheckState {
        CheckState {
            types: self.types@,
            frames: self.frames@,
            bindings: self.bindings@,
            n_allocs: self.n_allocs as nat,
            drops: self.drops@,
            diags: self.diags@,
            resolved: self.resolved@,
        }
    }
}

impl Checker {
    /// A checker at the entry of a function body, whose scope is open, over the type catalog
    /// `types`.
    pub fn new(types: Vec<TypeDecl>) -> (r: Checker)
        ensures
            r@ == (CheckState {
                types: types@,
                frames: seq![Frame { first: 0 }],
                bindings: Seq::empty(),
                n_allocs: 0,
                drops: Seq::empty(),
                diags: Seq::empty(),
                resolved: Seq::empty(),
            }),
            state_wf(r@),
    {
        let mut frames: Vec<Frame> = Vec::new();
        frames.push(Frame { first: 0 });
        let r = Checker {
            types,
            frames,
            bindings: Vec::new(),
            n_allocs: 0,
            drops: Vec::new(),
            diags: Vec::new(),
            resolved: Vec::new(),
        };
        assert(r@.frames =~= seq![Frame { first: 0 }]);
        r
    }

    /// Enters a block.
    pub fn open_scope(&mut self)
        requires
            state_wf(old(self)@),
        ensures
            final(self)@ == opened(old(self)@),
            state_wf(final(self)@),
    {
        let first = self.bindings.len();
        self.frames.push(Frame { first });
        assert forall|k: int| 0 <= k < self@.frames.len() implies #[trigger] self@.frames[k].first <= self@.bindings.len() by {
            if k < old(self)@.frames.len() {
                assert(self@.frames[k] == old(self)@.frames[k]);
            }
        }
    }

    /// Leaves the innermost block, running the destructors of the allocations its live
    /// bindings hold.
    pub fn close_scope(&mut self)
        requires
            state_wf(old(self)@),
            old(self)@.frames.len() > 0,
        ensures
            final(self)@ == closed(old(self)@),
            state_wf(final(self)@),
    {
        let ghost s = self@;
        let f = self.frames.pop().unwrap();
        let n = self.bindings.len();
        let mut i = n;
        while i > f.first
            invariant
                s == old(self)@,
                f == s.frames.last(),
                self.frames@ == s.frames.drop_last(),
                n == s.bindings.len(),
                f.first <= i <= n,
                self.bindings@.len() == n,
                forall|j: int| 0 <= j < i ==> self.bindings@[j] == s.bindings[j],
                forall|j: int| i <= j < n ==> self.bindings@[j] == discarded(s.bindings[j]),
                self.drops@ == s.drops + released(s.bindings, i as int, n as int),
                self.types@ == s.types,
                self.n_allocs == s.n_allocs,
                self.diags@ == s.diags,
                self.resolved@ == s.resolved,
            decreases i,
        {
            i = i - 1;
            let b = self.bindings[i];
            match b.state {
                Liveness::Live => {
                    if b.movable {
                        self.drops.push(b.alloc);
                    }
                    self.bindings.set(i, Binding { state: Liveness::Dropped, ..b });
                },
                _ => {},
            }
            assert(self.drops@ =~= s.drops + released(s.bindings, i as int, n as int));
        }
        assert(self.bindings@ =~= closed(s).bindings);
        proof {
            lemma_closed_wf(s);
        }
    }

    /// `let v: ty = <fresh value>;` returns the new binding.
    pub fn declare(&mut self, ty: usize) -> (v: usize)
        requires
            state_wf(old(self)@),
            ty < old(self)@.types.len(),
            old(self)@.frames.len() > 0,
            old(self)@.bindings.len() < usize::MAX,
            old(self)@.n_allocs < usize::MAX,
        ensures
            final(self)@ == declared(old(self)@, ty),
            v == old(self)@.bindings.len(),
            visible(final(self)@, v),
            state_wf(final(self)@),
    {
        let movable = self.types[ty].is_move();
        let scope = self.frames.len() - 1;
        self.bindings.push(Binding { ty, movable, state: Liveness::Live, scope, alloc: self.n_allocs });
        self.n_allocs = self.n_allocs + 1;
        self.bindings.len() - 1
    }

    /// Reads binding `v` at location `at`; false, with a diagnostic, when its value was moved.
    pub fn read(&mut self, v: usize, at: usize) -> (r: bool)
        requires
            state_wf(old(self)@),
            visible(old(self)@, v),
        ensures
            final(self)@ == after_read(old(self)@, v, at),
            r == read_ok(old(self)@, v),
            state_wf(final(self)@),
    {
        match self.bindings[v].state {
            Liveness::Moved => {
                self.diags.push(Diagnostic { kind: ErrorKind::UseAfterMove, at });
                false
            },
            _ => true,
        }
    }

    /// `let b = a;` with `a` the binding `src`: returns the new binding, or `None` when the
    /// value was already moved out.
    pub fn let_from(&mut self, src: usize, at: usize) -> (r: Option<usize>)
        requires
            state_wf(old(self)@),
            visible(old(self)@, src),
            old(self)@.frames.len() > 0,
            old(self)@.bindings.len() < usize::MAX,
            old(self)@.n_allocs < usize::MAX,
        ensures
            final(self)@ == after_let(old(self)@, src, at),
            r == if read_ok(old(self)@, src) { Some(old(self)@.bindings.len() as usize) } else { None::<usize> },
            state_wf(final(self)@),
    {
        let ghost s = self@;
        let b = self.bindings[src];
        let scope = self.frames.len() - 1;
        match b.state {
            Liveness::Moved => {
                let kind = if b.movable { ErrorKind::MoveAfterMove } else { ErrorKind::UseAfterMove };
                self.diags.push(Diagnostic { kind, at });
                return None;
            },
            _ => {},
        }
        if b.movable {
            self.bindings.set(src, Binding { state: Liveness::Moved, ..b });
            self.bindings.push(Binding { scope, ..b });
        } else {
            self.bindings.push(Binding { scope, alloc: self.n_allocs, ..b });
            self.n_allocs = self.n_allocs + 1;
        }
        proof {
            lemma_let_wf(s, src, at);
        }
        Some(self.bindings.len() - 1)
    }

    /// Checks a store of a reference of region `region` into binding `target`.
    fn store(&mut self, target: usize, region: usize, at: usize)
        requires
            target < old(self)@.bindings.len(),
        ensures
            final(self)@ == after_store(old(self)@, target, region, at),
    {
        if !storage_allowed(region, self.bindings[target].scope) {
            self.diags.push(Diagnostic { kind: ErrorKind::BorrowOutlivesOwner, at });
        }
    }

    /// `target = &referent;` at location `at`.
    pub fn borrow_into(&mut self, target: usize, referent: usize, at: usize)
        requires
            state_wf(old(self)@),
            visible(old(self)@, target),
            visible(old(self)@, referent),
        ensures
            final(self)@ == after_borrow_into(old(self)@, target, referent, at),
            state_wf(final(self)@),
    {
        match self.bindings[referent].state {
            Liveness::Moved => {
                self.diags.push(Diagnostic { kind: ErrorKind::UseAfterMove, at });
            },
            _ => {
                let region = self.bindings[referent].scope;
                self.store(target, region, at);
            },
        }
    }

    /// `target = f(&args[0], &args[1], ...);` at location `at`, for a function `f` with
    /// lifetime signature `sig`.
    pub fn call_into(&mut self, target: usize, sig: &FnSig, args: &Vec<usize>, at: usize)
        requires
            state_wf(old(self)@),
            visible(old(self)@, target),
            forall|i: int| 0 <= i < args@.len() ==> visible(old(self)@, #[trigger] args@[i]),
            args@.len() == sig.params@.len(),
        ensures
            final(self)@ == after_call(old(self)@, target, sig, args@, at),
            final(self)@.bindings == old(self)@.bindings,
            final(self)@.n_allocs == old(self)@.n_allocs,
            final(self)@.types == old(self)@.types,
            state_wf(final(self)@),
    {
        let ghost s = self@;
        let mut regions: Vec<usize> = Vec::new();
        let mut i: usize = 0;
        while i < args.len()
            invariant
                i <= args@.len(),
                forall|j: int| 0 <= j < args@.len() ==> visible(s, #[trigger] args@[j]),
                self@ == after_reads(s, args@.take(i as int), at),
                self@.bindings == s.bindings,
                self@.frames == s.frames,
                self@.n_allocs == s.n_allocs,
                self@.types == s.types,
                state_wf(self@),
                regions@ == regions_of(s, args@.take(i as int)),
            decreases args@.len() - i,
        {
            let v = args[i];
            let _ = self.read(v, at);
            regions.push(self.bindings[v].scope);
            assert(args@.take(i + 1).drop_last() =~= args@.take(i as int));
            assert(regions@ =~= regions_of(s, args@.take(i + 1)));
            i = i + 1;
        }
        assert(args@.take(args@.len() as int) =~= args@);
        match result_region(sig, &regions) {
            None => {},
            Some(g) => {
                self.store(target, g, at);
            },
        }
    }

    /// A `return` of a reference derived from parameter `param`, in a body with lifetime
    /// signature `sig`.
    pub fn check_return(&mut self, sig: &FnSig, param: usize, at: usize)
        requires
            state_wf(old(self)@),
            param < sig.params@.len(),
        ensures
            final(self)@ == after_return(old(self)@, sig, param, at),
            state_wf(final(self)@),
    {
        if !return_allowed(sig, param) {
            self.diags.push(Diagnostic { kind: ErrorKind::BorrowOutlivesOwner, at });
        }
    }

    /// A call of method `m` through trait `tr` on a receiver of type `ty`, at location `at`;
    /// for a generic call site, `ty` is the concrete type it is instantiated with.
    pub fn call_method(&mut self, reg: &TraitRegistry, tr: usize, ty: usize, m: u64, at: usize) -> (r: Result<
        Resolution,
        ErrorKind,
    >)
        requires
            state_wf(old(self)@),
            reg.wf(),
            tr < reg.traits@.len(),
        ensures
            r == resolution(reg.traits@, reg.impls@, tr, ty, m),
            final(self)@ == after_method(old(self)@, ty, r, at),
            state_wf(final(self)@),
    {
        let r = reg.resolve(tr, ty, m);
        match r {
            Ok(body) => self.resolved.push((at, ty, body)),
            Err(e) => self.diags.push(Diagnostic { kind: e, at }),
        }
        assert(self@.bindings == old(self)@.bindings && self@.drops == old(self)@.drops && self@.frames
            == old(self)@.frames && self@.n_allocs == old(self)@.n_allocs);
        r
    }

    /// The diagnostics recorded so far, in statement order.
    pub fn diagnostics(&self) -> (r: &Vec<Diagnostic>)
        ensures
            r@ == self@.diags,
    {
        &self.diags
    }

    /// The allocations whose destructor has run, in the order they ran.
    pub fn drops(&self) -> (r: &Vec<usize>)
        ensures
            r@ == self@.drops,
    {
        &self.drops
    }

    /// The resolved calls so far, as (location, concrete type, body).
    pub fn resolutions(&self) -> (r: &Vec<(usize, usize, Resolution)>)
        ensures
            r@ == self@.resolved,
    {
        &self.resolved
    }

    /// Binding `v`.
    pub fn binding(&self, v: usize) -> (r: Binding)
        requires
            v < self@.bindings.len(),
        ensures
            r == self@.bindings[v as int],
    {
        self.bindings[v]
    }

    /// Whether binding `v` is in an open scope and usable by name.
    pub fn is_visible(&self, v: usize) -> (r: bool)
        ensures
            r == visible(self@, v),
    {
        if v >= self.bindings.len() {
            return false;
        }
        let b = self.bindings[v];
        match b.state {
            Liveness::Dropped => false,
            _ => b.scope < self.frames.len() && self.frames[b.scope].first <= v,
        }
    }

    /// The number of bindings declared so far.
    pub fn binding_count(&self) -> (r: usize)
        ensures
            r == self@.bindings.len(),
    {
        self.bindings.len()
    }

    /// The number of types in the catalog.
    pub fn type_count(&self) -> (r: usize)
        ensures
            r == self@.types.len(),
    {
        self.types.len()
    }

    /// Ends the check, handing out its diagnostics.
    pub fn into_diagnostics(self) -> (r: Vec<Diagnostic>)
        ensures
            r@ == self@.diags,
    {
        self.diags
    }

    /// The number of open scopes.
    pub fn depth(&self) -> (r: usize)
        ensures
            r == self@.frames.len(),
    {
        self.frames.len()
    }
}

} // verus!
