use vstd::prelude::*;
use crate::diag::{Diagnostic, ErrorKind};
use crate::region::{nested_in, tied, tightest, FnSig};
use crate::traits::Resolution;
use crate::types::{Copyability, TypeDecl};

verus! {

/// Where a binding stands: usable, moved out of, or gone with its scope.
#[derive(PartialEq, Eq, Structural, Clone, Copy, Debug)]
pub enum Liveness {
    Live,
    Moved,
    Dropped,
}

/// A variable binding: its type, whether that type moves, its state, the depth of the scope
/// that owns it, and the allocation it holds.
#[derive(PartialEq, Eq, Structural, Clone, Copy, Debug)]
pub struct Binding {
    pub ty: usize,
    pub movable: bool,
    pub state: Liveness,
    pub scope: usize,
    pub alloc: usize,
}

/// An open scope, with the index of the first binding declared in it.
#[derive(PartialEq, Eq, Structural, Clone, Copy, Debug)]
pub struct Frame {
    pub first: usize,
}

/// The abstract state of a check in progress. The open scopes form a stack, the innermost
/// last; bindings are numbered in declaration order; `drops` lists the allocations whose
/// destructor has run, in order; `resolved` records each resolved call as (site, type, body).
pub struct CheckState {
    pub types: Seq<TypeDecl>,
    pub frames: Seq<Frame>,
    pub bindings: Seq<Binding>,
    pub n_allocs: nat,
    pub drops: Seq<usize>,
    pub diags: Seq<Diagnostic>,
    pub resolved: Seq<(usize, usize, Resolution)>,
}

/// The state invariant: every allocation is held by at most one live binding, and no
/// destructor runs twice or on an allocation that is still held.
pub open spec fn state_wf(s: CheckState) -> bool {
    &&& forall|k: int| 0 <= k < s.frames.len() ==> #[trigger] s.frames[k].first <= s.bindings.len()
    &&& forall|i: int| 0 <= i < s.bindings.len() ==> #[trigger] s.bindings[i].alloc < s.n_allocs
    &&& forall|i: int, j: int|
        0 <= i < s.bindings.len() && 0 <= j < s.bindings.len() && i != j && s.bindings[i].state == Liveness::Live
            && s.bindings[j].state == Liveness::Live ==> #[trigger] s.bindings[i].alloc != #[trigger] s.bindings[j].alloc
    &&& s.drops.no_duplicates()
    &&& forall|k: int| 0 <= k < s.drops.len() ==> #[trigger] s.drops[k] < s.n_allocs
    &&& forall|i: int|
        0 <= i < s.bindings.len() && s.bindings[i].state == Liveness::Live && s.bindings[i].movable
            ==> !s.drops.contains(#[trigger] s.bindings[i].alloc)
}

/// Binding `v` is in an open scope and was not discarded with a closed one.
pub open spec fn visible(s: CheckState, v: usize) -> bool {
    &&& v < s.bindings.len()
    &&& s.bindings[v as int].state != Liveness::Dropped
    &&& s.bindings[v as int].scope < s.frames.len()
    &&& s.frames[s.bindings[v as int].scope as int].first <= v
}

/// The state with one more diagnostic.
pub open spec fn with_diag(s: CheckState, kind: ErrorKind, at: usize) -> CheckState {
    CheckState { diags: s.diags.push(Diagnostic { kind, at }), ..s }
}

/// Entering a block opens a scope.
pub open spec fn opened(s: CheckState) -> CheckState {
    CheckState { frames: s.frames.push(Frame { first: s.bindings.len() as usize }), ..s }
}

/// A binding as it is left when its scope closes.
pub open spec fn discarded(b: Binding) -> Binding {
    if b.state == Liveness::Live {
        Binding { state: Liveness::Dropped, ..b }
    } else {
        b
    }
}

/// The allocations whose destructor runs when the bindings `lo..hi` are discarded: those of
/// live bindings of a moving type, last declared first.
pub open spec fn released(bs: Seq<Binding>, lo: int, hi: int) -> Seq<usize>
    decreases hi - lo,
{
    if lo >= hi {
        Seq::empty()
    } else {
        released(bs, lo + 1, hi) + if bs[lo].state == Liveness::Live && bs[lo].movable {
            seq![bs[lo].alloc]
        } else {
            Seq::empty()
        }
    }
}

/// Leaving a block closes the innermost scope: its live bindings are dropped, and the
/// destructor of each allocation they hold runs, in reverse declaration order.
pub open spec fn closed(s: CheckState) -> CheckState {
    let first = s.frames.last().first as int;
    CheckState {
        frames: s.frames.drop_last(),
        bindings: Seq::new(
            s.bindings.len(),
            |i: int|
                if i >= first {
                    discarded(s.bindings[i])
                } else {
                    s.bindings[i]
                },
        ),
        drops: s.drops + released(s.bindings, first, s.bindings.len() as int),
        ..s
    }
}

/// The innermost open scope.
pub open spec fn top(s: CheckState) -> usize {
    (s.frames.len() - 1) as usize
}

/// `let v: ty = <fresh value>;` creates a live binding that owns a new allocation.
pub open spec fn declared(s: CheckState, ty: usize) -> CheckState {
    CheckState {
        bindings: s.bindings.push(
            Binding {
                ty,
                movable: s.types[ty as int].copyability == Copyability::Move,
                state: Liveness::Live,
                scope: top(s),
                alloc: s.n_allocs as usize,
            },
        ),
        n_allocs: s.n_allocs + 1,
        ..s
    }
}

/// Reading binding `v` succeeds unless its value was moved out.
pub open spec fn read_ok(s: CheckState, v: usize) -> bool {
    s.bindings[v as int].state != Liveness::Moved
}

/// The state after a read of `v` at `at`.
pub open spec fn after_read(s: CheckState, v: usize, at: usize) -> CheckState {
    if read_ok(s, v) {
        s
    } else {
        with_diag(s, ErrorKind::UseAfterMove, at)
    }
}

/// `let b = a;` with `a` the binding `src`. A moving value passes its allocation to the new
/// binding and leaves `src` moved; a copied value gives the new binding an allocation of its
/// own. Moving from a moved binding is reported and declares nothing.
pub open spec fn after_let(s: CheckState, src: usize, at: usize) -> CheckState {
    let b = s.bindings[src as int];
    if b.state == Liveness::Moved {
        with_diag(s, if b.movable { ErrorKind::MoveAfterMove } else { ErrorKind::UseAfterMove }, at)
    } else if b.movable {
        CheckState {
            bindings: s.bindings.update(src as int, Binding { state: Liveness::Moved, ..b }).push(
                Binding { scope: top(s), ..b },
            ),
            ..s
        }
    } else {
        CheckState {
            bindings: s.bindings.push(Binding { scope: top(s), alloc: s.n_allocs as usize, ..b }),
            n_allocs: s.n_allocs + 1,
            ..s
        }
    }
}

/// Storing a reference of region `region` into binding `target`.
pub open spec fn after_store(s: CheckState, target: usize, region: usize, at: usize) -> CheckState {
    if nested_in(s.bindings[target as int].scope, region) {
        s
    } else {
        with_diag(s, ErrorKind::BorrowOutlivesOwner, at)
    }
}

/// `target = &referent;`
pub open spec fn after_borrow_into(s: CheckState, target: usize, referent: usize, at: usize) -> CheckState {
    if read_ok(s, referent) {
        after_store(s, target, s.bindings[referent as int].scope, at)
    } else {
        with_diag(s, ErrorKind::UseAfterMove, at)
    }
}

/// Reads of each binding of `vs`, in order.
pub open spec fn after_reads(s: CheckState, vs: Seq<usize>, at: usize) -> CheckState
    decreases vs.len(),
{
    if vs.len() == 0 {
        s
    } else {
        after_read(after_reads(s, vs.drop_last(), at), vs.last(), at)
    }
}

/// The regions of the bindings `vs`.
pub open spec fn regions_of(s: CheckState, vs: Seq<usize>) -> Seq<usize> {
    Seq::new(vs.len(), |i: int| s.bindings[vs[i] as int].scope)
}

/// `target = f(&args[0], &args[1], ...);` for a function `f` with signature `sig`: each
/// argument is read, and the returned reference, whose region is the tightest among the
/// arguments carrying the output lifetime, is stored into `target`.
pub open spec fn after_call(s: CheckState, target: usize, sig: &FnSig, args: Seq<usize>, at: usize) -> CheckState {
    let s1 = after_reads(s, args, at);
    match tightest(sig, regions_of(s, args)) {
        None => s1,
        Some(g) => after_store(s1, target, g, at),
    }
}

/// A `return` in a body with signature `sig` of a reference derived from parameter `param`.
pub open spec fn after_return(s: CheckState, sig: &FnSig, param: usize, at: usize) -> CheckState {
    if tied(sig, param as int) {
        s
    } else {
        with_diag(s, ErrorKind::BorrowOutlivesOwner, at)
    }
}

/// A method call on a receiver of type `ty` whose resolution came out as `res`: a resolved
/// body is recorded for the site, a failure is reported.
pub open spec fn after_method(s: CheckState, ty: usize, res: Result<Resolution, ErrorKind>, at: usize) -> CheckState {
    match res {
        Ok(body) => CheckState { resolved: s.resolved.push((at, ty, body)), ..s },
        Err(e) => with_diag(s, e, at),
    }
}


/// Every live binding holds an allocation of its own.
pub open spec fn live_allocs_distinct(bs: Seq<Binding>) -> bool {
    forall|i: int, j: int|
        0 <= i < bs.len() && 0 <= j < bs.len() && i != j && bs[i].state == Liveness::Live && bs[j].state
            == Liveness::Live ==> #[trigger] bs[i].alloc != #[trigger] bs[j].alloc
}

proof fn lemma_released(bs: Seq<Binding>, lo: int, hi: int)
    requires
        0 <= lo <= hi <= bs.len(),
        live_allocs_distinct(bs),
    ensures
        forall|x: usize|
            #[trigger] released(bs, lo, hi).contains(x) ==> exists|i: int|
                lo <= i < hi && bs[i].state == Liveness::Live && bs[i].movable && #[trigger] bs[i].alloc == x,
        forall|i: int|
            lo <= i < hi && bs[i].state == Liveness::Live && bs[i].movable ==> released(bs, lo, hi).contains(
                #[trigger] bs[i].alloc,
            ),
        released(bs, lo, hi).no_duplicates(),
    decreases hi - lo,
{
    if lo < hi {
        lemma_released(bs, lo + 1, hi);
        let rest = released(bs, lo + 1, hi);
        let all = released(bs, lo, hi);
        if bs[lo].state == Liveness::Live && bs[lo].movable {
            assert(all == rest.push(bs[lo].alloc));
            assert(!rest.contains(bs[lo].alloc)) by {
                if rest.contains(bs[lo].alloc) {
                    let i = choose|i: int|
                        lo + 1 <= i < hi && bs[i].state == Liveness::Live && bs[i].movable && #[trigger] bs[i].alloc
                            == bs[lo].alloc;
                    assert(bs[i].alloc != bs[lo].alloc);
                }
            }
            assert forall|x: usize| #[trigger] all.contains(x) implies exists|i: int|
                lo <= i < hi && bs[i].state == Liveness::Live && bs[i].movable && #[trigger] bs[i].alloc == x by {
                if x != bs[lo].alloc {
                    let k = choose|k: int| 0 <= k < all.len() && all[k] == x;
                    assert(rest.contains(x)) by {
                        assert(rest[k] == x);
                    }
                }
            }
            assert forall|i: int|
                lo <= i < hi && bs[i].state == Liveness::Live && bs[i].movable implies all.contains(
                #[trigger] bs[i].alloc,
            ) by {
                if i == lo {
                    assert(all[rest.len() as int] == bs[lo].alloc);
                } else {
                    let k = choose|k: int| 0 <= k < rest.len() && rest[k] == bs[i].alloc;
                    assert(all[k] == bs[i].alloc);
                }
            }
        } else {
            assert(all =~= rest);
        }
    }
}

/// Closing a scope keeps the state invariant: each allocation's destructor runs at most once.
pub proof fn lemma_closed_wf(s: CheckState)
    requires
        state_wf(s),
        s.frames.len() > 0,
    ensures
        state_wf(closed(s)),
{
    let first = s.frames.last().first as int;
    let n = s.bindings.len() as int;
    let rel = released(s.bindings, first, n);
    let t = closed(s);
    assert(live_allocs_distinct(s.bindings));
    lemma_released(s.bindings, first, n);
    assert forall|k: int| 0 <= k < t.drops.len() implies #[trigger] t.drops[k] < t.n_allocs by {
        if k >= s.drops.len() {
            let x = rel[k - s.drops.len()];
            assert(rel.contains(x));
        }
    }
    assert forall|a: int, b: int| 0 <= a < t.drops.len() && 0 <= b < t.drops.len() && a != b implies t.drops[a]
        != t.drops[b] by {
        let d = s.drops.len() as int;
        if a < d && b >= d {
            assert(rel.contains(t.drops[b]));
            let i = choose|i: int|
                first <= i < n && s.bindings[i].state == Liveness::Live && s.bindings[i].movable
                    && #[trigger] s.bindings[i].alloc == t.drops[b];
            assert(s.drops.contains(t.drops[a]));
        } else if a >= d && b < d {
            assert(rel.contains(t.drops[a]));
            let i = choose|i: int|
                first <= i < n && s.bindings[i].state == Liveness::Live && s.bindings[i].movable
                    && #[trigger] s.bindings[i].alloc == t.drops[a];
            assert(s.drops.contains(t.drops[b]));
        } else if a >= d && b >= d {
            assert(rel[a - d] != rel[b - d]);
        }
    }
    assert forall|i: int|
        0 <= i < t.bindings.len() && t.bindings[i].state == Liveness::Live && t.bindings[i].movable implies !t.drops.contains(
        #[trigger] t.bindings[i].alloc,
    ) by {
        assert(i < first);
        let x = s.bindings[i].alloc;
        if t.drops.contains(x) {
            let k = choose|k: int| 0 <= k < t.drops.len() && t.drops[k] == x;
            if k < s.drops.len() {
                assert(s.drops.contains(x));
            } else {
                assert(rel.contains(x));
                let j = choose|j: int|
                    first <= j < n && s.bindings[j].state == Liveness::Live && s.bindings[j].movable
                        && #[trigger] s.bindings[j].alloc == x;
                assert(s.bindings[i].alloc != s.bindings[j].alloc);
            }
        }
    }
}


/// `let b = a;` on a live binding `a` of a copied type leaves `a` live and unchanged, and a
/// later read of `a` succeeds without a diagnostic.
pub proof fn lemma_copy_leaves_source_usable(s: CheckState, a: usize, at: usize, later: usize)
    requires
        visible(s, a),
        s.bindings[a as int].state == Liveness::Live,
        !s.bindings[a as int].movable,
    ensures
        after_let(s, a, at).bindings[a as int] == s.bindings[a as int],
        visible(after_let(s, a, at), a),
        read_ok(after_let(s, a, at), a),
        after_read(after_let(s, a, at), a, later) == after_let(s, a, at),
        after_let(s, a, at).diags == s.diags,
{
}

/// `let b = a;` on a live binding `a` of a moving type: a later read of `a` fails with
/// `UseAfterMove`, and a read of `b` succeeds.
pub proof fn lemma_move_invalidates_source(s: CheckState, a: usize, at: usize, later: usize)
    requires
        visible(s, a),
        s.bindings[a as int].state == Liveness::Live,
        s.bindings[a as int].movable,
        s.bindings.len() < usize::MAX,
    ensures
        ({
            let s1 = after_let(s, a, at);
            let b = s.bindings.len() as usize;
            &&& !read_ok(s1, a)
            &&& after_read(s1, a, later).diags == s1.diags.push(Diagnostic { kind: ErrorKind::UseAfterMove, at: later })
            &&& read_ok(s1, b)
            &&& after_read(s1, b, later) == s1
            &&& s1.diags == s.diags
        }),
{
}

/// A fresh value of a moving type declared in a new block and moved to a second binding there
/// has its destructor run exactly once when the block closes.
pub proof fn lemma_moved_value_dropped_once(s: CheckState, ty: usize, at: usize)
    requires
        ty < s.types.len(),
        s.types[ty as int].copyability == Copyability::Move,
        s.bindings.len() < usize::MAX,
    ensures
        ({
            let s1 = declared(opened(s), ty);
            let s2 = after_let(s1, s.bindings.len() as usize, at);
            closed(s2).drops == s.drops.push(s.n_allocs as usize)
        }),
{
    let s0 = opened(s);
    let s1 = declared(s0, ty);
    let a = s.bindings.len() as usize;
    let s2 = after_let(s1, a, at);
    let first = s0.frames.last().first as int;
    assert(first == a);
    assert(s2.bindings.len() == a + 2);
    let bs = s2.bindings;
    assert(released(bs, a + 2, a + 2) =~= Seq::<usize>::empty());
    assert(released(bs, a + 1, a + 2) =~= seq![s.n_allocs as usize]);
    assert(released(bs, a as int, a + 2) =~= seq![s.n_allocs as usize]);
    assert(s.drops + seq![s.n_allocs as usize] =~= s.drops.push(s.n_allocs as usize));
}

/// Storing a reference to a value of a strictly inner scope into a binding of an outer scope
/// fails with `BorrowOutlivesOwner`.
pub proof fn lemma_inner_borrow_into_outer_rejected(s: CheckState, target: usize, referent: usize, at: usize)
    requires
        visible(s, target),
        visible(s, referent),
        read_ok(s, referent),
        s.bindings[referent as int].scope > s.bindings[target as int].scope,
    ensures
        after_borrow_into(s, target, referent, at) == with_diag(s, ErrorKind::BorrowOutlivesOwner, at),
{
}

/// A reference whose region is a scope that has since closed cannot be stored into any binding
/// still in scope: the store fails with `BorrowOutlivesOwner`.
pub proof fn lemma_store_from_closed_scope_rejected(s: CheckState, target: usize, region: usize, at: usize)
    requires
        visible(s, target),
        region >= s.frames.len(),
    ensures
        after_store(s, target, region, at) == with_diag(s, ErrorKind::BorrowOutlivesOwner, at),
{
}


/// Entering a block keeps the state invariant.
pub proof fn lemma_opened_wf(s: CheckState)
    requires
        state_wf(s),
    ensures
        state_wf(opened(s)),
{
    let t = opened(s);
    assert forall|k: int| 0 <= k < t.frames.len() implies #[trigger] t.frames[k].first <= t.bindings.len() by {
        if k < s.frames.len() {
            assert(t.frames[k] == s.frames[k]);
        }
    }
}

/// Declaring a fresh value keeps the state invariant.
pub proof fn lemma_declared_wf(s: CheckState, ty: usize)
    requires
        state_wf(s),
        s.n_allocs < usize::MAX,
    ensures
        state_wf(declared(s, ty)),
{
    let t = declared(s, ty);
    assert forall|k: int| 0 <= k < t.drops.len() implies t.drops[k] != s.n_allocs as usize by {
        assert(s.drops[k] < s.n_allocs);
    }
    assert forall|i: int, j: int|
        0 <= i < t.bindings.len() && 0 <= j < t.bindings.len() && i != j && t.bindings[i].state == Liveness::Live
            && t.bindings[j].state == Liveness::Live implies #[trigger] t.bindings[i].alloc
        != #[trigger] t.bindings[j].alloc by {
        if i < s.bindings.len() {
            assert(s.bindings[i].alloc < s.n_allocs);
        }
        if j < s.bindings.len() {
            assert(s.bindings[j].alloc < s.n_allocs);
        }
    }
}

/// `let b = a;` keeps the state invariant.
pub proof fn lemma_let_wf(s: CheckState, src: usize, at: usize)
    requires
        state_wf(s),
        visible(s, src),
        s.n_allocs < usize::MAX,
    ensures
        state_wf(after_let(s, src, at)),
{
    let b = s.bindings[src as int];
    let t = after_let(s, src, at);
    if b.state != Liveness::Moved {
        let bs = t.bindings;
        assert forall|k: int| 0 <= k < t.drops.len() implies #[trigger] t.drops[k] < t.n_allocs by {
            assert(s.drops[k] < s.n_allocs);
        }
        assert forall|i: int, j: int|
            0 <= i < bs.len() && 0 <= j < bs.len() && i != j && bs[i].state == Liveness::Live && bs[j].state
                == Liveness::Live implies #[trigger] bs[i].alloc != #[trigger] bs[j].alloc by {
            if i < s.bindings.len() && j < s.bindings.len() {
                assert(s.bindings[i].state == Liveness::Live && s.bindings[j].state == Liveness::Live);
            } else if i < s.bindings.len() {
                assert(s.bindings[i].state == Liveness::Live);
                if b.movable {
                    assert(i != src);
                    assert(s.bindings[i].alloc != s.bindings[src as int].alloc);
                } else {
                    assert(s.bindings[i].alloc < s.n_allocs);
                }
            } else {
                assert(s.bindings[j].state == Liveness::Live);
                if b.movable {
                    assert(j != src);
                    assert(s.bindings[j].alloc != s.bindings[src as int].alloc);
                } else {
                    assert(s.bindings[j].alloc < s.n_allocs);
                }
            }
        }
        assert forall|i: int|
            0 <= i < bs.len() && bs[i].state == Liveness::Live && bs[i].movable implies !t.drops.contains(
            #[trigger] bs[i].alloc,
        ) by {
            if i == s.bindings.len() {
                assert(s.bindings[src as int].state == Liveness::Live);
            } else {
                assert(s.bindings[i].state == Liveness::Live);
            }
        }
    }
}

/// Reads change nothing but the diagnostics.
pub proof fn lemma_reads_only_report(s: CheckState, vs: Seq<usize>, at: usize)
    ensures
        after_reads(s, vs, at) == (CheckState { diags: after_reads(s, vs, at).diags, ..s }),
    decreases vs.len(),
{
    if vs.len() > 0 {
        lemma_reads_only_report(s, vs.drop_last(), at);
    }
}

/// Closing a scope runs the destructor of every allocation held by a live binding of a moving
/// type in that scope.
pub proof fn lemma_closed_releases(s: CheckState, i: int)
    requires
        state_wf(s),
        s.frames.len() > 0,
        s.frames.last().first <= i < s.bindings.len(),
        s.bindings[i].state == Liveness::Live,
        s.bindings[i].movable,
    ensures
        closed(s).drops.contains(s.bindings[i].alloc),
        !s.drops.contains(s.bindings[i].alloc),
{
    let first = s.frames.last().first as int;
    let n = s.bindings.len() as int;
    assert(live_allocs_distinct(s.bindings));
    lemma_released(s.bindings, first, n);
    let rel = released(s.bindings, first, n);
    let k = choose|k: int| 0 <= k < rel.len() && rel[k] == s.bindings[i].alloc;
    assert(closed(s).drops[s.drops.len() + k] == s.bindings[i].alloc);
}

} // verus!
