use vstd::prelude::*;
use vstd::set_lib::{lemma_int_range, lemma_len_subset, set_int_range};
use crate::diag::ErrorKind;

verus! {

/// A trait declaration. Traits and types are named by their index in the registry and the
/// type catalog; methods by an identifier the front end interned.
pub struct TraitDecl {
    /// Methods every implementation must provide.
    pub required: Vec<u64>,
    /// Methods the trait itself gives a default body for.
    pub defaults: Vec<u64>,
    /// Supertraits, in declaration order.
    pub supers: Vec<usize>,
}

/// An implementation of a trait for a concrete type, with the methods it defines itself.
pub struct ImplDecl {
    pub trait_id: usize,
    pub type_id: usize,
    pub methods: Vec<u64>,
}

/// The body a method call resolves to.
#[derive(PartialEq, Eq, Structural, Clone, Copy, Debug)]
pub enum Resolution {
    /// The body written in the implementation with this index.
    ImplBody(usize),
    /// The default body declared in the trait with this index.
    DefaultBody(usize),
}

/// Every supertrait edge points at a declared trait.
pub open spec fn supers_in_range(ts: Seq<TraitDecl>) -> bool {
    forall|t: int, k: int|
        0 <= t < ts.len() && 0 <= k < ts[t].supers@.len() ==> #[trigger] ts[t].supers@[k] < ts.len()
}

/// Every trait in `s` extends some trait that is also in `s`.
pub open spec fn closed_under_supers(ts: Seq<TraitDecl>, s: Set<int>) -> bool {
    forall|t: int|
        #[trigger] s.contains(t) ==> 0 <= t < ts.len() && exists|k: int|
            0 <= k < ts[t].supers@.len() && s.contains(#[trigger] ts[t].supers@[k] as int)
}

/// The supertrait graph has a cycle: on a finite graph this is the same as a non-empty set
/// of traits each of which extends another member of the set.
pub open spec fn has_cycle(ts: Seq<TraitDecl>) -> bool {
    exists|s: Set<int>| #[trigger] closed_under_supers(ts, s) && s.len() > 0 && s.finite()
}

/// `rank` strictly decreases along every supertrait edge.
pub open spec fn ranks_decrease(ts: Seq<TraitDecl>, rank: Seq<int>) -> bool {
    &&& rank.len() == ts.len()
    &&& forall|t: int, k: int|
        0 <= t < ts.len() && 0 <= k < ts[t].supers@.len() ==> rank[#[trigger] ts[t].supers@[k] as int]
            < rank[t]
}

proof fn lemma_ranks_bound_closed_set(ts: Seq<TraitDecl>, rank: Seq<int>, s: Set<int>, m: nat)
    requires
        supers_in_range(ts),
        ranks_decrease(ts, rank),
        closed_under_supers(ts, s),
        forall|t: int| 0 <= t < ts.len() ==> #[trigger] rank[t] >= 0,
    ensures
        forall|t: int| s.contains(t) ==> rank[t] >= m,
    decreases m,
{
    if m > 0 {
        lemma_ranks_bound_closed_set(ts, rank, s, (m - 1) as nat);
        assert forall|t: int| s.contains(t) implies rank[t] >= m by {
            let k = choose|k: int| 0 <= k < ts[t].supers@.len() && s.contains(#[trigger] ts[t].supers@[k] as int);
            assert(s.contains(ts[t].supers@[k] as int));
        }
    }
}

/// Ranks that decrease along every edge and stay below `bound` leave no room for a cycle.
proof fn lemma_ranks_rule_out_cycle(ts: Seq<TraitDecl>, rank: Seq<int>, bound: nat)
    requires
        supers_in_range(ts),
        ranks_decrease(ts, rank),
        forall|t: int| 0 <= t < ts.len() ==> 0 <= #[trigger] rank[t] < bound,
    ensures
        !has_cycle(ts),
{
    if has_cycle(ts) {
        let s = choose|s: Set<int>| #[trigger] closed_under_supers(ts, s) && s.len() > 0 && s.finite();
        lemma_ranks_bound_closed_set(ts, rank, s, bound);
        let t = s.choose();
        assert(s.contains(t));
    }
}

/// Whether every supertrait of trait `t` is already placed.
fn supers_placed(ts: &Vec<TraitDecl>, t: usize, placed: &Vec<bool>) -> (r: bool)
    requires
        t < ts@.len(),
        placed@.len() == ts@.len(),
        supers_in_range(ts@),
    ensures
        r == forall|k: int| 0 <= k < ts@[t as int].supers@.len() ==> placed@[#[trigger] ts@[t as int].supers@[k] as int],
{
    let sups = &ts[t].supers;
    let mut k: usize = 0;
    while k < sups.len()
        invariant
            k <= sups@.len(),
            t < ts@.len(),
            sups@ == ts@[t as int].supers@,
            placed@.len() == ts@.len(),
            supers_in_range(ts@),
            forall|j: int| 0 <= j < k ==> placed@[#[trigger] sups@[j] as int],
        decreases sups@.len() - k,
    {
        assert(sups@[k as int] < ts@.len());
        if !placed[sups[k]] {
            return false;
        }
        k = k + 1;
    }
    true
}

/// Checks that the supertrait graph of `ts` is acyclic, placing traits one at a time once
/// all their supertraits are placed.
pub fn check_acyclic(ts: &Vec<TraitDecl>) -> (r: bool)
    requires
        supers_in_range(ts@),
    ensures
        r == !has_cycle(ts@),
{
    let n = ts.len();
    let mut placed: Vec<bool> = Vec::new();
    let mut rank: Vec<usize> = Vec::new();
    let mut i: usize = 0;
    while i < n
        invariant
            i <= n,
            n == ts@.len(),
            placed@.len() == i,
            rank@.len() == i,
            forall|j: int| 0 <= j < i ==> !placed@[j],
        decreases n - i,
    {
        placed.push(false);
        rank.push(0);
        i = i + 1;
    }
    let mut count: usize = 0;
    let ghost mut done: Set<int> = Set::empty();
    loop
        invariant
            n == ts@.len(),
            supers_in_range(ts@),
            placed@.len() == n,
            rank@.len() == n,
            done.finite(),
            count == done.len(),
            forall|j: int| 0 <= j < n ==> (placed@[j] <==> done.contains(j)),
            forall|j: int| done.contains(j) ==> 0 <= j < n,
            forall|j: int| 0 <= j < n && placed@[j] ==> rank@[j] < count,
            forall|j: int, k: int|
                0 <= j < n && placed@[j] && 0 <= k < ts@[j].supers@.len() ==> placed@[#[trigger] ts@[j].supers@[k] as int]
                    && rank@[ts@[j].supers@[k] as int] < rank@[j],
        decreases n - count,
    {
        proof {
            lemma_int_range(0, n as int);
            assert(done.subset_of(set_int_range(0, n as int)));
            lemma_len_subset(done, set_int_range(0, n as int));
        }
        let count_before = count;
        let ghost placed_before = placed@;
        let mut t: usize = 0;
        while t < n
            invariant
                t <= n,
                n == ts@.len(),
                supers_in_range(ts@),
                placed@.len() == n,
                rank@.len() == n,
                done.finite(),
                count == done.len(),
                count <= n,
                count_before <= count,
                count == count_before ==> placed@ == placed_before,
                count == count_before ==> forall|j: int|
                    0 <= j < t && !placed@[j] ==> exists|k: int|
                        0 <= k < ts@[j].supers@.len() && !placed@[#[trigger] ts@[j].supers@[k] as int],
                forall|j: int| 0 <= j < n ==> (placed@[j] <==> done.contains(j)),
                forall|j: int| done.contains(j) ==> 0 <= j < n,
                forall|j: int| 0 <= j < n && placed@[j] ==> rank@[j] < count,
                forall|j: int, k: int|
                    0 <= j < n && placed@[j] && 0 <= k < ts@[j].supers@.len() ==> placed@[#[trigger] ts@[j].supers@[k] as int]
                        && rank@[ts@[j].supers@[k] as int] < rank@[j],
            decreases n - t,
        {
            if !placed[t] {
                if supers_placed(ts, t, &placed) {
                    proof {
                        assert(!done.contains(t as int));
                        done = done.insert(t as int);
                        lemma_int_range(0, n as int);
                        assert(done.subset_of(set_int_range(0, n as int)));
                        lemma_len_subset(done, set_int_range(0, n as int));
                    }
                    placed.set(t, true);
                    rank.set(t, count);
                    count = count + 1;
                }
            }
            t = t + 1;
        }
        if count == count_before {
            if count == n {
                proof {
                    let rk = Seq::new(n as nat, |j: int| rank@[j] as int);
                    assert forall|j: int| 0 <= j < n implies placed@[j] by {
                        if !placed@[j] {
                            let rest = set_int_range(0, n as int).remove(j);
                            lemma_int_range(0, n as int);
                            assert(done.subset_of(rest));
                            lemma_len_subset(done, rest);
                        }
                    }
                    assert forall|j: int| 0 <= j < n implies 0 <= #[trigger] rk[j] < n by {
                        assert(placed@[j]);
                    }
                    lemma_ranks_rule_out_cycle(ts@, rk, n as nat);
                }
                return true;
            } else {
                proof {
                    let s = Set::new(|j: int| 0 <= j < n && !placed@[j]);
                    assert(s.subset_of(set_int_range(0, n as int)));
                    lemma_len_subset(s, set_int_range(0, n as int));
                    let j = if exists|j: int| 0 <= j < n && !placed@[j] {
                        choose|j: int| 0 <= j < n && !placed@[j]
                    } else {
                        0
                    };
                    if !(0 <= j < n && !placed@[j]) {
                        lemma_int_range(0, n as int);
                        assert(set_int_range(0, n as int).subset_of(done));
                        lemma_len_subset(set_int_range(0, n as int), done);
                    }
                    assert(s.contains(j));
                    assert(closed_under_supers(ts@, s));
                }
                return false;
            }
        }
    }
}


/// Implementation `i` is for trait `tr` on type `ty` and writes method `m` itself.
pub open spec fn provides(impls: Seq<ImplDecl>, i: int, tr: usize, ty: usize, m: u64) -> bool {
    0 <= i < impls.len() && impls[i].trait_id == tr && impls[i].type_id == ty && impls[i].methods@.contains(m)
}

/// What the implementations of `tr` for `ty` alone say about method `m`: the one body that
/// provides it, ambiguity when two do, nothing when none does.
pub open spec fn impl_lookup(impls: Seq<ImplDecl>, tr: usize, ty: usize, m: u64) -> Result<Resolution, ErrorKind> {
    if exists|i: int, j: int| i != j && provides(impls, i, tr, ty, m) && provides(impls, j, tr, ty, m) {
        Err(ErrorKind::AmbiguousTraitImpl)
    } else if exists|i: int| provides(impls, i, tr, ty, m) {
        Ok(Resolution::ImplBody((choose|i: int| provides(impls, i, tr, ty, m)) as usize))
    } else {
        Err(ErrorKind::UnresolvedMethod)
    }
}

/// Combines the outcome found so far with the next one along the supertrait search: a miss
/// gives way to anything, equal bodies agree, and two different bodies are ambiguous.
pub open spec fn merge(acc: Result<Resolution, ErrorKind>, next: Result<Resolution, ErrorKind>) -> Result<Resolution, ErrorKind> {
    match (acc, next) {
        (Err(ErrorKind::AmbiguousTraitImpl), _) => acc,
        (_, Err(ErrorKind::AmbiguousTraitImpl)) => next,
        (Err(_), _) => next,
        (Ok(_), Err(_)) => acc,
        (Ok(a), Ok(b)) => if a == b { acc } else { Err(ErrorKind::AmbiguousTraitImpl) },
    }
}

/// Resolution of method `m` on type `ty` through trait `tr`: an implementation body first,
/// then the trait's own default, then the supertraits in declaration order. `depth` bounds
/// the length of the supertrait chain followed.
pub open spec fn resolve_in(ts: Seq<TraitDecl>, impls: Seq<ImplDecl>, tr: usize, ty: usize, m: u64, depth: nat) -> Result<Resolution, ErrorKind>
    decreases depth, 0nat,
{
    let here = impl_lookup(impls, tr, ty, m);
    if here != Err::<Resolution, ErrorKind>(ErrorKind::UnresolvedMethod) {
        here
    } else if ts[tr as int].defaults@.contains(m) {
        Ok(Resolution::DefaultBody(tr))
    } else if depth == 0 {
        Err(ErrorKind::UnresolvedMethod)
    } else {
        resolve_supers(ts, impls, ts[tr as int].supers@, ty, m, (depth - 1) as nat)
    }
}

/// The merged outcome of resolving through each trait of `sups`, in order.
pub open spec fn resolve_supers(ts: Seq<TraitDecl>, impls: Seq<ImplDecl>, sups: Seq<usize>, ty: usize, m: u64, depth: nat) -> Result<Resolution, ErrorKind>
    decreases depth, sups.len() + 1,
{
    if sups.len() == 0 {
        Err(ErrorKind::UnresolvedMethod)
    } else {
        merge(
            resolve_supers(ts, impls, sups.drop_last(), ty, m, depth),
            resolve_in(ts, impls, sups.last(), ty, m, depth),
        )
    }
}

/// Resolution of `m` on `ty` through `tr` in a registry: in an acyclic registry every
/// supertrait chain is shorter than the number of traits, so that depth follows all of them.
pub open spec fn resolution(ts: Seq<TraitDecl>, impls: Seq<ImplDecl>, tr: usize, ty: usize, m: u64) -> Result<Resolution, ErrorKind> {
    resolve_in(ts, impls, tr, ty, m, ts.len())
}

fn merge_exec(acc: Result<Resolution, ErrorKind>, next: Result<Resolution, ErrorKind>) -> (r: Result<Resolution, ErrorKind>)
    ensures
        r == merge(acc, next),
{
    match (acc, next) {
        (Err(ErrorKind::AmbiguousTraitImpl), _) => acc,
        (_, Err(ErrorKind::AmbiguousTraitImpl)) => next,
        (Err(_), _) => next,
        (Ok(_), Err(_)) => acc,
        (Ok(a), Ok(b)) => if a == b { acc } else { Err(ErrorKind::AmbiguousTraitImpl) },
    }
}

fn contains_method(ms: &Vec<u64>, m: u64) -> (r: bool)
    ensures
        r == ms@.contains(m),
{
    let mut k: usize = 0;
    while k < ms.len()
        invariant
            k <= ms@.len(),
            forall|j: int| 0 <= j < k ==> ms@[j] != m,
        decreases ms@.len() - k,
    {
        if ms[k] == m {
            return true;
        }
        k = k + 1;
    }
    false
}

/// Looks for the implementation bodies of `m` for `tr` on `ty`.
pub fn find_impl(impls: &Vec<ImplDecl>, tr: usize, ty: usize, m: u64) -> (r: Result<Resolution, ErrorKind>)
    ensures
        r == impl_lookup(impls@, tr, ty, m),
{
    let mut found: Option<usize> = None;
    let mut i: usize = 0;
    while i < impls.len()
        invariant
            i <= impls@.len(),
            match found {
                None => forall|j: int| 0 <= j < i ==> !provides(impls@, j, tr, ty, m),
                Some(f) => f < i && provides(impls@, f as int, tr, ty, m) && forall|j: int|
                    0 <= j < i && j != f ==> !provides(impls@, j, tr, ty, m),
            },
        decreases impls@.len() - i,
    {
        let d = &impls[i];
        if d.trait_id == tr && d.type_id == ty && contains_method(&d.methods, m) {
            match found {
                Some(f) => {
                    assert(provides(impls@, f as int, tr, ty, m) && provides(impls@, i as int, tr, ty, m));
                    return Err(ErrorKind::AmbiguousTraitImpl);
                },
                None => {
                    found = Some(i);
                },
            }
        }
        i = i + 1;
    }
    match found {
        None => Err(ErrorKind::UnresolvedMethod),
        Some(f) => {
            assert(provides(impls@, f as int, tr, ty, m));
            Ok(Resolution::ImplBody(f))
        },
    }
}

/// The registry of trait declarations and implementations, built once before checking.
pub struct TraitRegistry {
    pub traits: Vec<TraitDecl>,
    pub impls: Vec<ImplDecl>,
}

impl TraitRegistry {
    /// A registry is well formed when its supertrait edges are in range and acyclic.
    pub open spec fn wf(&self) -> bool {
        supers_in_range(self.traits@) && !has_cycle(self.traits@)
    }

    /// Builds a registry, refusing a supertrait graph with a cycle.
    pub fn new(traits: Vec<TraitDecl>, impls: Vec<ImplDecl>) -> (r: Result<TraitRegistry, ErrorKind>)
        requires
            supers_in_range(traits@),
        ensures
            match r {
                Ok(reg) => reg.traits@ == traits@ && reg.impls@ == impls@ && reg.wf(),
                Err(e) => e == ErrorKind::CyclicSupertrait && has_cycle(traits@),
            },
            r is Ok <==> !has_cycle(traits@),
    {
        if check_acyclic(&traits) {
            Ok(TraitRegistry { traits, impls })
        } else {
            Err(ErrorKind::CyclicSupertrait)
        }
    }

    fn resolve_at(&self, tr: usize, ty: usize, m: u64, depth: usize) -> (r: Result<Resolution, ErrorKind>)
        requires
            supers_in_range(self.traits@),
            tr < self.traits@.len(),
        ensures
            r == resolve_in(self.traits@, self.impls@, tr, ty, m, depth as nat),
        decreases depth,
    {
        let here = find_impl(&self.impls, tr, ty, m);
        match here {
            Err(ErrorKind::UnresolvedMethod) => {},
            _ => {
                return here;
            },
        }
        if contains_method(&self.traits[tr].defaults, m) {
            return Ok(Resolution::DefaultBody(tr));
        }
        if depth == 0 {
            return Err(ErrorKind::UnresolvedMethod);
        }
        let sups = &self.traits[tr].supers;
        let mut acc: Result<Resolution, ErrorKind> = Err(ErrorKind::UnresolvedMethod);
        let mut k: usize = 0;
        while k < sups.len()
            invariant
                0 < depth,
                k <= sups@.len(),
                tr < self.traits@.len(),
                sups@ == self.traits@[tr as int].supers@,
                supers_in_range(self.traits@),
                acc == resolve_supers(self.traits@, self.impls@, sups@.take(k as int), ty, m, (depth - 1) as nat),
            decreases sups@.len() - k,
        {
            assert(sups@[k as int] < self.traits@.len());
            let next = self.resolve_at(sups[k], ty, m, depth - 1);
            assert(sups@.take(k + 1).drop_last() =~= sups@.take(k as int));
            acc = merge_exec(acc, next);
            k = k + 1;
        }
        assert(sups@.take(sups@.len() as int) =~= sups@);
        acc
    }

    /// Resolves a call of method `m` on a receiver of type `ty` through trait `tr`.
    pub fn resolve(&self, tr: usize, ty: usize, m: u64) -> (r: Result<Resolution, ErrorKind>)
        requires
            self.wf(),
            tr < self.traits@.len(),
        ensures
            r == resolution(self.traits@, self.impls@, tr, ty, m),
    {
        self.resolve_at(tr, ty, m, self.traits.len())
    }
}


/// A call through trait `x` on a type with no implementation body for the method, where `x`
/// neither declares a default for it nor has supertraits to inherit one from, is unresolved.
pub proof fn lemma_no_impl_no_default_unresolved(ts: Seq<TraitDecl>, impls: Seq<ImplDecl>, x: usize, ty: usize, m: u64)
    requires
        0 <= x < ts.len(),
        forall|i: int| !provides(impls, i, x, ty, m),
        !ts[x as int].defaults@.contains(m),
        ts[x as int].supers@.len() == 0,
    ensures
        resolution(ts, impls, x, ty, m) == Err::<Resolution, ErrorKind>(ErrorKind::UnresolvedMethod),
{
    assert(impl_lookup(impls, x, ty, m) == Err::<Resolution, ErrorKind>(ErrorKind::UnresolvedMethod));
    assert(ts[x as int].supers@ =~= Seq::<usize>::empty());
}

/// A call through trait `x` on a type with no implementation body for the method resolves
/// to the default body that `x` declares for it.
pub proof fn lemma_default_body_used(ts: Seq<TraitDecl>, impls: Seq<ImplDecl>, x: usize, ty: usize, m: u64)
    requires
        0 <= x < ts.len(),
        forall|i: int| !provides(impls, i, x, ty, m),
        ts[x as int].defaults@.contains(m),
    ensures
        resolution(ts, impls, x, ty, m) == Ok::<Resolution, ErrorKind>(Resolution::DefaultBody(x)),
{
    assert(impl_lookup(impls, x, ty, m) == Err::<Resolution, ErrorKind>(ErrorKind::UnresolvedMethod));
}

/// When trait `sub` extends only `base`, `base` has a default for the method and no
/// implementation on the type writes the method itself, a call through `sub` resolves to the
/// default body of `base`.
pub proof fn lemma_supertrait_default_inherited(ts: Seq<TraitDecl>, impls: Seq<ImplDecl>, sub: usize, base: usize, ty: usize, m: u64)
    requires
        0 <= sub < ts.len(),
        0 <= base < ts.len(),
        sub != base,
        ts[sub as int].supers@ == seq![base],
        !ts[sub as int].defaults@.contains(m),
        ts[base as int].defaults@.contains(m),
        forall|i: int| !provides(impls, i, sub, ty, m),
        forall|i: int| !provides(impls, i, base, ty, m),
    ensures
        resolution(ts, impls, sub, ty, m) == Ok::<Resolution, ErrorKind>(Resolution::DefaultBody(base)),
{
    assert(impl_lookup(impls, sub, ty, m) == Err::<Resolution, ErrorKind>(ErrorKind::UnresolvedMethod));
    assert(impl_lookup(impls, base, ty, m) == Err::<Resolution, ErrorKind>(ErrorKind::UnresolvedMethod));
    let d = (ts.len() - 1) as nat;
    assert(seq![base].drop_last() =~= Seq::<usize>::empty());
    assert(seq![base].last() == base);
    assert(resolve_supers(ts, impls, Seq::<usize>::empty(), ty, m, d) == Err::<Resolution, ErrorKind>(ErrorKind::UnresolvedMethod));
    assert(resolve_in(ts, impls, base, ty, m, d) == Ok::<Resolution, ErrorKind>(Resolution::DefaultBody(base)));
    assert(resolve_supers(ts, impls, seq![base], ty, m, d) == Ok::<Resolution, ErrorKind>(Resolution::DefaultBody(base)));
}

} // verus!
