use vstd::prelude::*;

verus! {

// A region is the depth of the scope that owns a referent. While a body is walked the open
// scopes form one chain from the function entry (depth 0) inwards, so region `a` lies inside
// region `b` exactly when `a >= b`.

/// Region `a` is nested inside, or equal to, region `b`.
pub open spec fn nested_in(a: usize, b: usize) -> bool {
    a >= b
}

/// Storing a reference into a binding is sound when the binding's region lies inside the
/// referent's: the referent then lives at least as long as the binding.
pub fn storage_allowed(value_region: usize, target_region: usize) -> (r: bool)
    ensures
        r == nested_in(target_region, value_region),
{
    target_region >= value_region
}

/// The lifetime signature of a function that returns a reference: for each reference
/// parameter the index of its lifetime parameter, and the index of the output's.
pub struct FnSig {
    pub params: Vec<usize>,
    pub output: usize,
}

/// Parameter `i` carries the same lifetime as the output.
pub open spec fn tied(sig: &FnSig, i: int) -> bool {
    0 <= i < sig.params@.len() && sig.params@[i] == sig.output
}

/// A body may return a reference derived from parameter `param` only when that parameter
/// carries the output's lifetime parameter; others may be read but not returned.
pub fn return_allowed(sig: &FnSig, param: usize) -> (r: bool)
    requires
        param < sig.params@.len(),
    ensures
        r == tied(sig, param as int),
{
    sig.params[param] == sig.output
}

/// `g` is the region of a tied argument and lies inside the regions of all tied arguments.
pub open spec fn is_tightest(sig: &FnSig, regions: Seq<usize>, g: usize) -> bool {
    (exists|i: int| tied(sig, i) && regions[i] == g) && forall|i: int| tied(sig, i) ==> nested_in(g, #[trigger] regions[i])
}

/// The tightest region among the arguments that carry the output lifetime, if any does.
pub open spec fn tightest(sig: &FnSig, regions: Seq<usize>) -> Option<usize> {
    if exists|g: usize| is_tightest(sig, regions, g) {
        Some(choose|g: usize| is_tightest(sig, regions, g))
    } else {
        None
    }
}

/// The region of the reference a call returns, given the regions of its reference arguments:
/// the tightest among the arguments whose lifetime is the output's. `None` when no parameter
/// carries the output lifetime.
pub fn result_region(sig: &FnSig, args: &Vec<usize>) -> (r: Option<usize>)
    requires
        args@.len() == sig.params@.len(),
    ensures
        r is None <==> forall|i: int| !tied(sig, i),
        r matches Some(g) ==> (exists|i: int| tied(sig, i) && args@[i] == g) && forall|i: int|
            tied(sig, i) ==> nested_in(g, #[trigger] args@[i]),
        r == tightest(sig, args@),
{
    let mut best: Option<usize> = None;
    let mut i: usize = 0;
    while i < args.len()
        invariant
            i <= args@.len(),
            args@.len() == sig.params@.len(),
            best is None <==> forall|j: int| 0 <= j < i ==> !tied(sig, j),
            best matches Some(g) ==> (exists|j: int| 0 <= j < i && tied(sig, j) && args@[j] == g) && forall|j: int|
                0 <= j < i && tied(sig, j) ==> nested_in(g, #[trigger] args@[j]),
        decreases args@.len() - i,
    {
        let ghost prev = best;
        if sig.params[i] == sig.output {
            assert(tied(sig, i as int));
            let a = args[i];
            match best {
                None => {
                    best = Some(a);
                },
                Some(g) => {
                    if a > g {
                        best = Some(a);
                    }
                },
            }
        }
        proof {
            if !tied(sig, i as int) {
                assert(best == prev);
            }
            if let Some(g) = best {
                if tied(sig, i as int) {
                    assert(nested_in(g, args@[i as int]));
                }
            }
        }
        i = i + 1;
    }
    assert(forall|j: int| tied(sig, j) ==> 0 <= j < args@.len());
    proof {
        match best {
            Some(g) => {
                assert(is_tightest(sig, args@, g));
                let h = choose|h: usize| is_tightest(sig, args@, h);
                let k = choose|k: int| tied(sig, k) && args@[k] == h;
                let k2 = choose|k: int| tied(sig, k) && args@[k] == g;
                assert(nested_in(g, args@[k]));
                assert(nested_in(h, args@[k2]));
            },
            None => {
                if exists|g: usize| is_tightest(sig, args@, g) {
                    let h = choose|h: usize| is_tightest(sig, args@, h);
                    let k = choose|k: int| tied(sig, k) && args@[k] == h;
                    assert(tied(sig, k));
                }
            },
        }
    }
    best
}

} // verus!
