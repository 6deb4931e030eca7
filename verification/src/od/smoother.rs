//! The backward smoother: a pass from the last estimate to the first that
//! refines each estimate with what the later ones know.
//!
//! The arithmetic of one step is handed in as a function of an estimate,
//! the estimate after it and the smoothed estimate after it.

use crate::od::estimate::Estimate;
use vstd::prelude::*;

verus! {

/// How far back the smoother goes.
#[derive(Clone, Copy, Debug, PartialEq, Eq, Structural)]
pub enum SmoothingArc {
    /// Over all estimates.
    All,
    /// Over the last arc of measurements: back to the latest estimate that
    /// is a prediction, which is left as it is.
    Arc,
}

/// The numeric outcome of one step of the smoother.
#[derive(Clone, Copy, Debug, PartialEq, Eq)]
pub struct Smoothed<const N: usize> {
    pub state: [u64; N],
    pub covar: [[u64; N]; N],
}

/// Whether the smoother, going back from the end, stops in front of `from`.
pub open spec fn is_arc_start<const N: usize>(
    estimates: Seq<Estimate<N>>,
    mode: SmoothingArc,
    from: int,
) -> bool {
    match mode {
        SmoothingArc::All => from == 0,
        SmoothingArc::Arc => {
            &&& 0 <= from <= estimates.len()
            &&& forall|k: int| from <= k < estimates.len() ==> !(#[trigger] estimates[k]).predicted
            &&& from > 0 ==> estimates[from - 1].predicted
        },
    }
}

/// Whether `refined` is `estimate` with a state and a covariance that
/// `smoother` gave for it, for the estimate `next` after it and the
/// smoothed estimate `next_smoothed` after it.
pub open spec fn is_refined<
    const N: usize,
    F: Fn(Estimate<N>, Estimate<N>, Estimate<N>) -> Smoothed<N>,
>(
    smoother: F,
    estimate: Estimate<N>,
    next: Estimate<N>,
    next_smoothed: Estimate<N>,
    refined: Estimate<N>,
) -> bool {
    exists|sm: Smoothed<N>|
        {
            &&& #[trigger] smoother.ensures((estimate, next, next_smoothed), sm)
            &&& refined == (Estimate { state: sm.state, covar: sm.covar, ..estimate })
        }
}

/// Whether `smoothed` is the backward pass over `estimates` from the end
/// down to `from`: the last estimate and those before `from` are as they
/// were, and each one in between is refined from the two after it.
pub open spec fn is_smoothing<
    const N: usize,
    F: Fn(Estimate<N>, Estimate<N>, Estimate<N>) -> Smoothed<N>,
>(smoother: F, estimates: Seq<Estimate<N>>, from: int, smoothed: Seq<Estimate<N>>) -> bool {
    &&& smoothed.len() == estimates.len()
    &&& forall|k: int|
        0 <= k < estimates.len() && (k < from || k == estimates.len() - 1) ==> #[trigger] smoothed[k]
            == estimates[k]
    &&& forall|k: int|
        0 <= k && from <= k < estimates.len() - 1 ==> #[trigger] is_refined(
            smoother,
            estimates[k],
            estimates[k + 1],
            smoothed[k + 1],
            smoothed[k],
        )
}

/// Smooths the estimates backward from the last one, as far as `mode` says.
pub fn smooth<const N: usize, F: Fn(Estimate<N>, Estimate<N>, Estimate<N>) -> Smoothed<N>>(
    estimates: &Vec<Estimate<N>>,
    mode: SmoothingArc,
    smoother: &F,
) -> (smoothed: Vec<Estimate<N>>)
    requires
        forall|a: Estimate<N>, b: Estimate<N>, c: Estimate<N>| smoother.requires((a, b, c)),
    ensures
        exists|from: int|
            #[trigger] is_arc_start(estimates@, mode, from) && is_smoothing(
                *smoother,
                estimates@,
                from,
                smoothed@,
            ),
{
    let n = estimates.len();
    let mut out: Vec<Estimate<N>> = Vec::new();
    let mut i: usize = 0;
    while i < n
        invariant
            n == estimates@.len(),
            i <= n,
            out@.len() == i,
            forall|j: int| 0 <= j < i ==> out@[j] == estimates@[j],
        decreases n - i,
    {
        out.push(estimates[i]);
        i += 1;
    }
    if n == 0 {
        proof {
            assert(is_arc_start(estimates@, mode, 0));
            assert(is_smoothing(*smoother, estimates@, 0, out@));
        }
        return out;
    }
    let whole = match mode {
        SmoothingArc::All => true,
        SmoothingArc::Arc => false,
    };
    if !whole && estimates[n - 1].predicted {
        proof {
            assert(is_arc_start(estimates@, mode, n as int));
            assert(is_smoothing(*smoother, estimates@, n as int, out@));
        }
        return out;
    }
    let mut k: usize = n - 1;
    let mut more = true;
    while more && k > 0
        invariant
            forall|a: Estimate<N>, b: Estimate<N>, c: Estimate<N>| smoother.requires((a, b, c)),
            n == estimates@.len(),
            n > 0,
            k < n,
            out@.len() == n,
            whole == (mode == SmoothingArc::All),
            !whole ==> forall|j: int| k <= j < n ==> !(#[trigger] estimates@[j]).predicted,
            !more ==> !whole && k > 0 && estimates@[k - 1].predicted,
            forall|j: int| 0 <= j < n && (j < k || j == n - 1) ==> #[trigger] out@[j]
                == estimates@[j],
            forall|j: int|
                0 <= j && k <= j < n - 1 ==> #[trigger] is_refined(
                    *smoother,
                    estimates@[j],
                    estimates@[j + 1],
                    out@[j + 1],
                    out@[j],
                ),
        decreases
                (if more {
                    k + 1
                } else {
                    0
                }),
    {
        let current = estimates[k - 1];
        if !whole && current.predicted {
            more = false;
        } else {
            let sm = smoother(current, estimates[k], out[k]);
            let refined = Estimate {
                dt: current.dt,
                state: sm.state,
                covar: sm.covar,
                stm: current.stm,
                predicted: current.predicted,
            };
            let ghost before = out@;
            out.set(k - 1, refined);
            k = k - 1;
            proof {
                assert(smoother.ensures((estimates@[k as int], estimates@[k + 1], before[k + 1]), sm));
                assert(is_refined(
                    *smoother,
                    estimates@[k as int],
                    estimates@[k + 1],
                    out@[k + 1],
                    out@[k as int],
                ));
                assert forall|j: int| 0 <= j && k <= j < n - 1 implies #[trigger] is_refined(
                    *smoother,
                    estimates@[j],
                    estimates@[j + 1],
                    out@[j + 1],
                    out@[j],
                ) by {
                    if j > k {
                        assert(is_refined(
                            *smoother,
                            estimates@[j],
                            estimates@[j + 1],
                            before[j + 1],
                            before[j],
                        ));
                    }
                }
            }
        }
    }
    proof {
        assert(is_arc_start(estimates@, mode, k as int));
        assert(is_smoothing(*smoother, estimates@, k as int, out@));
    }
    out
}

} // verus!
