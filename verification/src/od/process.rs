//! The orbit determination process: a propagator drives a filter from one
//! measurement to the next, and every estimate and residual is recorded in
//! the order of time.
//!
//! The arithmetic is handed in as functions: the trial step of the
//! integrator, the state transition matrix carried by a propagated node,
//! the time update, the measurement model with the measurement update, and
//! the rebasing of the reference after an update.

use crate::md::trajectory::Node;
use crate::od::estimate::{is_identity, is_zero_matrix, Estimate, Residual};
use crate::od::filter::{Correction, Lapse, Prediction, KF};
use crate::od::smoother::{is_arc_start, is_smoothing, smooth, Smoothed, SmoothingArc};
use crate::od::trigger::EkfTrigger;
use crate::propagators::{is_leg, Details, PropagationError, Propagator, Trial};
use crate::time::{lemma_epoch_in_range, Duration, Epoch};
use vstd::prelude::*;

verus! {

/// An observation `(t, y, station, visible?)`.
#[derive(Clone, Copy, Debug, PartialEq, Eq)]
pub struct Measurement<const M: usize> {
    /// The epoch of the observation.
    pub dt: Epoch,
    /// The observed values.
    pub obs: [u64; M],
    /// The identifier of the station that observed.
    pub station: usize,
    /// Whether the station saw the spacecraft.
    pub visible: bool,
}

/// What the measurement model and the update arithmetic give for one
/// measurement that a station can account for.
#[derive(Clone, Copy, Debug, PartialEq, Eq)]
pub struct Gauge<const N: usize, const M: usize> {
    /// The sensitivity matrix at the propagated reference.
    pub h_tilde: [[u64; N]; M],
    /// The measurement update, or `None` where the innovation covariance
    /// has no inverse.
    pub correction: Option<Correction<N, M>>,
    /// Whether the residual ratio is within the bound of the trigger.
    pub within_sigma: bool,
}

/// The arithmetic of a process, one function for each kind of numeric work.
pub struct Arithmetic<T, P, Q, G, R> {
    /// One trial step of the integrator from a node, of a given size.
    pub trial: T,
    /// The state transition matrix that a propagated node carries: from the
    /// latest rebasing to the node.
    pub stm_of: P,
    /// The time update of a filter with a state transition matrix, over a
    /// lapse.
    pub predict: Q,
    /// The measurement model and the measurement update: what the filter,
    /// with a state transition matrix and over a lapse, makes of a
    /// measurement at a node, given the bound of the residual test. `None`
    /// where no station accounts for the measurement.
    pub gauge: G,
    /// The reference after an update: the node with its state transition
    /// matrix set back to the identity and, for an extended filter, with
    /// the state deviation added to its state.
    pub rebase: R,
}

/// The arithmetic of an iteration, one function for each kind of numeric
/// work beyond that of a pass.
pub struct Refit<W, X, C> {
    /// One step of the backward smoother.
    pub smoother: W,
    /// The start of the next pass: from the node that the latest pass
    /// started from, the initial estimate and the smoothed first estimate,
    /// the reference node and the estimate that the next pass starts from.
    pub restart: X,
    /// Whether the smoothed first estimate has settled: from the one of the
    /// pass before, the one of this pass and the tolerance, the verdict and
    /// the size of the change as a binary64 bit pattern.
    pub converged: C,
}

/// When the iteration ends: `{mode, max_iter, tol}`.
#[derive(Clone, Copy, Debug, PartialEq, Eq)]
pub struct IterationConf {
    /// How far back the smoother goes.
    pub mode: SmoothingArc,
    /// The greatest number of passes made again.
    pub max_iter: usize,
    /// The change of the first estimate below which the iteration has
    /// converged, as a binary64 bit pattern.
    pub tol: u64,
}

/// Why an orbit determination failed.
#[derive(Clone, Debug, PartialEq, Eq)]
pub enum ODError {
    /// The propagator failed: this ends the pass.
    Propagation(PropagationError),
    /// The iteration had not converged after `iter` passes; `delta` is the
    /// change of the first estimate seen last.
    IterationDiverged { iter: usize, delta: u64 },
}

/// Whether `longer` starts with `shorter`.
pub open spec fn extends<A>(shorter: Seq<A>, longer: Seq<A>) -> bool {
    shorter.len() <= longer.len() && longer.subrange(0, shorter.len() as int) =~= shorter
}

/// The bound of the residual test: that of the trigger, or zero without
/// one.
pub open spec fn bound_of(trigger: Option<EkfTrigger>) -> u64 {
    match trigger {
        Some(t) => t.within_sigma,
        None => 0,
    }
}

/// Whether `lapse` is the lapse from the latest estimate of `kf` to `dt`.
pub open spec fn is_lapse<const N: usize, const M: usize>(kf: KF<N, M>, dt: Epoch, lapse: Lapse)
    -> bool {
    &&& lapse.elapsed.nanos() == dt.nanos() - kf.prev_estimate.dt.nanos()
    &&& lapse.elapsed.is_normal()
    &&& lapse.process_noise == kf.snc_due(dt)
}

/// Whether `first` is the first of the estimates once they have been
/// smoothed backward as far as `mode` says.
pub open spec fn is_first_smoothed<
    const N: usize,
    W: Fn(Estimate<N>, Estimate<N>, Estimate<N>) -> Smoothed<N>,
>(smoother: W, mode: SmoothingArc, estimates: Seq<Estimate<N>>, first: Estimate<N>) -> bool {
    exists|from: int, smoothed: Seq<Estimate<N>>|
        {
            &&& #[trigger] is_smoothing(smoother, estimates, from, smoothed)
            &&& is_arc_start(estimates, mode, from)
            &&& smoothed.len() > 0
            &&& smoothed[0] == first
        }
}

/// Whether `converged` found the smoothed first estimate `later` not to have
/// settled against `earlier`, the one of the round before.
pub open spec fn is_unsettled<const N: usize, C: Fn(Estimate<N>, Estimate<N>, u64) -> (bool, u64)>(
    converged: C,
    tol: u64,
    earlier: Estimate<N>,
    later: Estimate<N>,
) -> bool {
    exists|change: u64| #[trigger] converged.ensures((earlier, later, tol), (false, change))
}

/// Whether the measurements are in the order of time from `start` on: the
/// first is not earlier than `start`, and none is earlier than the one
/// before it.
pub open spec fn in_time_order<const M: usize>(start: Epoch, ms: Seq<Measurement<M>>) -> bool {
    forall|k: int|
        0 <= k < ms.len() ==> (if k == 0 {
            start.nanos()
        } else {
            ms[k - 1].dt.nanos()
        }) <= (#[trigger] ms[k]).dt.nanos()
}

/// Whether the residuals from `from` on are those of the measurements, one
/// each and each at the epoch of its measurement.
pub open spec fn residuals_match<const M: usize>(
    residuals: Seq<Residual<M>>,
    from: int,
    ms: Seq<Measurement<M>>,
) -> bool {
    &&& residuals.len() == from + ms.len()
    &&& forall|k: int| 0 <= k < ms.len() ==> residuals[from + k].dt == (#[trigger] ms[k]).dt
}

/// Whether the epochs of the estimates never decrease.
pub open spec fn time_ordered<const N: usize>(estimates: Seq<Estimate<N>>) -> bool {
    forall|i: int, j: int|
        0 <= i <= j < estimates.len() ==> (#[trigger] estimates[i]).dt.nanos() <= (
        #[trigger] estimates[j]).dt.nanos()
}

/// A sequence that extends an extension of another extends that one.
pub proof fn lemma_extends_twice<A>(first: Seq<A>, second: Seq<A>, third: Seq<A>)
    requires
        extends(first, second),
        extends(second, third),
    ensures
        extends(first, third),
{
    assert forall|j: int| 0 <= j < first.len() implies third[j] == first[j] by {
        assert(third.subrange(0, second.len() as int)[j] == second[j]);
        assert(second.subrange(0, first.len() as int)[j] == first[j]);
    }
}

/// Estimates stay in the order of time when one is added that is not
/// earlier than any of them.
pub proof fn lemma_push_keeps_order<const N: usize>(estimates: Seq<Estimate<N>>, e: Estimate<N>)
    requires
        time_ordered(estimates),
        forall|i: int| 0 <= i < estimates.len() ==> (#[trigger] estimates[i]).dt.nanos()
            <= e.dt.nanos(),
    ensures
        time_ordered(estimates.push(e)),
{
    let longer = estimates.push(e);
    assert forall|i: int, j: int| 0 <= i <= j < longer.len() implies (#[trigger] longer[i]).dt.nanos()
        <= (#[trigger] longer[j]).dt.nanos() by {
        if j < estimates.len() {
            assert(longer[i] == estimates[i]);
            assert(longer[j] == estimates[j]);
        } else if i < estimates.len() {
            assert(longer[i] == estimates[i]);
        }
    }
}

/// The residual of a measurement at `dt` that the filter did not take.
pub open spec fn rejected_at<const M: usize>(dt: Epoch, r: Residual<M>) -> bool {
    &&& r.dt == dt
    &&& r.rejected
    &&& r.ratio == 0
    &&& forall|i: int| 0 <= i < M ==> r.prefit[i] == 0 && r.postfit[i] == 0
}

/// An orbit determination process over a state of `N` components, with
/// measurements of `M` components and a propagated state of `S` components
/// that carries the state transition matrix.
#[derive(Debug)]
pub struct ODProcess<const N: usize, const M: usize, const S: usize> {
    /// The propagator of the reference trajectory.
    pub prop: Propagator<S>,
    /// The filter.
    pub kf: KF<N, M>,
    /// The trigger of the extended mode, if there is one.
    pub trigger: Option<EkfTrigger>,
    /// The estimate that the latest pass started from, and after it every
    /// estimate made, in the order of time.
    pub estimates: Vec<Estimate<N>>,
    /// The residual of every measurement met, in the order of time.
    pub residuals: Vec<Residual<M>>,
    /// The node that the latest pass started from.
    pub init_node: Node<S>,
    /// The filter that the process started with.
    pub init_kf: KF<N, M>,
    /// The trigger that the process started with.
    pub init_trigger: Option<EkfTrigger>,
}

impl<const N: usize, const M: usize, const S: usize> ODProcess<N, M, S> {
    /// The invariant of a process: its estimates are in the order of time,
    /// and none is later than the epoch that the propagator has reached.
    pub open spec fn is_well_formed(self) -> bool {
        &&& time_ordered(self.estimates@)
        &&& forall|i: int|
            0 <= i < self.estimates@.len() ==> (#[trigger] self.estimates@[i]).dt.nanos()
                <= self.prop.node.epoch.nanos()
    }

    /// Whether the estimate that the process started from is not later
    /// than the node that it started from.
    pub open spec fn starts_in_time(self) -> bool {
        self.init_kf.prev_estimate.dt.nanos() <= self.init_node.epoch.nanos()
    }

    /// A process that has made no estimate yet: its records hold the
    /// estimate that the filter starts from and nothing else.
    pub fn new(prop: Propagator<S>, kf: KF<N, M>, trigger: Option<EkfTrigger>) -> (p: ODProcess<
        N,
        M,
        S,
    >)
        ensures
            p.prop == prop,
            p.kf == kf,
            p.trigger == trigger,
            p.estimates@ == seq![kf.prev_estimate],
            p.residuals@ == Seq::<Residual<M>>::empty(),
            p.init_node == prop.node,
            p.init_kf == kf,
            p.init_trigger == trigger,
            p.starts_in_time() ==> p.is_well_formed(),
    {
        let mut estimates: Vec<Estimate<N>> = Vec::new();
        estimates.push(kf.prev_estimate);
        ODProcess {
            prop,
            kf,
            trigger,
            estimates,
            residuals: Vec::new(),
            init_node: prop.node,
            init_kf: kf,
            init_trigger: trigger,
        }
    }

    /// Whether `other` started from the same node, filter and trigger.
    pub open spec fn same_start(self, other: Self) -> bool {
        &&& self.init_node == other.init_node
        &&& self.init_kf == other.init_kf
        &&& self.init_trigger == other.init_trigger
    }

    /// Whether `other` started at the same epoch, with the same filter and
    /// trigger.
    pub open spec fn same_origin(self, other: Self) -> bool {
        &&& self.init_node.epoch == other.init_node.epoch
        &&& self.init_kf == other.init_kf
        &&& self.init_trigger == other.init_trigger
    }

    /// Whether this process is `before` after the step to `stepped`, which
    /// ends before the measurement, has been recorded as a time update with
    /// the given numbers: `stm` is what `stm_of` gave for the node reached,
    /// `lapse` is the lapse since the latest estimate, `prediction` is what
    /// `predict` gave for the filter as it was, and `rebased` is what
    /// `rebase` gave for the node reached. The predicted estimate at the
    /// epoch reached is added to the estimates, the filter follows, and the
    /// propagator goes on from the rebased node at that epoch.
    pub open spec fn is_predicted_with<
        T: Fn(Node<S>, Duration) -> Trial<S>,
        P: Fn(Node<S>) -> [[u64; N]; N],
        Q: Fn(KF<N, M>, [[u64; N]; N], Lapse) -> Prediction<N>,
        G: Fn(KF<N, M>, [[u64; N]; N], Lapse, Node<S>, Measurement<M>, u64) -> Option<Gauge<N, M>>,
        R: Fn(Node<S>, Option<[u64; N]>) -> Node<S>,
    >(
        self,
        arithmetic: Arithmetic<T, P, Q, G, R>,
        before: Self,
        stepped: Propagator<S>,
        stm: [[u64; N]; N],
        lapse: Lapse,
        prediction: Prediction<N>,
        rebased: Node<S>,
    ) -> bool {
        let estimate = Estimate {
            dt: stepped.node.epoch,
            state: prediction.state,
            covar: prediction.covar,
            stm,
            predicted: true,
        };
        &&& arithmetic.stm_of.ensures((stepped.node,), stm)
        &&& is_lapse(before.kf, stepped.node.epoch, lapse)
        &&& arithmetic.predict.ensures((before.kf, stm, lapse), prediction)
        &&& arithmetic.rebase.ensures((stepped.node, None::<[u64; N]>), rebased)
        &&& self.estimates@ == before.estimates@.push(estimate)
        &&& self.kf.follows(before.kf, estimate)
        &&& self.kf.h_tilde_updated == before.kf.h_tilde_updated
        &&& self.prop == (Propagator {
            node: Node { epoch: stepped.node.epoch, state: rebased.state, rate: rebased.rate },
            ..stepped
        })
    }

    /// Whether this process is `before` after the propagator has made the
    /// accepted step that left it as `stepped`, on the way to a measurement
    /// at `dt`: a step that ends before `dt` is recorded as a time update,
    /// and a step that ends at `dt` changes the propagator alone.
    pub open spec fn is_after_step<
        T: Fn(Node<S>, Duration) -> Trial<S>,
        P: Fn(Node<S>) -> [[u64; N]; N],
        Q: Fn(KF<N, M>, [[u64; N]; N], Lapse) -> Prediction<N>,
        G: Fn(KF<N, M>, [[u64; N]; N], Lapse, Node<S>, Measurement<M>, u64) -> Option<Gauge<N, M>>,
        R: Fn(Node<S>, Option<[u64; N]>) -> Node<S>,
    >(
        self,
        arithmetic: Arithmetic<T, P, Q, G, R>,
        before: Self,
        stepped: Propagator<S>,
        dt: Epoch,
    ) -> bool {
        &&& self.trigger == before.trigger
        &&& self.same_start(before)
        &&& self.residuals@ == before.residuals@
        &&& if stepped.node.epoch.nanos() < dt.nanos() {
            exists|
                stm: [[u64; N]; N],
                lapse: Lapse,
                prediction: Prediction<N>,
                rebased: Node<S>,
            | #[trigger]
                self.is_predicted_with(
                    arithmetic,
                    before,
                    stepped,
                    stm,
                    lapse,
                    prediction,
                    rebased,
                )
        } else {
            &&& self.estimates@ == before.estimates@
            &&& self.kf == before.kf
            &&& self.prop == stepped
        }
    }

    /// Whether this process is `before` one accepted step of the
    /// propagator later, on the way to a measurement at `dt` that `before`
    /// has not reached.
    pub open spec fn is_leg_to<
        T: Fn(Node<S>, Duration) -> Trial<S>,
        P: Fn(Node<S>) -> [[u64; N]; N],
        Q: Fn(KF<N, M>, [[u64; N]; N], Lapse) -> Prediction<N>,
        G: Fn(KF<N, M>, [[u64; N]; N], Lapse, Node<S>, Measurement<M>, u64) -> Option<Gauge<N, M>>,
        R: Fn(Node<S>, Option<[u64; N]>) -> Node<S>,
    >(self, arithmetic: Arithmetic<T, P, Q, G, R>, before: Self, dt: Epoch) -> bool {
        exists|stepped: Propagator<S>|
            {
                &&& #[trigger] is_leg(arithmetic.trial, before.prop, dt.nanos(), stepped)
                &&& self.is_after_step(arithmetic, before, stepped, dt)
            }
    }

    /// Whether this process is `before`, which has reached the epoch of the
    /// measurement `m`, after `m` has been recorded with the given numbers.
    ///
    /// The filter is in the mode that [`ODProcess::extended_at`] gives.
    /// `stm` is what `stm_of` gave for the node reached and `lapse` is the
    /// lapse since the latest estimate. For a measurement that the station
    /// saw, `out` is what `gauge` gave for that filter, `stm`, `lapse`, the
    /// node reached, `m` and the bound of the trigger; for one that it did
    /// not see, `out` is nothing. One more residual is recorded. With a
    /// correction in `out` the updated estimate is recorded with it, the
    /// trigger takes in the residual test, the filter follows in the mode
    /// that the trigger calls for, and the propagator goes on from what
    /// `rebase` gave for the node reached and, for an extended filter, the
    /// state of the estimate. Without one the residual is a rejected one,
    /// the trigger counts a failure, and filter and propagator stay.
    pub open spec fn is_arrival_with<
        T: Fn(Node<S>, Duration) -> Trial<S>,
        P: Fn(Node<S>) -> [[u64; N]; N],
        Q: Fn(KF<N, M>, [[u64; N]; N], Lapse) -> Prediction<N>,
        G: Fn(KF<N, M>, [[u64; N]; N], Lapse, Node<S>, Measurement<M>, u64) -> Option<Gauge<N, M>>,
        R: Fn(Node<S>, Option<[u64; N]>) -> Node<S>,
    >(
        self,
        arithmetic: Arithmetic<T, P, Q, G, R>,
        before: Self,
        m: Measurement<M>,
        stm: [[u64; N]; N],
        lapse: Lapse,
        out: Option<Gauge<N, M>>,
        rebased: Node<S>,
    ) -> bool {
        let node = before.prop.node;
        let settled = KF { ekf: before.extended_at(m.dt), ..before.kf };
        let len = before.residuals@.len() as int;
        &&& self.same_start(before)
        &&& arithmetic.stm_of.ensures((node,), stm)
        &&& is_lapse(settled, m.dt, lapse)
        &&& if m.visible {
            arithmetic.gauge.ensures((settled, stm, lapse, node, m, bound_of(before.trigger)), out)
        } else {
            out is None
        }
        &&& self.residuals@.len() == len + 1
        &&& extends(before.residuals@, self.residuals@)
        &&& if out is Some && out->Some_0.correction is Some {
            let g = out->Some_0;
            let c = g.correction->Some_0;
            let estimate = Estimate {
                dt: m.dt,
                state: c.state,
                covar: c.covar,
                stm,
                predicted: false,
            };
            &&& self.estimates@ == before.estimates@.push(estimate)
            &&& self.residuals@[len] == (Residual {
                dt: m.dt,
                prefit: c.prefit,
                postfit: c.postfit,
                ratio: c.ratio,
                rejected: false,
            })
            &&& self.trigger == before.trigger_after(m.dt, g.within_sigma)
            &&& self.kf.follows(
                KF {
                    h_tilde: g.h_tilde,
                    ekf: before.mode_after(m.dt, g.within_sigma),
                    ..settled
                },
                estimate,
            )
            &&& !self.kf.h_tilde_updated
            &&& arithmetic.rebase.ensures(
                (
                    node,
                    if self.kf.ekf {
                        Some(estimate.state)
                    } else {
                        None
                    },
                ),
                rebased,
            )
            &&& self.prop == (Propagator {
                node: Node { epoch: node.epoch, state: rebased.state, rate: rebased.rate },
                ..before.prop
            })
        } else {
            &&& self.estimates@ == before.estimates@
            &&& rejected_at(m.dt, self.residuals@[len])
            &&& self.trigger == before.trigger_after(m.dt, false)
            &&& self.kf == settled
            &&& self.prop == before.prop
        }
    }

    /// Whether this process is `before`, which has reached the epoch of the
    /// measurement `m`, after `m` has been recorded.
    pub open spec fn is_arrival<
        T: Fn(Node<S>, Duration) -> Trial<S>,
        P: Fn(Node<S>) -> [[u64; N]; N],
        Q: Fn(KF<N, M>, [[u64; N]; N], Lapse) -> Prediction<N>,
        G: Fn(KF<N, M>, [[u64; N]; N], Lapse, Node<S>, Measurement<M>, u64) -> Option<Gauge<N, M>>,
        R: Fn(Node<S>, Option<[u64; N]>) -> Node<S>,
    >(self, arithmetic: Arithmetic<T, P, Q, G, R>, before: Self, m: Measurement<M>) -> bool {
        exists|stm: [[u64; N]; N], lapse: Lapse, out: Option<Gauge<N, M>>, rebased: Node<S>|
            #[trigger] self.is_arrival_with(arithmetic, before, m, stm, lapse, out, rebased)
    }

    /// Whether this process is `before` after the measurement `m` has been
    /// processed through the processes `legs`: the first is `before`, each
    /// next one is the one before it one accepted step later, the last has
    /// reached the epoch of `m`, and there `m` has been recorded.
    pub open spec fn is_processed<
        T: Fn(Node<S>, Duration) -> Trial<S>,
        P: Fn(Node<S>) -> [[u64; N]; N],
        Q: Fn(KF<N, M>, [[u64; N]; N], Lapse) -> Prediction<N>,
        G: Fn(KF<N, M>, [[u64; N]; N], Lapse, Node<S>, Measurement<M>, u64) -> Option<Gauge<N, M>>,
        R: Fn(Node<S>, Option<[u64; N]>) -> Node<S>,
    >(
        self,
        arithmetic: Arithmetic<T, P, Q, G, R>,
        before: Self,
        m: Measurement<M>,
        legs: Seq<Self>,
    ) -> bool {
        &&& legs.len() > 0
        &&& legs[0] == before
        &&& forall|j: int|
            0 <= j < legs.len() - 1 ==> #[trigger] legs[j + 1].is_leg_to(arithmetic, legs[j], m.dt)
        &&& legs[legs.len() - 1].prop.node.epoch.nanos() == m.dt.nanos()
        &&& self.is_arrival(arithmetic, legs[legs.len() - 1], m)
    }

    /// Whether this process is `before` after the measurement `m` has been
    /// processed.
    pub open spec fn is_measured<
        T: Fn(Node<S>, Duration) -> Trial<S>,
        P: Fn(Node<S>) -> [[u64; N]; N],
        Q: Fn(KF<N, M>, [[u64; N]; N], Lapse) -> Prediction<N>,
        G: Fn(KF<N, M>, [[u64; N]; N], Lapse, Node<S>, Measurement<M>, u64) -> Option<Gauge<N, M>>,
        R: Fn(Node<S>, Option<[u64; N]>) -> Node<S>,
    >(self, arithmetic: Arithmetic<T, P, Q, G, R>, before: Self, m: Measurement<M>) -> bool {
        exists|legs: Seq<Self>| #[trigger] self.is_processed(arithmetic, before, m, legs)
    }

    /// Whether each process but the first is the one before it after the
    /// next of the measurements has been processed.
    pub open spec fn is_pass<
        T: Fn(Node<S>, Duration) -> Trial<S>,
        P: Fn(Node<S>) -> [[u64; N]; N],
        Q: Fn(KF<N, M>, [[u64; N]; N], Lapse) -> Prediction<N>,
        G: Fn(KF<N, M>, [[u64; N]; N], Lapse, Node<S>, Measurement<M>, u64) -> Option<Gauge<N, M>>,
        R: Fn(Node<S>, Option<[u64; N]>) -> Node<S>,
    >(arithmetic: Arithmetic<T, P, Q, G, R>, states: Seq<Self>, ms: Seq<Measurement<M>>) -> bool {
        &&& states.len() == ms.len() + 1
        &&& forall|k: int|
            0 <= k < ms.len() ==> #[trigger] states[k + 1].is_measured(arithmetic, states[k], ms[k])
    }

    /// Whether this process is `before` after the pass over `ms`.
    pub open spec fn is_passed<
        T: Fn(Node<S>, Duration) -> Trial<S>,
        P: Fn(Node<S>) -> [[u64; N]; N],
        Q: Fn(KF<N, M>, [[u64; N]; N], Lapse) -> Prediction<N>,
        G: Fn(KF<N, M>, [[u64; N]; N], Lapse, Node<S>, Measurement<M>, u64) -> Option<Gauge<N, M>>,
        R: Fn(Node<S>, Option<[u64; N]>) -> Node<S>,
    >(self, arithmetic: Arithmetic<T, P, Q, G, R>, before: Self, ms: Seq<Measurement<M>>) -> bool {
        exists|states: Seq<Self>|
            {
                &&& #[trigger] Self::is_pass(arithmetic, states, ms)
                &&& states[0] == before
                &&& states[states.len() - 1] == self
            }
    }

    /// Whether this process is `before` started again from `node` and
    /// `estimate`: the node, at the epoch of the first start, is the start
    /// of the next pass and the propagator is bound to it anew; the filter
    /// is initialised with the estimate, at the epoch and with the mark of
    /// the first estimate, and with the noise and window it started with;
    /// the trigger is the one it started with; and the records hold that
    /// estimate and nothing else.
    pub open spec fn is_reset(self, before: Self, node: Node<S>, estimate: Estimate<N>) -> bool {
        let opts = before.prop.opts;
        &&& self.prop == (Propagator {
            opts,
            node: Node { epoch: before.init_node.epoch, ..node },
            step: opts.init_step(),
            details: Details { step: opts.init_step(), error: 0, attempts: 0, excess_error: false },
        })
        &&& self.kf.prev_estimate == (Estimate {
            dt: before.init_kf.prev_estimate.dt,
            predicted: before.init_kf.prev_estimate.predicted,
            ..estimate
        })
        &&& self.kf.same_setup(KF { ekf: false, ..before.init_kf })
        &&& !self.kf.stm_updated
        &&& !self.kf.h_tilde_updated
        &&& is_identity(self.kf.stm)
        &&& is_zero_matrix(self.kf.h_tilde)
        &&& self.trigger == before.init_trigger
        &&& self.estimates@ == seq![self.kf.prev_estimate]
        &&& self.residuals@ == Seq::<Residual<M>>::empty()
        &&& self.init_node == self.prop.node
        &&& self.same_origin(before)
    }

    /// Whether this process is `before` after the pass over `ms` has been
    /// made again from the smoothed first estimate `first`: `before` was
    /// started again from what `restart` made of the start of its pass, its
    /// first estimate and `first`, and then the measurements were
    /// processed.
    pub open spec fn is_pass_again<
        T: Fn(Node<S>, Duration) -> Trial<S>,
        P: Fn(Node<S>) -> [[u64; N]; N],
        Q: Fn(KF<N, M>, [[u64; N]; N], Lapse) -> Prediction<N>,
        G: Fn(KF<N, M>, [[u64; N]; N], Lapse, Node<S>, Measurement<M>, u64) -> Option<Gauge<N, M>>,
        R: Fn(Node<S>, Option<[u64; N]>) -> Node<S>,
        X: Fn(Node<S>, Estimate<N>, Estimate<N>) -> (Node<S>, Estimate<N>),
    >(
        self,
        restart: X,
        arithmetic: Arithmetic<T, P, Q, G, R>,
        before: Self,
        first: Estimate<N>,
        ms: Seq<Measurement<M>>,
    ) -> bool {
        exists|node: Node<S>, estimate: Estimate<N>, start: Self|
            {
                &&& #[trigger] start.is_reset(before, node, estimate)
                &&& restart.ensures(
                    (before.init_node, before.init_kf.prev_estimate, first),
                    (node, estimate),
                )
                &&& self.is_passed(arithmetic, start, ms)
            }
    }

    /// Whether the processes are the rounds of an iteration over `ms` and
    /// `firsts` their smoothed first estimates: each process but the first
    /// is the one before it after the pass made again from its smoothed
    /// first estimate, and from the second round on `converged` found each
    /// smoothed first estimate not to have settled against the one before.
    pub open spec fn is_iteration<
        T: Fn(Node<S>, Duration) -> Trial<S>,
        P: Fn(Node<S>) -> [[u64; N]; N],
        Q: Fn(KF<N, M>, [[u64; N]; N], Lapse) -> Prediction<N>,
        G: Fn(KF<N, M>, [[u64; N]; N], Lapse, Node<S>, Measurement<M>, u64) -> Option<Gauge<N, M>>,
        R: Fn(Node<S>, Option<[u64; N]>) -> Node<S>,
        W: Fn(Estimate<N>, Estimate<N>, Estimate<N>) -> Smoothed<N>,
        X: Fn(Node<S>, Estimate<N>, Estimate<N>) -> (Node<S>, Estimate<N>),
        C: Fn(Estimate<N>, Estimate<N>, u64) -> (bool, u64),
    >(
        refit: Refit<W, X, C>,
        arithmetic: Arithmetic<T, P, Q, G, R>,
        conf: IterationConf,
        ms: Seq<Measurement<M>>,
        rounds: Seq<Self>,
        firsts: Seq<Estimate<N>>,
    ) -> bool {
        &&& rounds.len() == firsts.len() + 1
        &&& forall|k: int|
            0 <= k < firsts.len() ==> is_first_smoothed(
                refit.smoother,
                conf.mode,
                rounds[k].estimates@,
                #[trigger] firsts[k],
            ) && rounds[k + 1].is_pass_again(refit.restart, arithmetic, rounds[k], firsts[k], ms)
        &&& forall|k: int|
            1 <= k < firsts.len() ==> #[trigger] is_unsettled(
                refit.converged,
                conf.tol,
                firsts[k - 1],
                firsts[k],
            )
    }

    /// Whether the iteration over `ms` from `before` ends here after
    /// `passes` passes made again, with the verdict `done` and the change
    /// `delta`.
    ///
    /// Without a pass the process is as before; it ends settled only where
    /// there is no estimate, and else unsettled with no change. After a
    /// pass the smoothed first estimate of this process was held against
    /// that of the round before, and `converged` gave the verdict and the
    /// change.
    pub open spec fn is_iterated<
        T: Fn(Node<S>, Duration) -> Trial<S>,
        P: Fn(Node<S>) -> [[u64; N]; N],
        Q: Fn(KF<N, M>, [[u64; N]; N], Lapse) -> Prediction<N>,
        G: Fn(KF<N, M>, [[u64; N]; N], Lapse, Node<S>, Measurement<M>, u64) -> Option<Gauge<N, M>>,
        R: Fn(Node<S>, Option<[u64; N]>) -> Node<S>,
        W: Fn(Estimate<N>, Estimate<N>, Estimate<N>) -> Smoothed<N>,
        X: Fn(Node<S>, Estimate<N>, Estimate<N>) -> (Node<S>, Estimate<N>),
        C: Fn(Estimate<N>, Estimate<N>, u64) -> (bool, u64),
    >(
        self,
        refit: Refit<W, X, C>,
        arithmetic: Arithmetic<T, P, Q, G, R>,
        conf: IterationConf,
        ms: Seq<Measurement<M>>,
        before: Self,
        passes: int,
        done: bool,
        delta: u64,
    ) -> bool {
        exists|rounds: Seq<Self>, firsts: Seq<Estimate<N>>, latest: Estimate<N>|
            {
                &&& #[trigger] Self::is_ending(
                    refit,
                    conf,
                    rounds,
                    firsts,
                    latest,
                    done,
                    delta,
                )
                &&& Self::is_iteration(refit, arithmetic, conf, ms, rounds, firsts)
                &&& firsts.len() == passes
                &&& rounds[0] == before
                &&& rounds[rounds.len() - 1] == self
            }
    }

    /// Whether the iteration over `ms` from `before` ends here settled,
    /// after `passes` passes made again.
    pub open spec fn is_converged<
        T: Fn(Node<S>, Duration) -> Trial<S>,
        P: Fn(Node<S>) -> [[u64; N]; N],
        Q: Fn(KF<N, M>, [[u64; N]; N], Lapse) -> Prediction<N>,
        G: Fn(KF<N, M>, [[u64; N]; N], Lapse, Node<S>, Measurement<M>, u64) -> Option<Gauge<N, M>>,
        R: Fn(Node<S>, Option<[u64; N]>) -> Node<S>,
        W: Fn(Estimate<N>, Estimate<N>, Estimate<N>) -> Smoothed<N>,
        X: Fn(Node<S>, Estimate<N>, Estimate<N>) -> (Node<S>, Estimate<N>),
        C: Fn(Estimate<N>, Estimate<N>, u64) -> (bool, u64),
    >(
        self,
        refit: Refit<W, X, C>,
        arithmetic: Arithmetic<T, P, Q, G, R>,
        conf: IterationConf,
        ms: Seq<Measurement<M>>,
        before: Self,
        passes: int,
    ) -> bool {
        exists|delta: u64| #[trigger]
            self.is_iterated(refit, arithmetic, conf, ms, before, passes, true, delta)
    }

    /// Whether the rounds end with the verdict `done` and the change
    /// `delta`, `latest` being the smoothed first estimate of the last
    /// round where there was a pass.
    pub open spec fn is_ending<
        W: Fn(Estimate<N>, Estimate<N>, Estimate<N>) -> Smoothed<N>,
        X: Fn(Node<S>, Estimate<N>, Estimate<N>) -> (Node<S>, Estimate<N>),
        C: Fn(Estimate<N>, Estimate<N>, u64) -> (bool, u64),
    >(
        refit: Refit<W, X, C>,
        conf: IterationConf,
        rounds: Seq<Self>,
        firsts: Seq<Estimate<N>>,
        latest: Estimate<N>,
        done: bool,
        delta: u64,
    ) -> bool {
        let last = rounds[rounds.len() - 1];
        if firsts.len() == 0 {
            &&& done == (last.estimates@.len() == 0)
            &&& delta == 0
        } else {
            &&& is_first_smoothed(refit.smoother, conf.mode, last.estimates@, latest)
            &&& refit.converged.ensures(
                (firsts[firsts.len() - 1], latest, conf.tol),
                (done, delta),
            )
        }
    }

    /// Whether the filter is extended while the measurement at `dt` is
    /// taken in: a filter that is extended goes back to classical mode
    /// where the trigger sees a gap before `dt`.
    pub open spec fn extended_at(self, dt: Epoch) -> bool {
        self.kf.ekf && !(self.trigger matches Some(t) && t.gap_before(dt))
    }

    /// Sets the mode of the filter for the measurement at `dt` and says
    /// which it is.
    pub fn settle_mode(&mut self, dt: Epoch) -> (extended: bool)
        ensures
            extended == old(self).extended_at(dt),
            final(self).kf == (KF { ekf: extended, ..old(self).kf }),
            final(self).prop == old(self).prop,
            final(self).trigger == old(self).trigger,
            final(self).estimates@ == old(self).estimates@,
            final(self).residuals@ == old(self).residuals@,
            final(self).same_start(*old(self)),
    {
        if self.kf.ekf {
            if let Some(t) = &self.trigger {
                if let Some(prev) = t.prev_msr {
                    if t.disable_time.is_less_than(&dt.since(&prev)) {
                        self.kf.ekf = false;
                    }
                }
            }
        }
        self.kf.ekf
    }

    /// Records the step to `dt` as a time update: the filter takes `stm` and
    /// the prediction made with it, and the predicted estimate is added to
    /// the estimates.
    pub fn record_prediction(&mut self, dt: Epoch, stm: [[u64; N]; N], prediction: Prediction<N>)
        ensures
            final(self).estimates@ == old(self).estimates@.push(
                Estimate {
                    dt,
                    state: prediction.state,
                    covar: prediction.covar,
                    stm,
                    predicted: true,
                },
            ),
            final(self).kf.follows(
                old(self).kf,
                final(self).estimates@[old(self).estimates@.len() as int],
            ),
            final(self).kf.h_tilde_updated == old(self).kf.h_tilde_updated,
            final(self).residuals@ == old(self).residuals@,
            final(self).prop == old(self).prop,
            final(self).trigger == old(self).trigger,
            final(self).same_start(*old(self)),
    {
        self.kf.update_stm(stm);
        if let Ok(estimate) = self.kf.time_update(dt, prediction) {
            self.estimates.push(estimate);
        }
    }

    /// Whether every function of `arithmetic` takes every argument.
    pub open spec fn serves<
        T: Fn(Node<S>, Duration) -> Trial<S>,
        P: Fn(Node<S>) -> [[u64; N]; N],
        Q: Fn(KF<N, M>, [[u64; N]; N], Lapse) -> Prediction<N>,
        G: Fn(KF<N, M>, [[u64; N]; N], Lapse, Node<S>, Measurement<M>, u64) -> Option<Gauge<N, M>>,
        R: Fn(Node<S>, Option<[u64; N]>) -> Node<S>,
    >(arithmetic: Arithmetic<T, P, Q, G, R>) -> bool {
        &&& forall|n: Node<S>, d: Duration| arithmetic.trial.requires((n, d))
        &&& forall|n: Node<S>| arithmetic.stm_of.requires((n,))
        &&& forall|kf: KF<N, M>, stm: [[u64; N]; N], lapse: Lapse|
            arithmetic.predict.requires((kf, stm, lapse))
        &&& forall|
            kf: KF<N, M>,
            stm: [[u64; N]; N],
            lapse: Lapse,
            n: Node<S>,
            m: Measurement<M>,
            bound: u64,
        | arithmetic.gauge.requires((kf, stm, lapse, n, m, bound))
        &&& forall|n: Node<S>, dev: Option<[u64; N]>| arithmetic.rebase.requires((n, dev))
    }

    /// Takes the process to the measurement `m` and records it.
    ///
    /// A measurement earlier than the epoch reached is an error, and the
    /// process is as before. Otherwise the propagator steps to the epoch of
    /// the measurement, the last step being cut to end there. Each step
    /// that ends before the measurement is recorded as a time update, after
    /// which the reference is rebased. At the measurement the mode of the
    /// filter is settled, the measurement is gauged if the station saw the
    /// spacecraft, and the outcome is recorded; after an update the
    /// reference is rebased, with the state deviation for an extended
    /// filter.
    pub fn process_measurement<
        T: Fn(Node<S>, Duration) -> Trial<S>,
        P: Fn(Node<S>) -> [[u64; N]; N],
        Q: Fn(KF<N, M>, [[u64; N]; N], Lapse) -> Prediction<N>,
        G: Fn(KF<N, M>, [[u64; N]; N], Lapse, Node<S>, Measurement<M>, u64) -> Option<Gauge<N, M>>,
        R: Fn(Node<S>, Option<[u64; N]>) -> Node<S>,
    >(&mut self, m: Measurement<M>, arithmetic: &Arithmetic<T, P, Q, G, R>) -> (r: Result<
        (),
        PropagationError,
    >)
        requires
            Self::serves(*arithmetic),
        ensures
            m.dt.nanos() < old(self).prop.node.epoch.nanos() ==> r == Err::<(), PropagationError>(
                PropagationError::Backward,
            ) && *final(self) == *old(self),
            m.dt.nanos() >= old(self).prop.node.epoch.nanos() ==> {
                &&& r is Ok
                &&& final(self).is_measured(*arithmetic, *old(self), m)
                &&& final(self).prop.node.epoch == m.dt
                &&& final(self).prop.opts == old(self).prop.opts
                &&& final(self).residuals@.len() == old(self).residuals@.len() + 1
                &&& extends(old(self).residuals@, final(self).residuals@)
                &&& final(self).residuals@[old(self).residuals@.len() as int].dt == m.dt
                &&& extends(old(self).estimates@, final(self).estimates@)
                &&& old(self).is_well_formed() ==> final(self).is_well_formed()
                &&& final(self).same_start(*old(self))
            },
    {
        if m.dt.is_before(&self.prop.node.epoch) {
            return Err(PropagationError::Backward);
        }
        let ghost mut legs: Seq<Self> = seq![*self];
        while self.prop.node.epoch.is_before(&m.dt)
            invariant
                Self::serves(*arithmetic),
                old(self).prop.node.epoch.nanos() <= self.prop.node.epoch.nanos() <= m.dt.nanos(),
                self.prop.opts == old(self).prop.opts,
                self.residuals@ == old(self).residuals@,
                self.same_start(*old(self)),
                extends(old(self).estimates@, self.estimates@),
                old(self).is_well_formed() ==> self.is_well_formed(),
                legs.len() > 0,
                legs[0] == *old(self),
                legs[legs.len() - 1] == *self,
                forall|j: int|
                    0 <= j < legs.len() - 1 ==> #[trigger] legs[j + 1].is_leg_to(
                        *arithmetic,
                        legs[j],
                        m.dt,
                    ),
            decreases m.dt.nanos() - self.prop.node.epoch.nanos(),
        {
            let ghost before = *self;
            let remaining = m.dt.since(&self.prop.node.epoch);
            proof {
                use_type_invariant(&m.dt);
                lemma_epoch_in_range(m.dt);
            }
            self.prop.step_once(remaining, &arithmetic.trial);
            let ghost stepped = self.prop;
            let node = self.prop.node;
            if node.epoch.is_before(&m.dt) {
                let stm = (arithmetic.stm_of)(node);
                let lapse = self.kf.lapse_to(node.epoch);
                let prediction = (arithmetic.predict)(self.kf, stm, lapse);
                let ghost estimates = self.estimates@;
                self.record_prediction(node.epoch, stm, prediction);
                let rebased = (arithmetic.rebase)(node, None);
                self.prop.node = Node { epoch: node.epoch, state: rebased.state, rate: rebased.rate };
                proof {
                    if old(self).is_well_formed() {
                        lemma_push_keeps_order(estimates, self.estimates@[estimates.len() as int]);
                    }
                    lemma_extends_twice(old(self).estimates@, estimates, self.estimates@);
                    assert(self.is_predicted_with(
                        *arithmetic,
                        before,
                        stepped,
                        stm,
                        lapse,
                        prediction,
                        rebased,
                    ));
                }
            }
            proof {
                assert(is_leg(arithmetic.trial, before.prop, m.dt.nanos(), stepped));
                assert(self.is_after_step(*arithmetic, before, stepped, m.dt));
                assert(self.is_leg_to(*arithmetic, before, m.dt));
                let longer = legs.push(*self);
                assert forall|j: int| 0 <= j < longer.len() - 1 implies #[trigger] longer[j
                    + 1].is_leg_to(*arithmetic, longer[j], m.dt) by {
                    if j < legs.len() - 1 {
                        assert(longer[j] == legs[j]);
                        assert(longer[j + 1] == legs[j + 1]);
                        assert(legs[j + 1].is_leg_to(*arithmetic, legs[j], m.dt));
                    }
                }
                legs = longer;
            }
        }
        let ghost reached = *self;
        let node = self.prop.node;
        proof {
            use_type_invariant(&m.dt);
            use_type_invariant(&node.epoch);
            crate::time::lemma_epoch_unique(node.epoch, m.dt);
        }
        let extended = self.settle_mode(m.dt);
        let stm = (arithmetic.stm_of)(node);
        let bound = match &self.trigger {
            Some(t) => t.within_sigma,
            None => 0,
        };
        let lapse = self.kf.lapse_to(m.dt);
        let gauge = if m.visible {
            (arithmetic.gauge)(self.kf, stm, lapse, node, m, bound)
        } else {
            None
        };
        let ghost estimates = self.estimates@;
        let taken = self.record_measurement(m.dt, stm, gauge);
        let mut rebased = node;
        if taken {
            let deviation = if self.kf.ekf {
                Some(self.kf.prev_estimate.state)
            } else {
                None
            };
            rebased = (arithmetic.rebase)(node, deviation);
            self.prop.node = Node { epoch: node.epoch, state: rebased.state, rate: rebased.rate };
            proof {
                if old(self).is_well_formed() {
                    lemma_push_keeps_order(estimates, self.estimates@[estimates.len() as int]);
                }
            }
        }
        proof {
            lemma_extends_twice(old(self).estimates@, estimates, self.estimates@);
            assert(self.is_arrival_with(*arithmetic, reached, m, stm, lapse, gauge, rebased));
            assert(self.is_arrival(*arithmetic, reached, m));
            assert(self.is_processed(*arithmetic, *old(self), m, legs));
        }
        Ok(())
    }

    /// Takes in the measurements one after the other.
    ///
    /// Measurements in the order of time are all processed: each leaves one
    /// residual, at its epoch, and the propagator ends at the epoch of the
    /// last one. The first measurement that is earlier than the epoch
    /// reached ends the pass with an error; those before it have been
    /// processed, and it and those after it have not.
    pub fn process_measurements<
        T: Fn(Node<S>, Duration) -> Trial<S>,
        P: Fn(Node<S>) -> [[u64; N]; N],
        Q: Fn(KF<N, M>, [[u64; N]; N], Lapse) -> Prediction<N>,
        G: Fn(KF<N, M>, [[u64; N]; N], Lapse, Node<S>, Measurement<M>, u64) -> Option<Gauge<N, M>>,
        R: Fn(Node<S>, Option<[u64; N]>) -> Node<S>,
    >(&mut self, ms: &Vec<Measurement<M>>, arithmetic: &Arithmetic<T, P, Q, G, R>) -> (r: Result<
        (),
        PropagationError,
    >)
        requires
            Self::serves(*arithmetic),
        ensures
            r is Ok == in_time_order(old(self).prop.node.epoch, ms@),
            r matches Err(e) ==> e == PropagationError::Backward,
            exists|k: int|
                {
                    &&& 0 <= k <= ms@.len()
                    &&& #[trigger] final(self).is_passed(
                        *arithmetic,
                        *old(self),
                        ms@.subrange(0, k),
                    )
                    &&& in_time_order(old(self).prop.node.epoch, ms@.subrange(0, k))
                    &&& residuals_match(
                        final(self).residuals@,
                        old(self).residuals@.len() as int,
                        ms@.subrange(0, k),
                    )
                    &&& if r is Ok {
                        k == ms@.len()
                    } else {
                        k < ms@.len() && ms@[k].dt.nanos() < final(self).prop.node.epoch.nanos()
                    }
                },
            r is Ok ==> final(self).prop.node.epoch == (if ms@.len() == 0 {
                old(self).prop.node.epoch
            } else {
                ms@[ms@.len() - 1].dt
            }),
            extends(old(self).residuals@, final(self).residuals@),
            extends(old(self).estimates@, final(self).estimates@),
            final(self).prop.opts == old(self).prop.opts,
            final(self).same_start(*old(self)),
            old(self).is_well_formed() ==> final(self).is_well_formed(),
    {
        let mut k: usize = 0;
        let ghost mut states: Seq<Self> = seq![*self];
        while k < ms.len()
            invariant
                Self::serves(*arithmetic),
                k <= ms@.len(),
                in_time_order(old(self).prop.node.epoch, ms@.subrange(0, k as int)),
                self.prop.node.epoch == (if k == 0 {
                    old(self).prop.node.epoch
                } else {
                    ms@[k - 1].dt
                }),
                residuals_match(
                    self.residuals@,
                    old(self).residuals@.len() as int,
                    ms@.subrange(0, k as int),
                ),
                Self::is_pass(*arithmetic, states, ms@.subrange(0, k as int)),
                states[0] == *old(self),
                states[states.len() - 1] == *self,
                extends(old(self).residuals@, self.residuals@),
                extends(old(self).estimates@, self.estimates@),
                self.prop.opts == old(self).prop.opts,
                self.same_start(*old(self)),
                old(self).is_well_formed() ==> self.is_well_formed(),
            decreases ms@.len() - k,
        {
            let ghost residuals = self.residuals@;
            let ghost estimates = self.estimates@;
            let ghost before = *self;
            match self.process_measurement(ms[k], arithmetic) {
                Err(e) => {
                    proof {
                        assert(!in_time_order(old(self).prop.node.epoch, ms@)) by {
                            assert(ms@[k as int].dt.nanos() < self.prop.node.epoch.nanos());
                        }
                        assert(self.is_passed(*arithmetic, *old(self), ms@.subrange(0, k as int)));
                    }
                    return Err(e);
                },
                Ok(()) => {
                    proof {
                        let shorter = ms@.subrange(0, k as int);
                        let longer = ms@.subrange(0, k + 1);
                        let m = ms@[k as int];
                        assert(longer =~= shorter.push(m));
                        lemma_extends_twice(old(self).residuals@, residuals, self.residuals@);
                        lemma_extends_twice(old(self).estimates@, estimates, self.estimates@);
                        let from = old(self).residuals@.len() as int;
                        assert forall|j: int| 0 <= j < longer.len() implies self.residuals@[from
                            + j].dt == (#[trigger] longer[j]).dt by {
                            if j < k {
                                assert(longer[j] == shorter[j]);
                                assert(self.residuals@.subrange(0, residuals.len() as int)[from
                                    + j] == residuals[from + j]);
                            }
                        }
                        let more = states.push(*self);
                        assert forall|j: int| 0 <= j < longer.len() implies #[trigger] more[j
                            + 1].is_measured(*arithmetic, more[j], longer[j]) by {
                            if j < k {
                                assert(more[j] == states[j]);
                                assert(more[j + 1] == states[j + 1]);
                                assert(longer[j] == shorter[j]);
                                assert(states[j + 1].is_measured(
                                    *arithmetic,
                                    states[j],
                                    shorter[j],
                                ));
                            }
                        }
                        states = more;
                    }
                },
            }
            k += 1;
        }
        proof {
            assert(ms@.subrange(0, k as int) =~= ms@);
            assert(self.is_passed(*arithmetic, *old(self), ms@.subrange(0, k as int)));
        }
        Ok(())
    }

    /// Whether every function of `refit` takes every argument.
    pub open spec fn refits<
        W: Fn(Estimate<N>, Estimate<N>, Estimate<N>) -> Smoothed<N>,
        X: Fn(Node<S>, Estimate<N>, Estimate<N>) -> (Node<S>, Estimate<N>),
        C: Fn(Estimate<N>, Estimate<N>, u64) -> (bool, u64),
    >(refit: Refit<W, X, C>) -> bool {
        &&& forall|a: Estimate<N>, b: Estimate<N>, c: Estimate<N>|
            refit.smoother.requires((a, b, c))
        &&& forall|n: Node<S>, a: Estimate<N>, b: Estimate<N>| refit.restart.requires((n, a, b))
        &&& forall|a: Estimate<N>, b: Estimate<N>, tol: u64| refit.converged.requires((a, b, tol))
    }

    /// Starts the process again from the node and the estimate that
    /// `restart` gave: the node, at the initial epoch, is the start of the
    /// next pass and the propagator is bound to it, the filter is
    /// initialised with the estimate and the noise and window it started
    /// with, the trigger is the one it started with, and the records hold
    /// that estimate and nothing else.
    pub fn reset(&mut self, node: Node<S>, estimate: Estimate<N>)
        ensures
            final(self).is_reset(*old(self), node, estimate),
            final(self).starts_in_time() ==> final(self).is_well_formed(),
    {
        let first = self.init_kf.prev_estimate;
        self.init_node = Node { epoch: self.init_node.epoch, state: node.state, rate: node.rate };
        self.prop = Propagator::with(self.prop.opts, self.init_node);
        self.kf = KF::initialize(
            Estimate {
                dt: first.dt,
                state: estimate.state,
                covar: estimate.covar,
                stm: estimate.stm,
                predicted: first.predicted,
            },
            self.init_kf.process_noise,
            self.init_kf.measurement_noise,
            self.init_kf.process_noise_dt,
        );
        self.trigger = self.init_trigger;
        let mut estimates: Vec<Estimate<N>> = Vec::new();
        estimates.push(self.kf.prev_estimate);
        self.estimates = estimates;
        self.residuals = Vec::new();
    }

    /// Makes the pass over `ms` again, from what `restart` makes of the
    /// smoothed first estimate `first`. A measurement out of the order of
    /// time ends the pass with the error of the propagator.
    pub fn pass_again<
        T: Fn(Node<S>, Duration) -> Trial<S>,
        P: Fn(Node<S>) -> [[u64; N]; N],
        Q: Fn(KF<N, M>, [[u64; N]; N], Lapse) -> Prediction<N>,
        G: Fn(KF<N, M>, [[u64; N]; N], Lapse, Node<S>, Measurement<M>, u64) -> Option<Gauge<N, M>>,
        R: Fn(Node<S>, Option<[u64; N]>) -> Node<S>,
        X: Fn(Node<S>, Estimate<N>, Estimate<N>) -> (Node<S>, Estimate<N>),
    >(
        &mut self,
        first: Estimate<N>,
        ms: &Vec<Measurement<M>>,
        arithmetic: &Arithmetic<T, P, Q, G, R>,
        restart: &X,
    ) -> (r: Result<(), PropagationError>)
        requires
            Self::serves(*arithmetic),
            forall|n: Node<S>, a: Estimate<N>, b: Estimate<N>| restart.requires((n, a, b)),
        ensures
            final(self).same_origin(*old(self)),
            final(self).prop.opts == old(self).prop.opts,
            r is Ok == in_time_order(old(self).init_node.epoch, ms@),
            r is Ok ==> final(self).is_pass_again(*restart, *arithmetic, *old(self), first, ms@),
            r is Ok ==> final(self).estimates@.len() > 0,
            r matches Err(e) ==> e == PropagationError::Backward,
    {
        let (node, estimate) = restart(self.init_node, self.init_kf.prev_estimate, first);
        self.reset(node, estimate);
        let ghost start = *self;
        let r = self.process_measurements(ms, arithmetic);
        proof {
            if r is Ok {
                let k = choose|k: int|
                    {
                        &&& 0 <= k <= ms@.len()
                        &&& #[trigger] self.is_passed(*arithmetic, start, ms@.subrange(0, k))
                        &&& in_time_order(start.prop.node.epoch, ms@.subrange(0, k))
                        &&& residuals_match(
                            self.residuals@,
                            start.residuals@.len() as int,
                            ms@.subrange(0, k),
                        )
                        &&& if r is Ok {
                            k == ms@.len()
                        } else {
                            k < ms@.len() && ms@[k].dt.nanos() < self.prop.node.epoch.nanos()
                        }
                    };
                assert(ms@.subrange(0, k) =~= ms@);
                assert(start.is_reset(*old(self), node, estimate));
                assert(self.is_passed(*arithmetic, start, ms@));
            }
        }
        r
    }

    /// Iterates the pass over `ms` until the smoothed first estimate has
    /// settled.
    ///
    /// Each round smooths the estimates of the latest pass backward. Where
    /// there is none, the iteration ends at once. From the second round on
    /// `converged` compares the smoothed first estimate with that of the
    /// round before, and the iteration ends with the number of passes made
    /// again once it has settled. A round that follows `max_iter` such
    /// passes ends the iteration as diverged. Otherwise the process starts
    /// again from what `restart` makes of the start of the latest pass and
    /// the smoothed first estimate, and the measurements are processed
    /// anew; a measurement out of the order of time ends the iteration with
    /// the error of the propagator.
    pub fn iterate<
        T: Fn(Node<S>, Duration) -> Trial<S>,
        P: Fn(Node<S>) -> [[u64; N]; N],
        Q: Fn(KF<N, M>, [[u64; N]; N], Lapse) -> Prediction<N>,
        G: Fn(KF<N, M>, [[u64; N]; N], Lapse, Node<S>, Measurement<M>, u64) -> Option<Gauge<N, M>>,
        R: Fn(Node<S>, Option<[u64; N]>) -> Node<S>,
        W: Fn(Estimate<N>, Estimate<N>, Estimate<N>) -> Smoothed<N>,
        X: Fn(Node<S>, Estimate<N>, Estimate<N>) -> (Node<S>, Estimate<N>),
        C: Fn(Estimate<N>, Estimate<N>, u64) -> (bool, u64),
    >(
        &mut self,
        ms: &Vec<Measurement<M>>,
        conf: IterationConf,
        arithmetic: &Arithmetic<T, P, Q, G, R>,
        refit: &Refit<W, X, C>,
    ) -> (r: Result<usize, ODError>)
        requires
            Self::serves(*arithmetic),
            Self::refits(*refit),
        ensures
            final(self).same_origin(*old(self)),
            final(self).prop.opts == old(self).prop.opts,
            r matches Ok(passes) ==> passes <= conf.max_iter && final(self).is_converged(
                *refit,
                *arithmetic,
                conf,
                ms@,
                *old(self),
                passes as int,
            ),
            r matches Err(ODError::IterationDiverged { iter, delta }) ==> iter == conf.max_iter
                && final(self).is_iterated(
                *refit,
                *arithmetic,
                conf,
                ms@,
                *old(self),
                iter as int,
                false,
                delta,
            ),
            r matches Err(ODError::Propagation(e)) ==> e == PropagationError::Backward
                && !in_time_order(old(self).init_node.epoch, ms@),
    {
        let mut previous: Option<Estimate<N>> = None;
        let mut delta: u64 = 0;
        let mut passes: usize = 0;
        let ghost mut rounds: Seq<Self> = seq![*self];
        let ghost mut firsts: Seq<Estimate<N>> = Seq::empty();
        loop
            invariant
                Self::serves(*arithmetic),
                Self::refits(*refit),
                self.same_origin(*old(self)),
                self.prop.opts == old(self).prop.opts,
                passes <= conf.max_iter,
                firsts.len() == passes,
                Self::is_iteration(*refit, *arithmetic, conf, ms@, rounds, firsts),
                rounds[0] == *old(self),
                rounds[rounds.len() - 1] == *self,
                passes == 0 ==> previous is None && delta == 0,
                passes > 0 ==> previous == Some(firsts[firsts.len() - 1]) && self.estimates@.len()
                    > 0,
            decreases conf.max_iter - passes,
        {
            let smoothed = smooth(&self.estimates, conf.mode, &refit.smoother);
            if smoothed.len() == 0 {
                proof {
                    assert(self.estimates@.len() == 0);
                    assert(passes == 0);
                    let latest = self.init_kf.prev_estimate;
                    assert(Self::is_ending(*refit, conf, rounds, firsts, latest, true, 0));
                    assert(self.is_iterated(
                        *refit,
                        *arithmetic,
                        conf,
                        ms@,
                        *old(self),
                        passes as int,
                        true,
                        0,
                    ));
                    assert(self.is_converged(
                        *refit,
                        *arithmetic,
                        conf,
                        ms@,
                        *old(self),
                        passes as int,
                    ));
                }
                return Ok(passes);
            }
            let first = smoothed[0];
            assert(is_first_smoothed(refit.smoother, conf.mode, self.estimates@, first));
            if let Some(earlier) = previous {
                let (done, change) = (refit.converged)(earlier, first, conf.tol);
                delta = change;
                if done {
                    proof {
                        assert(Self::is_ending(*refit, conf, rounds, firsts, first, true, change));
                        assert(self.is_iterated(
                            *refit,
                            *arithmetic,
                            conf,
                            ms@,
                            *old(self),
                            passes as int,
                            true,
                            change,
                        ));
                        assert(self.is_converged(
                            *refit,
                            *arithmetic,
                            conf,
                            ms@,
                            *old(self),
                            passes as int,
                        ));
                    }
                    return Ok(passes);
                }
            }
            if passes >= conf.max_iter {
                proof {
                    assert(Self::is_ending(*refit, conf, rounds, firsts, first, false, delta));
                }
                return Err(ODError::IterationDiverged { iter: passes, delta });
            }
            let ghost before = *self;
            if let Err(e) = self.pass_again(first, ms, arithmetic, &refit.restart) {
                return Err(ODError::Propagation(e));
            }
            proof {
                let more_rounds = rounds.push(*self);
                let more_firsts = firsts.push(first);
                assert forall|k: int| 0 <= k < more_firsts.len() implies is_first_smoothed(
                    refit.smoother,
                    conf.mode,
                    more_rounds[k].estimates@,
                    #[trigger] more_firsts[k],
                ) && more_rounds[k + 1].is_pass_again(
                    refit.restart,
                    *arithmetic,
                    more_rounds[k],
                    more_firsts[k],
                    ms@,
                ) by {
                    if k < firsts.len() {
                        assert(more_firsts[k] == firsts[k]);
                        assert(more_rounds[k] == rounds[k]);
                        assert(more_rounds[k + 1] == rounds[k + 1]);
                    }
                }
                assert forall|k: int| 1 <= k < more_firsts.len() implies #[trigger] is_unsettled(
                    refit.converged,
                    conf.tol,
                    more_firsts[k - 1],
                    more_firsts[k],
                ) by {
                    if k < firsts.len() {
                        assert(more_firsts[k] == firsts[k]);
                        assert(more_firsts[k - 1] == firsts[k - 1]);
                        assert(is_unsettled(refit.converged, conf.tol, firsts[k - 1], firsts[k]));
                    } else {
                        assert(more_firsts[k - 1] == firsts[firsts.len() - 1]);
                        assert(refit.converged.ensures(
                            (more_firsts[k - 1], more_firsts[k], conf.tol),
                            (false, delta),
                        ));
                    }
                }
                rounds = more_rounds;
                firsts = more_firsts;
            }
            previous = Some(first);
            passes += 1;
        }
    }

    /// The trigger once the measurement at `dt` is in, `passed` saying
    /// whether the filter took it with a residual ratio within the bound.
    pub open spec fn trigger_after(self, dt: Epoch, passed: bool) -> Option<EkfTrigger> {
        match self.trigger {
            Some(t) => Some(t.after(dt, passed)),
            None => None,
        }
    }

    /// The mode of the filter once the measurement at `dt` has been taken:
    /// what the trigger says, or the mode as it was without a trigger.
    pub open spec fn mode_after(self, dt: Epoch, passed: bool) -> bool {
        match self.trigger {
            Some(t) => t.after(dt, passed).armed,
            None => self.kf.ekf,
        }
    }

    /// Records the measurement at `dt`, reached with the state transition
    /// matrix `stm`, and says whether the filter took it.
    ///
    /// With a gauge whose innovation covariance could be inverted the
    /// filter is updated, the updated estimate and its residual are added
    /// to the records, the trigger takes in the residual test, and the
    /// filter runs in the mode that the trigger then calls for. Otherwise
    /// the filter is as before, no estimate is added, the residual of the
    /// measurement is recorded as rejected, and the trigger counts the
    /// measurement as failed.
    pub fn record_measurement(&mut self, dt: Epoch, stm: [[u64; N]; N], gauge: Option<Gauge<N, M>>)
        -> (taken: bool)
        ensures
            taken == (gauge matches Some(g) && g.correction is Some),
            final(self).prop == old(self).prop,
            final(self).same_start(*old(self)),
            final(self).residuals@.len() == old(self).residuals@.len() + 1,
            final(self).residuals@.subrange(0, old(self).residuals@.len() as int)
                == old(self).residuals@,
            taken ==> {
                let g = gauge->Some_0;
                let c = g.correction->Some_0;
                let estimate = Estimate {
                    dt,
                    state: c.state,
                    covar: c.covar,
                    stm,
                    predicted: false,
                };
                &&& final(self).estimates@ == old(self).estimates@.push(estimate)
                &&& final(self).residuals@[old(self).residuals@.len() as int] == (Residual {
                    dt,
                    prefit: c.prefit,
                    postfit: c.postfit,
                    ratio: c.ratio,
                    rejected: false,
                })
                &&& final(self).trigger == old(self).trigger_after(dt, g.within_sigma)
                &&& final(self).kf.follows(
                    KF {
                        h_tilde: g.h_tilde,
                        ekf: old(self).mode_after(dt, g.within_sigma),
                        ..old(self).kf
                    },
                    estimate,
                )
                &&& !final(self).kf.h_tilde_updated
            },
            !taken ==> {
                &&& final(self).estimates@ == old(self).estimates@
                &&& rejected_at(dt, final(self).residuals@[old(self).residuals@.len() as int])
                &&& final(self).trigger == old(self).trigger_after(dt, false)
                &&& final(self).kf == old(self).kf
            },
    {
        let before = self.kf;
        let mut passed = false;
        let mut taken = false;
        if let Some(g) = gauge {
            self.kf.update_stm(stm);
            self.kf.update_h_tilde(g.h_tilde);
            match self.kf.measurement_update(dt, g.correction) {
                Ok((estimate, residual)) => {
                    self.estimates.push(estimate);
                    self.residuals.push(residual);
                    passed = g.within_sigma;
                    taken = true;
                },
                Err(_) => {
                    self.kf = before;
                },
            }
        }
        if !taken {
            self.residuals.push(
                Residual { dt, prefit: [0u64; M], postfit: [0u64; M], ratio: 0, rejected: true },
            );
        }
        if let Some(t) = &mut self.trigger {
            let extended = t.observe(dt, passed);
            if taken {
                self.kf.ekf = extended;
            }
        }
        taken
    }
}

} // verus!
