//! The propagator engine: time stepping with step-size control, clamping
//! of the final step, and capture of the accepted steps as a trajectory.
//!
//! One trial step of the integrator is numeric work, handed in as a
//! function from a node and a step size to a [`Trial`]. The engine decides
//! which trials are accepted and with which step size the next one is made.

use crate::io::ConfigError;
use crate::md::events::Bracket;
use crate::md::trajectory::{evaluation, ordered, Evaluation, Node, Trajectory, TrajectoryError};
use crate::time::{lemma_epoch_in_range, Duration, Epoch};
use vstd::prelude::*;

verus! {

/// The norm in which an adaptive integrator measures its error.
#[derive(Clone, Copy, Debug, PartialEq, Eq, Structural)]
pub enum ErrorNorm {
    /// Root sum square over position and velocity separately.
    RssPv,
    /// Weighted L2 norm of the whole state.
    L2,
    /// Position only.
    Pos,
}

/// The options of a propagator: step bounds, tolerance and error norm.
#[derive(Clone, Copy, Debug, PartialEq, Eq)]
pub struct PropOpts {
    min_step: Duration,
    max_step: Duration,
    init_step: Duration,
    tolerance: u64,
    fixed_step: bool,
    error_norm: ErrorNorm,
}

impl PropOpts {
    #[verifier::type_invariant]
    pub closed spec fn is_valid(self) -> bool {
        0 < self.min_step.nanos() <= self.init_step.nanos() <= self.max_step.nanos()
    }

    /// The shortest step that step control may choose.
    pub closed spec fn min_step_of(&self) -> Duration {
        self.min_step
    }

    /// The longest step that step control may choose.
    pub closed spec fn max_step_of(&self) -> Duration {
        self.max_step
    }

    /// The step that a propagation starts with.
    pub closed spec fn init_step_of(&self) -> Duration {
        self.init_step
    }

    /// The tolerance on the error of one step, as a binary64 bit pattern.
    pub closed spec fn tolerance_of(&self) -> u64 {
        self.tolerance
    }

    /// The norm that the error is measured in.
    pub closed spec fn error_norm_of(&self) -> ErrorNorm {
        self.error_norm
    }

    /// Whether every step has the same size and no error control applies.
    pub closed spec fn fixed_of(&self) -> bool {
        self.fixed_step
    }

    /// What [`PropOpts::is_valid`] says, in terms of the parts.
    pub proof fn lemma_bounds(self)
        requires
            self.is_valid(),
        ensures
            0 < self.min_step().nanos() <= self.init_step().nanos() <= self.max_step().nanos(),
    {
    }

    /// Options for steps of the fixed size `step`. A step that is not
    /// positive is rejected.
    pub fn with_fixed_step(step: Duration) -> (r: Result<PropOpts, ConfigError>)
        ensures
            r.is_ok() == (step.nanos() > 0),
            r matches Ok(o) ==> o.is_fixed() && o.min_step() == step && o.max_step() == step
                && o.init_step() == step && o.tolerance() == 0 && o.error_norm()
                == ErrorNorm::RssPv,
            r matches Err(e) ==> e matches ConfigError::InvalidConfig { msg } && msg@
                == "step must be positive"@,
    {
        if !step.is_positive() {
            let mut msg = String::new();
            msg.push_str("step must be positive");
            return Err(ConfigError::InvalidConfig { msg });
        }
        Ok(
            PropOpts {
                min_step: step,
                max_step: step,
                init_step: step,
                tolerance: 0,
                fixed_step: true,
                error_norm: ErrorNorm::RssPv,
            },
        )
    }

    /// Options for adaptive steps between `min_step` and `max_step`, starting
    /// with the longest. Bounds that are not positive or that are out of
    /// order are rejected.
    pub fn with_adaptive_step(
        min_step: Duration,
        max_step: Duration,
        tolerance: u64,
        error_norm: ErrorNorm,
    ) -> (r: Result<PropOpts, ConfigError>)
        ensures
            r.is_ok() == (0 < min_step.nanos() <= max_step.nanos()),
            r matches Ok(o) ==> !o.is_fixed() && o.min_step() == min_step && o.max_step()
                == max_step && o.init_step() == max_step && o.tolerance() == tolerance
                && o.error_norm() == error_norm,
            r matches Err(e) ==> e matches ConfigError::InvalidConfig { msg } && msg@ == (
            if min_step.nanos() <= 0 {
                "step_min must be positive"@
            } else {
                "step_max must not be less than step_min"@
            }),
    {
        if !min_step.is_positive() {
            let mut msg = String::new();
            msg.push_str("step_min must be positive");
            return Err(ConfigError::InvalidConfig { msg });
        }
        if max_step.is_less_than(&min_step) {
            let mut msg = String::new();
            msg.push_str("step_max must not be less than step_min");
            return Err(ConfigError::InvalidConfig { msg });
        }
        Ok(
            PropOpts {
                min_step,
                max_step,
                init_step: max_step,
                tolerance,
                fixed_step: false,
                error_norm,
            },
        )
    }

    /// The shortest step that step control may choose.
    #[verifier::when_used_as_spec(min_step_of)]
    pub fn min_step(&self) -> (r: Duration)
        ensures
            r == self.min_step_of(),
    {
        self.min_step
    }

    /// The longest step that step control may choose.
    #[verifier::when_used_as_spec(max_step_of)]
    pub fn max_step(&self) -> (r: Duration)
        ensures
            r == self.max_step_of(),
    {
        self.max_step
    }

    /// The step that a propagation starts with.
    #[verifier::when_used_as_spec(init_step_of)]
    pub fn init_step(&self) -> (r: Duration)
        ensures
            r == self.init_step_of(),
    {
        self.init_step
    }

    /// The tolerance on the error of one step, as a binary64 bit pattern.
    #[verifier::when_used_as_spec(tolerance_of)]
    pub fn tolerance(&self) -> (r: u64)
        ensures
            r == self.tolerance_of(),
    {
        self.tolerance
    }

    /// The norm that the error is measured in.
    #[verifier::when_used_as_spec(error_norm_of)]
    pub fn error_norm(&self) -> (r: ErrorNorm)
        ensures
            r == self.error_norm_of(),
    {
        self.error_norm
    }

    /// Whether every step has the same size and no error control applies.
    #[verifier::when_used_as_spec(fixed_of)]
    pub fn is_fixed(&self) -> (r: bool)
        ensures
            r == self.fixed_of(),
    {
        self.fixed_step
    }

    /// `step` brought into the bounds: the nearest step size that is neither
    /// shorter than the minimum nor longer than the maximum.
    pub open spec fn clamped(self, step: Duration) -> Duration {
        if step.nanos() < self.min_step().nanos() {
            self.min_step()
        } else if self.max_step().nanos() < step.nanos() {
            self.max_step()
        } else {
            step
        }
    }

    /// The size of the trial that follows a trial of `size` that was turned
    /// down: the suggested size brought into the bounds, or the minimum
    /// where that would not be shorter.
    pub open spec fn retry(self, size: Duration, suggested: Duration) -> Duration {
        if self.clamped(suggested).nanos() < size.nanos() {
            self.clamped(suggested)
        } else {
            self.min_step()
        }
    }

    /// `step` brought into the bounds: the nearest step size that is neither
    /// shorter than the minimum nor longer than the maximum.
    pub fn clamp(&self, step: Duration) -> (d: Duration)
        ensures
            self.min_step().nanos() <= d.nanos() <= self.max_step().nanos(),
            d == self.clamped(step),
    {
        proof {
            use_type_invariant(self);
        }
        if step.is_less_than(&self.min_step) {
            self.min_step
        } else if self.max_step.is_less_than(&step) {
            self.max_step
        } else {
            step
        }
    }
}

/// What one trial step of the integrator gave.
#[derive(Clone, Copy, Debug, PartialEq, Eq)]
pub struct Trial<const N: usize> {
    /// The state at the end of the step.
    pub state: [u64; N],
    /// The time derivative of the state there.
    pub rate: [u64; N],
    /// The error estimate of the step, as a binary64 bit pattern.
    pub error: u64,
    /// Whether the error is within the tolerance.
    pub within_tolerance: bool,
    /// The step size that the step-size formula gives for the next trial.
    pub suggested: Duration,
}

/// The latest accepted step: how long it was, and the error it had.
#[derive(Clone, Copy, Debug, PartialEq, Eq)]
pub struct Details {
    /// The size of the step.
    pub step: Duration,
    /// The error estimate of the step, as a binary64 bit pattern.
    pub error: u64,
    /// How many trials were turned down before this one was accepted.
    pub attempts: u64,
    /// Whether the step was accepted at the minimum size although its error
    /// exceeded the tolerance.
    pub excess_error: bool,
}

/// What an integrator reports of a step without failing.
#[derive(Clone, Copy, Debug, PartialEq, Eq, Structural)]
pub enum Diagnostic {
    /// The step was accepted at the minimum size with an error, given as a
    /// binary64 bit pattern, that exceeds the tolerance.
    StepBelowMinimum { error: u64 },
}

/// Why a propagation could not be made.
#[derive(Clone, Debug, PartialEq, Eq)]
pub enum PropagationError {
    /// The duration is negative: a propagation never moves back in time.
    Backward,
    /// The end of the propagation lies outside the range of epochs.
    EpochOutOfRange,
    /// The event function of `event` did not change sides within `window`.
    EventNotFound { event: String, window: Duration },
}

/// The two nodes that bracket an event: the event function is on one side
/// of zero at `before` and on the other at `after`.
#[derive(Clone, Copy, Debug, PartialEq, Eq)]
pub struct Found<const N: usize> {
    pub before: Node<N>,
    pub after: Node<N>,
}

/// Whether step control accepts the trial `t` of size `step`: the step is no
/// longer than the maximum, and the steps are fixed, or the error is within
/// the tolerance, or the step is no longer than the minimum.
pub open spec fn is_accepted<const N: usize>(opts: PropOpts, step: Duration, t: Trial<N>) -> bool {
    &&& step.nanos() <= opts.max_step().nanos()
    &&& opts.is_fixed() || t.within_tolerance || step.nanos() <= opts.min_step().nanos()
}

/// Whether the trial `t` of the positive size `step` leads from `from` to
/// `to`: `to` lies that step later and has the state and rate of `t`.
pub open spec fn is_trial<const N: usize, F: Fn(Node<N>, Duration) -> Trial<N>>(
    trial: F,
    from: Node<N>,
    step: Duration,
    t: Trial<N>,
    to: Node<N>,
) -> bool {
    &&& trial.ensures((from, step), t)
    &&& step.nanos() > 0
    &&& to.epoch.nanos() == from.epoch.nanos() + step.nanos()
    &&& to.state == t.state
    &&& to.rate == t.rate
}

/// Whether `to` is one step from `from`: some trial of a positive size
/// leads there. Under the step control of `control` the trial is one that
/// the control accepts; without a control it is any trial.
pub open spec fn is_step<const N: usize, F: Fn(Node<N>, Duration) -> Trial<N>>(
    trial: F,
    control: Option<PropOpts>,
    from: Node<N>,
    to: Node<N>,
) -> bool {
    exists|step: Duration, t: Trial<N>|
        {
            &&& #[trigger] is_trial(trial, from, step, t, to)
            &&& control matches Some(opts) ==> is_accepted(opts, step, t)
        }
}

/// Whether each node but the first is one step from the one before.
pub open spec fn is_propagation<const N: usize, F: Fn(Node<N>, Duration) -> Trial<N>>(
    trial: F,
    control: Option<PropOpts>,
    nodes: Seq<Node<N>>,
) -> bool {
    forall|i: int|
        0 <= i < nodes.len() - 1 ==> #[trigger] is_step(trial, control, nodes[i], nodes[i + 1])
}

/// Whether `nodes` is a propagation that starts at `from` and ends at `to`.
pub open spec fn is_route<const N: usize, F: Fn(Node<N>, Duration) -> Trial<N>>(
    trial: F,
    control: Option<PropOpts>,
    nodes: Seq<Node<N>>,
    from: Node<N>,
    to: Node<N>,
) -> bool {
    &&& nodes.len() > 0
    &&& nodes[0] == from
    &&& nodes[nodes.len() - 1] == to
    &&& is_propagation(trial, control, nodes)
}

/// Whether some propagation leads from `from` to `to` with the event
/// function on the side `s` at every node of it.
pub open spec fn one_sided<
    const N: usize,
    F: Fn(Node<N>, Duration) -> Trial<N>,
    G: Fn(Node<N>) -> bool,
>(trial: F, control: Option<PropOpts>, side: G, from: Node<N>, to: Node<N>, s: bool) -> bool {
    exists|nodes: Seq<Node<N>>|
        {
            &&& #[trigger] is_route(trial, control, nodes, from, to)
            &&& forall|i: int| 0 <= i < nodes.len() ==> side.ensures((#[trigger] nodes[i],), s)
        }
}

/// A route stays a route when a step accepted from its end is added.
pub proof fn lemma_route_extends<const N: usize, F: Fn(Node<N>, Duration) -> Trial<N>>(
    trial: F,
    control: Option<PropOpts>,
    nodes: Seq<Node<N>>,
    from: Node<N>,
    to: Node<N>,
    next: Node<N>,
)
    requires
        is_route(trial, control, nodes, from, to),
        is_step(trial, control, to, next),
    ensures
        is_route(trial, control, nodes.push(next), from, next),
{
    let longer = nodes.push(next);
    assert forall|i: int| 0 <= i < longer.len() - 1 implies #[trigger] is_step(trial, control,
        longer[i],
        longer[i + 1],
    ) by {
        if i < nodes.len() - 1 {
            assert(longer[i] == nodes[i]);
            assert(longer[i + 1] == nodes[i + 1]);
            assert(is_step(trial, control, nodes[i], nodes[i + 1]));
        }
    }
}

/// A one-sided propagation stays one when a step accepted from its end is
/// added whose node is on the same side.
pub proof fn lemma_one_sided_extends<
    const N: usize,
    F: Fn(Node<N>, Duration) -> Trial<N>,
    G: Fn(Node<N>) -> bool,
>(trial: F, control: Option<PropOpts>, side: G, from: Node<N>, to: Node<N>, next: Node<N>, s: bool)
    requires
        one_sided(trial, control, side, from, to, s),
        is_step(trial, control, to, next),
    ensures
        side.ensures((next,), s) ==> one_sided(trial, control, side, from, next, s),
{
    let path = choose|nodes: Seq<Node<N>>|
        {
            &&& #[trigger] is_route(trial, control, nodes, from, to)
            &&& forall|i: int| 0 <= i < nodes.len() ==> side.ensures((#[trigger] nodes[i],), s)
        };
    lemma_route_extends(trial, control, path, from, to, next);
    let longer = path.push(next);
    assert(is_route(trial, control, longer, from, next));
    if side.ensures((next,), s) {
        assert forall|i: int| 0 <= i < longer.len() implies side.ensures(
            (#[trigger] longer[i],),
            s,
        ) by {
            if i < path.len() {
                assert(longer[i] == path[i]);
            }
        }
    }
}

/// The propagation that has made no step is one-sided.
pub proof fn lemma_one_sided_start<
    const N: usize,
    F: Fn(Node<N>, Duration) -> Trial<N>,
    G: Fn(Node<N>) -> bool,
>(trial: F, control: Option<PropOpts>, side: G, from: Node<N>, s: bool)
    requires
        side.ensures((from,), s),
    ensures
        one_sided(trial, control, side, from, from, s),
{
    let path = seq![from];
    assert(is_route(trial, control, path, from, from));
}

/// Whether `found` brackets the first change of sides after `anchor`: the
/// start of the bracket is reached from `anchor` by trial steps through
/// nodes on the side `s`, and its end is one trial step from such a node and
/// on the other side.
pub open spec fn is_bracketing<
    const N: usize,
    F: Fn(Node<N>, Duration) -> Trial<N>,
    G: Fn(Node<N>) -> bool,
>(trial: F, side: G, anchor: Node<N>, found: Found<N>, s: bool) -> bool {
    &&& one_sided(trial, None, side, anchor, found.before, s)
    &&& side.ensures((found.after,), !s)
    &&& exists|from: Node<N>| #[trigger]
        one_sided(trial, None, side, anchor, from, s) && is_step(trial, None, from, found.after)
}

/// The shorter of two spans: `limit` where it is shorter than `size`.
pub open spec fn shorter(size: Duration, limit: Duration) -> Duration {
    if limit.nanos() < size.nanos() {
        limit
    } else {
        size
    }
}

/// Whether `after` is `before` after one accepted step of at most `limit`,
/// made through the trials of the given sizes one after the other.
///
/// The first trial has the size of the pending step, brought into the
/// bounds and cut to `limit`. Every trial but the last was turned down and
/// followed by the trial that [`PropOpts::retry`] gives. The last was
/// accepted: the node lies its size later and has its state and rate, the
/// details are its size, its error, the count of the trials turned down
/// and whether its error exceeds the tolerance, and the pending step is as
/// it was for fixed steps and else the suggested size brought into the
/// bounds.
pub open spec fn is_settling<const N: usize, F: Fn(Node<N>, Duration) -> Trial<N>>(
    trial: F,
    before: Propagator<N>,
    limit: Duration,
    sizes: Seq<Duration>,
    trials: Seq<Trial<N>>,
    after: Propagator<N>,
) -> bool {
    let opts = before.opts;
    let last = sizes.len() - 1;
    &&& sizes.len() > 0
    &&& trials.len() == sizes.len()
    &&& sizes[0] == shorter(opts.clamped(before.step), limit)
    &&& forall|k: int|
        0 <= k < sizes.len() ==> trial.ensures((before.node, sizes[k]), #[trigger] trials[k])
    &&& forall|k: int|
        0 <= k < last ==> !is_accepted(opts, sizes[k], #[trigger] trials[k]) && sizes[k + 1]
            == opts.retry(sizes[k], trials[k].suggested)
    &&& is_accepted(opts, sizes[last], trials[last])
    &&& 0 < sizes[last].nanos() <= limit.nanos()
    &&& after.opts == opts
    &&& after.node.epoch.nanos() == before.node.epoch.nanos() + sizes[last].nanos()
    &&& after.node.state == trials[last].state
    &&& after.node.rate == trials[last].rate
    &&& after.details == (Details {
        step: sizes[last],
        error: trials[last].error,
        attempts: if last < u64::MAX {
            last as u64
        } else {
            u64::MAX
        },
        excess_error: !opts.is_fixed() && !trials[last].within_tolerance,
    })
    &&& after.step == (if opts.is_fixed() {
        before.step
    } else {
        opts.clamped(trials[last].suggested)
    })
}

/// Whether `after` is `before` after one accepted step of at most `limit`.
pub open spec fn is_stepped<const N: usize, F: Fn(Node<N>, Duration) -> Trial<N>>(
    trial: F,
    before: Propagator<N>,
    limit: Duration,
    after: Propagator<N>,
) -> bool {
    exists|sizes: Seq<Duration>, trials: Seq<Trial<N>>| #[trigger]
        is_settling(trial, before, limit, sizes, trials, after)
}

/// Whether `after` is `before` after one accepted step towards the instant
/// `end`, which `before` has not reached: the step is at most as long as
/// the time that is left.
pub open spec fn is_leg<const N: usize, F: Fn(Node<N>, Duration) -> Trial<N>>(
    trial: F,
    before: Propagator<N>,
    end: int,
    after: Propagator<N>,
) -> bool {
    &&& before.node.epoch.nanos() < end
    &&& exists|limit: Duration|
        {
            &&& #[trigger] is_stepped(trial, before, limit, after)
            &&& limit.is_normal()
            &&& limit.nanos() == end - before.node.epoch.nanos()
        }
}

/// Whether each propagator but the first is the one before it after one
/// accepted step towards `end`.
pub open spec fn is_trace<const N: usize, F: Fn(Node<N>, Duration) -> Trial<N>>(
    trial: F,
    states: Seq<Propagator<N>>,
    end: int,
) -> bool {
    &&& states.len() > 0
    &&& forall|j: int|
        0 <= j < states.len() - 1 ==> #[trigger] is_leg(trial, states[j], end, states[j + 1])
}

/// Whether `after` is `before` after the propagation to the instant `end`:
/// accepted steps one after the other, the last of which ends at `end`.
pub open spec fn is_propagated<const N: usize, F: Fn(Node<N>, Duration) -> Trial<N>>(
    trial: F,
    before: Propagator<N>,
    end: int,
    states: Seq<Propagator<N>>,
    after: Propagator<N>,
) -> bool {
    &&& is_trace(trial, states, end)
    &&& states[0] == before
    &&& states[states.len() - 1] == after
    &&& after.node.epoch.nanos() == end
}

/// The nodes of the propagators.
pub open spec fn nodes_of<const N: usize>(states: Seq<Propagator<N>>) -> Seq<Node<N>> {
    Seq::new(states.len(), |j: int| states[j].node)
}

/// Whether the event function is on the side `s` at the node of every
/// propagator before index `until`.
pub open spec fn all_on_side<const N: usize, G: Fn(Node<N>) -> bool>(
    side: G,
    states: Seq<Propagator<N>>,
    until: int,
    s: bool,
) -> bool {
    forall|j: int| 0 <= j < until && j < states.len() ==> side.ensures((#[trigger] states[j].node,), s)
}

/// A trace stays a trace when a step from its last propagator is added.
pub proof fn lemma_trace_extends<const N: usize, F: Fn(Node<N>, Duration) -> Trial<N>>(
    trial: F,
    states: Seq<Propagator<N>>,
    end: int,
    next: Propagator<N>,
)
    requires
        is_trace(trial, states, end),
        is_leg(trial, states[states.len() - 1], end, next),
    ensures
        is_trace(trial, states.push(next), end),
{
    let longer = states.push(next);
    assert forall|j: int| 0 <= j < longer.len() - 1 implies #[trigger] is_leg(
        trial,
        longer[j],
        end,
        longer[j + 1],
    ) by {
        if j < states.len() - 1 {
            assert(longer[j] == states[j]);
            assert(longer[j + 1] == states[j + 1]);
            assert(is_leg(trial, states[j], end, states[j + 1]));
        }
    }
}

/// An accepted step is a step under the control of the options.
pub proof fn lemma_stepped_is_step<const N: usize, F: Fn(Node<N>, Duration) -> Trial<N>>(
    trial: F,
    before: Propagator<N>,
    limit: Duration,
    after: Propagator<N>,
)
    requires
        is_stepped(trial, before, limit, after),
    ensures
        is_step(trial, Some(before.opts), before.node, after.node),
        is_step(trial, None, before.node, after.node),
{
    let (sizes, trials) = choose|sizes: Seq<Duration>, trials: Seq<Trial<N>>| #[trigger]
        is_settling(trial, before, limit, sizes, trials, after);
    let last = sizes.len() - 1;
    assert(trial.ensures((before.node, sizes[last]), trials[last]));
    assert(is_trial(trial, before.node, sizes[last], trials[last], after.node));
}

/// The sizes of the trials of a step lie within the bounds of the options,
/// but for a first trial that was cut to the limit.
pub proof fn lemma_sizes_bounded<const N: usize, F: Fn(Node<N>, Duration) -> Trial<N>>(
    trial: F,
    before: Propagator<N>,
    limit: Duration,
    sizes: Seq<Duration>,
    trials: Seq<Trial<N>>,
    after: Propagator<N>,
    k: int,
)
    requires
        before.opts.is_valid(),
        is_settling(trial, before, limit, sizes, trials, after),
        0 <= k < sizes.len(),
    ensures
        sizes[k].nanos() <= before.opts.max_step().nanos(),
        sizes[k].nanos() >= before.opts.min_step().nanos() || (k == 0 && sizes[k] == limit),
{
    before.opts.lemma_bounds();
    if k > 0 {
        assert(sizes[k - 1 + 1] == before.opts.retry(sizes[k - 1], trials[k - 1].suggested));
    }
}

/// What step control makes of every accepted step: it is no longer than
/// the maximum; it is no shorter than the minimum unless it is the step
/// that was cut to the limit; and where the steps are fixed it is the
/// pending step, brought into the bounds and cut to the limit.
pub proof fn lemma_step_sizes<const N: usize, F: Fn(Node<N>, Duration) -> Trial<N>>(
    trial: F,
    before: Propagator<N>,
    limit: Duration,
    after: Propagator<N>,
)
    requires
        before.opts.is_valid(),
        is_stepped(trial, before, limit, after),
    ensures
        0 < after.details.step.nanos() <= limit.nanos(),
        after.details.step.nanos() <= before.opts.max_step().nanos(),
        after.details.step.nanos() >= before.opts.min_step().nanos() || after.details.step
            == limit,
        before.opts.is_fixed() ==> after.details.step == shorter(
            before.opts.clamped(before.step),
            limit,
        ),
        after.details.excess_error ==> after.details.step.nanos()
            <= before.opts.min_step().nanos(),
        after.node.epoch.nanos() == before.node.epoch.nanos() + after.details.step.nanos(),
{
    let (sizes, trials) = choose|sizes: Seq<Duration>, trials: Seq<Trial<N>>| #[trigger]
        is_settling(trial, before, limit, sizes, trials, after);
    let last = sizes.len() - 1;
    lemma_sizes_bounded(trial, before, limit, sizes, trials, after, last);
    lemma_sizes_bounded(trial, before, limit, sizes, trials, after, 0);
    if before.opts.is_fixed() && last > 0 {
        assert(!is_accepted(before.opts, sizes[0], trials[0]));
    }
}

/// Time never runs back through a propagation: along a trace a later
/// propagator has reached a later epoch.
pub proof fn lemma_trace_advances<const N: usize, F: Fn(Node<N>, Duration) -> Trial<N>>(
    trial: F,
    states: Seq<Propagator<N>>,
    end: int,
    i: int,
    j: int,
)
    requires
        is_trace(trial, states, end),
        0 <= i < j < states.len(),
    ensures
        states[i].node.epoch.nanos() < states[j].node.epoch.nanos(),
    decreases j - i,
{
    let k = j - 1;
    assert(is_leg(trial, states[k], end, states[k + 1]));
    let limit = choose|limit: Duration|
        {
            &&& #[trigger] is_stepped(trial, states[k], limit, states[k + 1])
            &&& limit.is_normal()
            &&& limit.nanos() == end - states[k].node.epoch.nanos()
        };
    let (sizes, trials) = choose|sizes: Seq<Duration>, trials: Seq<Trial<N>>| #[trigger]
        is_settling(trial, states[k], limit, sizes, trials, states[k + 1]);
    if i < k {
        lemma_trace_advances(trial, states, end, i, k);
    }
}

/// Closes in on the change of sides between `left` and `right` by
/// bisection: each middle node is one trial step from the start of the
/// bracket, and takes the place of the end whose side it has.
fn close_in<const N: usize, F: Fn(Node<N>, Duration) -> Trial<N>, G: Fn(Node<N>) -> bool>(
    left: Node<N>,
    right: Node<N>,
    s: bool,
    tolerance: &Duration,
    trial: &F,
    side: &G,
) -> (found: Found<N>)
    requires
        forall|n: Node<N>, d: Duration| trial.requires((n, d)),
        forall|n: Node<N>| side.requires((n,)),
        side.ensures((left,), s),
        is_step(*trial, None, left, right),
        side.ensures((right,), !s),
        left.epoch.nanos() < right.epoch.nanos(),
    ensures
        is_bracketing(*trial, *side, left, found, s),
        left.epoch.nanos() <= found.before.epoch.nanos() < found.after.epoch.nanos()
            <= right.epoch.nanos(),
        found.after.epoch.nanos() - found.before.epoch.nanos() < tolerance.nanos()
            || found.after.epoch.nanos() - found.before.epoch.nanos() < 2,
{
    let mut before = left;
    let mut after = right;
    let ghost mut from = left;
    proof {
        lemma_one_sided_start(*trial, None, *side, left, s);
    }
    let mut query = Bracket { left: before.epoch, right: after.epoch, left_side: s }.next_query(
        tolerance,
    );
    while query.is_some()
        invariant
            forall|n: Node<N>, d: Duration| trial.requires((n, d)),
            forall|n: Node<N>| side.requires((n,)),
            one_sided(*trial, None, *side, left, before, s),
            one_sided(*trial, None, *side, left, from, s),
            is_step(*trial, None, from, after),
            side.ensures((after,), !s),
            left.epoch.nanos() <= before.epoch.nanos() < after.epoch.nanos()
                <= right.epoch.nanos(),
            query.is_some() == !(Bracket {
                left: before.epoch,
                right: after.epoch,
                left_side: s,
            }).is_settled(*tolerance),
            query matches Some(mid) ==> before.epoch.nanos() < mid.nanos() < after.epoch.nanos(),
        decreases
                (if query.is_some() {
                    after.epoch.nanos() - before.epoch.nanos()
                } else {
                    0
                }),
    {
        let mid = query.unwrap();
        let span = mid.since(&before.epoch);
        let t = trial(before, span);
        let mid_node = Node { epoch: mid, state: t.state, rate: t.rate };
        let mid_side = side(mid_node);
        proof {
            assert(is_trial(*trial, before, span, t, mid_node));
            assert(is_step(*trial, None, before, mid_node));
            lemma_one_sided_extends(*trial, None, *side, left, before, mid_node, s);
        }
        if mid_side == s {
            before = mid_node;
        } else {
            proof {
                from = before;
            }
            after = mid_node;
        }
        query = Bracket { left: before.epoch, right: after.epoch, left_side: s }.next_query(
            tolerance,
        );
    }
    Found { before, after }
}

/// A propagator bound to a state: the options, the node reached, the step
/// size for the next trial, and the details of the latest accepted step.
#[derive(Clone, Copy, Debug, PartialEq, Eq)]
pub struct Propagator<const N: usize> {
    /// The options.
    pub opts: PropOpts,
    /// The node reached so far.
    pub node: Node<N>,
    /// The step size that the next trial starts with.
    pub step: Duration,
    /// The latest accepted step.
    pub details: Details,
}

impl<const N: usize> Propagator<N> {
    /// Binds the options to the initial state. The first trial is made with
    /// the initial step of the options.
    pub fn with(opts: PropOpts, initial: Node<N>) -> (p: Propagator<N>)
        ensures
            p.opts == opts,
            p.node == initial,
            p.step == opts.init_step(),
            p.details == (Details {
                step: opts.init_step(),
                error: 0,
                attempts: 0,
                excess_error: false,
            }),
    {
        let step = opts.init_step();
        Propagator {
            opts,
            node: initial,
            step,
            details: Details { step, error: 0, attempts: 0, excess_error: false },
        }
    }

    /// The size and the error of the latest accepted step.
    pub fn latest_details(&self) -> (d: (Duration, u64))
        ensures
            d == (self.details.step, self.details.error),
    {
        (self.details.step, self.details.error)
    }

    /// What there is to report of the latest accepted step: its error, where
    /// it was accepted at the minimum size in excess of the tolerance.
    pub fn diagnostic(&self) -> (d: Option<Diagnostic>)
        ensures
            d == (if self.details.excess_error {
                Some(Diagnostic::StepBelowMinimum { error: self.details.error })
            } else {
                None
            }),
    {
        if self.details.excess_error {
            Some(Diagnostic::StepBelowMinimum { error: self.details.error })
        } else {
            None
        }
    }

    /// The outcome of a propagation over `span` from `start`: an error for a
    /// negative span or an end that no epoch can hold, else the node at
    /// exactly `span` after the start.
    pub open spec fn arrival(start: Node<N>, span: Duration, r: Result<Node<N>, PropagationError>)
        -> bool {
        if span.nanos() < 0 {
            r == Err::<Node<N>, PropagationError>(PropagationError::Backward)
        } else if !Epoch::in_range(start.epoch.nanos() + span.nanos()) {
            r == Err::<Node<N>, PropagationError>(PropagationError::EpochOutOfRange)
        } else {
            r matches Ok(node) && node.epoch.nanos() == start.epoch.nanos() + span.nanos()
        }
    }

    /// Advances by `span`: steps are made until the epoch is exactly the
    /// initial one plus `span`, the last step being cut to end there. The
    /// details and the pending step are those that the last step left.
    pub fn for_duration<F: Fn(Node<N>, Duration) -> Trial<N>>(&mut self, span: Duration, trial: F)
        -> (r: Result<Node<N>, PropagationError>)
        requires
            forall|n: Node<N>, d: Duration| trial.requires((n, d)),
        ensures
            Self::arrival(old(self).node, span, r),
            r is Err ==> *final(self) == *old(self),
            r matches Ok(node) ==> final(self).node == node && exists|states: Seq<Propagator<N>>|
                #[trigger] is_propagated(
                    trial,
                    *old(self),
                    old(self).node.epoch.nanos() + span.nanos(),
                    states,
                    *final(self),
                ),
            final(self).opts == old(self).opts,
    {
        if span.is_less_than(&Duration::zero()) {
            return Err(PropagationError::Backward);
        }
        let end = match self.node.epoch.checked_add(&span) {
            None => {
                return Err(PropagationError::EpochOutOfRange);
            },
            Some(e) => e,
        };
        let ghost mut states: Seq<Propagator<N>> = seq![*self];
        while self.node.epoch.is_before(&end)
            invariant
                forall|n: Node<N>, d: Duration| trial.requires((n, d)),
                self.opts == old(self).opts,
                self.node.epoch.nanos() <= end.nanos(),
                is_trace(trial, states, end.nanos()),
                states[0] == *old(self),
                states[states.len() - 1] == *self,
            decreases end.nanos() - self.node.epoch.nanos(),
        {
            let ghost before = *self;
            let remaining = end.since(&self.node.epoch);
            proof {
                use_type_invariant(&end);
                lemma_epoch_in_range(end);
            }
            self.step_once(remaining, &trial);
            proof {
                assert(is_leg(trial, before, end.nanos(), *self));
                lemma_trace_extends(trial, states, end.nanos(), *self);
                states = states.push(*self);
            }
        }
        proof {
            assert(is_propagated(trial, *old(self), end.nanos(), states, *self));
        }
        Ok(self.node)
    }

    /// Advances by `span` as [`Propagator::for_duration`] does and returns,
    /// with the final node, the trajectory of all accepted steps from the
    /// initial node on. Evaluating the trajectory at its end gives the final
    /// node as stored.
    pub fn for_duration_with_traj<F: Fn(Node<N>, Duration) -> Trial<N>>(
        &mut self,
        span: Duration,
        trial: F,
    ) -> (r: Result<(Node<N>, Trajectory<N>), PropagationError>)
        requires
            forall|n: Node<N>, d: Duration| trial.requires((n, d)),
        ensures
            Self::arrival(
                old(self).node,
                span,
                match r {
                    Ok(pair) => Ok(pair.0),
                    Err(e) => Err(e),
                },
            ),
            r is Err ==> *final(self) == *old(self),
            r matches Ok(pair) ==> {
                &&& final(self).node == pair.0
                &&& ordered(pair.1@)
                &&& exists|states: Seq<Propagator<N>>|
                    #[trigger] is_propagated(
                        trial,
                        *old(self),
                        old(self).node.epoch.nanos() + span.nanos(),
                        states,
                        *final(self),
                    ) && pair.1@ == nodes_of(states)
                &&& evaluation(pair.1@, pair.0.epoch) == Ok::<Evaluation<N>, TrajectoryError>(
                    Evaluation::Stored(pair.0),
                )
            },
            final(self).opts == old(self).opts,
    {
        if span.is_less_than(&Duration::zero()) {
            return Err(PropagationError::Backward);
        }
        let end = match self.node.epoch.checked_add(&span) {
            None => {
                return Err(PropagationError::EpochOutOfRange);
            },
            Some(e) => e,
        };
        let mut traj: Trajectory<N> = Trajectory::new();
        traj.append(self.node);
        let ghost mut states: Seq<Propagator<N>> = seq![*self];
        assert(traj@ =~= nodes_of(states));
        while self.node.epoch.is_before(&end)
            invariant
                forall|n: Node<N>, d: Duration| trial.requires((n, d)),
                self.opts == old(self).opts,
                self.node.epoch.nanos() <= end.nanos(),
                ordered(traj@),
                is_trace(trial, states, end.nanos()),
                states[0] == *old(self),
                states[states.len() - 1] == *self,
                traj@ == nodes_of(states),
            decreases end.nanos() - self.node.epoch.nanos(),
        {
            let ghost before = *self;
            let remaining = end.since(&self.node.epoch);
            proof {
                use_type_invariant(&end);
                lemma_epoch_in_range(end);
            }
            self.step_once(remaining, &trial);
            let taken = traj.append(self.node);
            proof {
                assert(taken);
                assert(is_leg(trial, before, end.nanos(), *self));
                lemma_trace_extends(trial, states, end.nanos(), *self);
                states = states.push(*self);
                assert(traj@ =~= nodes_of(states));
            }
        }
        proof {
            crate::md::trajectory::lemma_node_identity(traj@, traj@.len() - 1);
            assert(is_propagated(trial, *old(self), end.nanos(), states, *self));
        }
        Ok((self.node, traj))
    }

    /// Advances until the event function changes sides, for `max_duration`
    /// at most, and closes in on the change by bisection.
    ///
    /// `event` names the event for the error, and `side` gives the side of
    /// its function at a node. After each
    /// accepted step the side is compared with that at the initial node.
    /// Once it differs, the step is halved again and again, each middle
    /// node being one trial step from the start of the bracket, until the
    /// bracket is shorter than `tolerance` or cannot be split. The
    /// propagator is left at the end of the bracket, with the details and
    /// the pending step that the last accepted step left. Where the side
    /// never changes the propagator is left `max_duration` after its start.
    pub fn until_event<F: Fn(Node<N>, Duration) -> Trial<N>, G: Fn(Node<N>) -> bool>(
        &mut self,
        event: &str,
        max_duration: Duration,
        tolerance: Duration,
        trial: F,
        side: G,
    ) -> (r: Result<Found<N>, PropagationError>)
        requires
            forall|n: Node<N>, d: Duration| trial.requires((n, d)),
            forall|n: Node<N>| side.requires((n,)),
        ensures
            max_duration.nanos() < 0 ==> r == Err::<Found<N>, PropagationError>(
                PropagationError::Backward,
            ) && *final(self) == *old(self),
            max_duration.nanos() >= 0 && !Epoch::in_range(
                old(self).node.epoch.nanos() + max_duration.nanos(),
            ) ==> r == Err::<Found<N>, PropagationError>(PropagationError::EpochOutOfRange)
                && *final(self) == *old(self),
            max_duration.nanos() >= 0 && Epoch::in_range(
                old(self).node.epoch.nanos() + max_duration.nanos(),
            ) ==> (match r {
                Ok(found) => {
                    &&& final(self).node == found.after
                    &&& found.before.epoch.nanos() < found.after.epoch.nanos()
                    &&& found.after.epoch.nanos() <= old(self).node.epoch.nanos()
                        + max_duration.nanos()
                    &&& (found.after.epoch.nanos() - found.before.epoch.nanos() < tolerance.nanos()
                        || found.after.epoch.nanos() - found.before.epoch.nanos() < 2)
                    &&& exists|s: bool, states: Seq<Propagator<N>>|
                        {
                            &&& #[trigger] all_on_side(side, states, states.len() - 1, s)
                            &&& is_trace(
                                trial,
                                states,
                                old(self).node.epoch.nanos() + max_duration.nanos(),
                            )
                            &&& states.len() >= 2
                            &&& states[0] == *old(self)
                            &&& is_bracketing(
                                trial,
                                side,
                                states[states.len() - 2].node,
                                found,
                                s,
                            )
                            &&& *final(self) == (Propagator {
                                node: found.after,
                                ..states[states.len() - 1]
                            })
                        }
                },
                Err(e) => {
                    &&& e matches PropagationError::EventNotFound { event: name, window }
                    &&& name@ == event@
                    &&& window == max_duration
                    &&& final(self).node.epoch.nanos() == old(self).node.epoch.nanos()
                        + max_duration.nanos()
                    &&& exists|s: bool, states: Seq<Propagator<N>>|
                        {
                            &&& #[trigger] all_on_side(side, states, states.len() as int, s)
                            &&& is_propagated(
                                trial,
                                *old(self),
                                old(self).node.epoch.nanos() + max_duration.nanos(),
                                states,
                                *final(self),
                            )
                        }
                },
            }),
            final(self).opts == old(self).opts,
    {
        if max_duration.is_less_than(&Duration::zero()) {
            return Err(PropagationError::Backward);
        }
        let end = match self.node.epoch.checked_add(&max_duration) {
            None => {
                return Err(PropagationError::EpochOutOfRange);
            },
            Some(e) => e,
        };
        let s = side(self.node);
        let ghost mut states: Seq<Propagator<N>> = seq![*self];
        proof {
            use_type_invariant(&end);
            lemma_epoch_in_range(end);
        }
        while self.node.epoch.is_before(&end)
            invariant
                forall|n: Node<N>, d: Duration| trial.requires((n, d)),
                forall|n: Node<N>| side.requires((n,)),
                self.opts == old(self).opts,
                self.node.epoch.nanos() <= end.nanos(),
                end.nanos() == old(self).node.epoch.nanos() + max_duration.nanos(),
                max_duration.nanos() >= 0,
                Epoch::in_range(end.nanos()),
                is_trace(trial, states, end.nanos()),
                states[0] == *old(self),
                states[states.len() - 1] == *self,
                all_on_side(side, states, states.len() as int, s),
            decreases end.nanos() - self.node.epoch.nanos(),
        {
            let ghost before = *self;
            let start = self.node;
            let remaining = end.since(&self.node.epoch);
            self.step_once(remaining, &trial);
            let now = side(self.node);
            proof {
                assert(is_leg(trial, before, end.nanos(), *self));
                lemma_trace_extends(trial, states, end.nanos(), *self);
                lemma_stepped_is_step(trial, before, remaining, *self);
                states = states.push(*self);
            }
            if now != s {
                let ghost reached = *self;
                let found = close_in(start, self.node, s, &tolerance, &trial, &side);
                self.node = found.after;
                proof {
                    assert(states[states.len() - 2] == before);
                    assert(all_on_side(side, states, states.len() - 1, s));
                    assert(*self == (Propagator { node: found.after, ..states[states.len() - 1] }));
                }
                return Ok(found);
            }
        }
        proof {
            assert(is_propagated(trial, *old(self), end.nanos(), states, *self));
        }
        let mut name = String::new();
        name.push_str(event);
        Err(PropagationError::EventNotFound { event: name, window: max_duration })
    }

    /// Makes one accepted step of at most `limit`.
    ///
    /// The first trial has the size of the pending step, brought into the
    /// bounds of the options and cut to `limit`. A trial is accepted where
    /// the steps are fixed, where its error is within the tolerance, or
    /// where it is no longer than the minimum step: there the excess error
    /// is recorded in the details. A trial that is turned down is followed
    /// by a shorter one: of the suggested size brought into the bounds, or
    /// of the minimum size where that would not be shorter.
    pub(crate) fn step_once<F: Fn(Node<N>, Duration) -> Trial<N>>(&mut self, limit: Duration, trial: &F)
        requires
            forall|n: Node<N>, d: Duration| trial.requires((n, d)),
            limit.nanos() > 0,
            Epoch::in_range(old(self).node.epoch.nanos() + limit.nanos()),
        ensures
            is_stepped(*trial, *old(self), limit, *final(self)),
            final(self).node.epoch.nanos() == old(self).node.epoch.nanos()
                + final(self).details.step.nanos(),
            0 < final(self).details.step.nanos() <= limit.nanos(),
            final(self).details.step.nanos() <= old(self).opts.max_step().nanos(),
            final(self).details.step.nanos() >= old(self).opts.min_step().nanos()
                || final(self).details.step == limit,
            old(self).opts.is_fixed() ==> final(self).details.step == shorter(
                old(self).opts.clamped(old(self).step),
                limit,
            ),
            final(self).details.excess_error ==> final(self).details.step.nanos()
                <= old(self).opts.min_step().nanos(),
            final(self).opts == old(self).opts,
    {
        let opts = self.opts;
        proof {
            use_type_invariant(&opts);
            opts.lemma_bounds();
            use_type_invariant(&self.node.epoch);
            lemma_epoch_in_range(self.node.epoch);
        }
        let from = self.node;
        let min_step = opts.min_step();
        let fixed = opts.is_fixed();
        let bounded = opts.clamp(self.step);
        let mut size = if limit.is_less_than(&bounded) {
            limit
        } else {
            bounded
        };
        let mut attempts: u64 = 0;
        let ghost mut sizes: Seq<Duration> = seq![size];
        let ghost mut trials: Seq<Trial<N>> = Seq::empty();
        loop
            invariant_except_break
                *self == *old(self),
            invariant
                forall|n: Node<N>, d: Duration| trial.requires((n, d)),
                opts == old(self).opts,
                from == old(self).node,
                min_step == opts.min_step(),
                fixed == opts.is_fixed(),
                0 < min_step.nanos() <= opts.max_step().nanos(),
                0 < size.nanos() <= limit.nanos(),
                size.nanos() <= opts.max_step().nanos(),
                size.nanos() >= min_step.nanos() || size == limit,
                Epoch::in_range(from.epoch.nanos()),
                Epoch::in_range(from.epoch.nanos() + limit.nanos()),
                sizes.len() == trials.len() + 1,
                fixed ==> trials.len() == 0,
                sizes[0] == shorter(opts.clamped(old(self).step), limit),
                sizes[sizes.len() - 1] == size,
                attempts == (if trials.len() < u64::MAX {
                    trials.len() as u64
                } else {
                    u64::MAX
                }),
                forall|k: int|
                    0 <= k < trials.len() ==> trial.ensures((from, sizes[k]), #[trigger] trials[k]),
                forall|k: int|
                    0 <= k < trials.len() ==> !is_accepted(opts, sizes[k], #[trigger] trials[k])
                        && sizes[k + 1] == opts.retry(sizes[k], trials[k].suggested),
            ensures
                is_stepped(*trial, *old(self), limit, *self),
                self.node.epoch.nanos() == old(self).node.epoch.nanos() + self.details.step.nanos(),
                0 < self.details.step.nanos() <= limit.nanos(),
                self.details.step.nanos() <= opts.max_step().nanos(),
                self.details.step.nanos() >= min_step.nanos() || self.details.step == limit,
                fixed ==> self.details.step == shorter(opts.clamped(old(self).step), limit),
                self.details.excess_error ==> self.details.step.nanos() <= min_step.nanos(),
                self.opts == old(self).opts,
            decreases size.nanos(),
        {
            let t = trial(from, size);
            let at_minimum = !min_step.is_less_than(&size);
            if fixed || t.within_tolerance || at_minimum {
                let epoch = from.epoch.checked_add(&size).unwrap();
                self.node = Node { epoch, state: t.state, rate: t.rate };
                self.details = Details {
                    step: size,
                    error: t.error,
                    attempts,
                    excess_error: !fixed && !t.within_tolerance,
                };
                if !fixed {
                    self.step = opts.clamp(t.suggested);
                }
                proof {
                    let ghost all = trials.push(t);
                    assert forall|k: int| 0 <= k < sizes.len() implies trial.ensures(
                        (from, sizes[k]),
                        #[trigger] all[k],
                    ) by {
                        if k < trials.len() {
                            assert(all[k] == trials[k]);
                        }
                    }
                    assert forall|k: int| 0 <= k < sizes.len() - 1 implies !is_accepted(
                        opts,
                        sizes[k],
                        #[trigger] all[k],
                    ) && sizes[k + 1] == opts.retry(sizes[k], all[k].suggested) by {
                        assert(all[k] == trials[k]);
                    }
                    assert(is_accepted(opts, size, t));
                    assert(is_settling(*trial, *old(self), limit, sizes, all, *self));
                }
                break ;
            }
            let next = opts.clamp(t.suggested);
            let ghost tried = size;
            size = if next.is_less_than(&size) {
                next
            } else {
                min_step
            };
            if attempts < u64::MAX {
                attempts += 1;
            }
            proof {
                let ghost before_sizes = sizes;
                let ghost before_trials = trials;
                assert(size == opts.retry(tried, t.suggested));
                assert(!is_accepted(opts, tried, t));
                sizes = sizes.push(size);
                trials = trials.push(t);
                assert forall|k: int| 0 <= k < trials.len() implies trial.ensures(
                    (from, sizes[k]),
                    #[trigger] trials[k],
                ) by {
                    if k < before_trials.len() {
                        assert(trials[k] == before_trials[k]);
                        assert(sizes[k] == before_sizes[k]);
                    }
                }
                assert forall|k: int| 0 <= k < trials.len() implies !is_accepted(
                    opts,
                    sizes[k],
                    #[trigger] trials[k],
                ) && sizes[k + 1] == opts.retry(sizes[k], trials[k].suggested) by {
                    if k < before_trials.len() {
                        assert(trials[k] == before_trials[k]);
                        assert(sizes[k] == before_sizes[k]);
                        assert(sizes[k + 1] == before_sizes[k + 1]);
                    }
                }
            }
        }
    }
}

} // verus!
