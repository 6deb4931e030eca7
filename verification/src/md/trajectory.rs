//! A trajectory: nodes `(t, x, dx/dt)` in strictly increasing time, and the
//! lookup of the segment that brackets a query epoch. The interpolation
//! between two nodes is numeric work left to the caller.

use crate::md::events::{is_search, search, sides_at, Crossing};
use crate::time::{lemma_epoch_in_range, Duration, Epoch};
use vstd::prelude::*;

verus! {

/// One accepted step of a propagation: the epoch, the state there and its
/// time derivative.
#[derive(Clone, Copy, Debug, PartialEq, Eq)]
pub struct Node<const N: usize> {
    pub epoch: Epoch,
    pub state: [u64; N],
    pub rate: [u64; N],
}

/// Why a trajectory could not answer.
#[derive(Clone, Copy, Debug, PartialEq, Eq)]
pub enum TrajectoryError {
    /// The query epoch `t` lies outside `[t_start, t_end]`, or there is no
    /// node at all.
    OutOfBounds { t: Epoch },
}

/// What a trajectory holds for a query epoch.
#[derive(Clone, Copy, Debug, PartialEq, Eq)]
pub enum Evaluation<const N: usize> {
    /// The query is the epoch of this node: its state is the answer.
    Stored(Node<N>),
    /// The query lies strictly between these two neighbours: the answer is
    /// their cubic Hermite interpolant.
    Between(Node<N>, Node<N>),
}

/// Whether the nodes are in strictly increasing time.
pub open spec fn ordered<const N: usize>(nodes: Seq<Node<N>>) -> bool {
    forall|i: int, j: int|
        0 <= i < j < nodes.len() ==> (#[trigger] nodes[i]).epoch.nanos() < (
        #[trigger] nodes[j]).epoch.nanos()
}

/// Whether `t` lies within the span of the nodes, ends included.
pub open spec fn covers<const N: usize>(nodes: Seq<Node<N>>, t: Epoch) -> bool {
    nodes.len() > 0 && nodes[0].epoch.nanos() <= t.nanos() <= nodes[nodes.len()
        - 1].epoch.nanos()
}

/// Whether segment `i` holds `t`: node `i` is not after `t`, and the next
/// node, if there is one, is after it.
pub open spec fn holds<const N: usize>(nodes: Seq<Node<N>>, i: int, t: Epoch) -> bool {
    &&& 0 <= i < nodes.len()
    &&& nodes[i].epoch.nanos() <= t.nanos()
    &&& i + 1 < nodes.len() ==> t.nanos() < nodes[i + 1].epoch.nanos()
}

/// What the nodes hold for `t`, given the segment `i` that holds it.
pub open spec fn evaluation_at<const N: usize>(nodes: Seq<Node<N>>, i: int, t: Epoch) -> Evaluation<
    N,
> {
    if nodes[i].epoch.nanos() == t.nanos() {
        Evaluation::Stored(nodes[i])
    } else {
        Evaluation::Between(nodes[i], nodes[i + 1])
    }
}

/// The segment that holds `t`.
pub open spec fn segment_of<const N: usize>(nodes: Seq<Node<N>>, t: Epoch) -> int {
    choose|i: int| holds(nodes, i, t)
}

/// What the nodes hold for `t`: nothing outside their span, else the
/// evaluation at the segment that holds `t`.
pub open spec fn evaluation<const N: usize>(nodes: Seq<Node<N>>, t: Epoch) -> Result<
    Evaluation<N>,
    TrajectoryError,
> {
    if covers(nodes, t) {
        Ok(evaluation_at(nodes, segment_of(nodes, t), t))
    } else {
        Err(TrajectoryError::OutOfBounds { t })
    }
}

/// In ordered nodes at most one segment holds an epoch.
pub proof fn lemma_segment_unique<const N: usize>(nodes: Seq<Node<N>>, i: int, j: int, t: Epoch)
    requires
        ordered(nodes),
        holds(nodes, i, t),
        holds(nodes, j, t),
    ensures
        i == j,
{
    if i < j {
        assert(nodes[i + 1].epoch.nanos() <= nodes[j].epoch.nanos());
    }
    if j < i {
        assert(nodes[j + 1].epoch.nanos() <= nodes[i].epoch.nanos());
    }
}

/// A segment that holds `t` is the segment of `t`.
pub proof fn lemma_segment_is<const N: usize>(nodes: Seq<Node<N>>, i: int, t: Epoch)
    requires
        ordered(nodes),
        holds(nodes, i, t),
    ensures
        segment_of(nodes, t) == i,
{
    lemma_segment_unique(nodes, i, segment_of(nodes, t), t);
}

/// Evaluating at the epoch of a node gives that node as stored: no
/// interpolation touches it.
pub proof fn lemma_node_identity<const N: usize>(nodes: Seq<Node<N>>, k: int)
    requires
        ordered(nodes),
        0 <= k < nodes.len(),
    ensures
        evaluation(nodes, nodes[k].epoch) == Ok::<Evaluation<N>, TrajectoryError>(
            Evaluation::Stored(nodes[k]),
        ),
{
    let t = nodes[k].epoch;
    assert(holds(nodes, k, t));
    lemma_segment_is(nodes, k, t);
    if 0 < k {
        assert(nodes[0].epoch.nanos() < nodes[k].epoch.nanos());
    }
    if k < nodes.len() - 1 {
        assert(nodes[k].epoch.nanos() < nodes[nodes.len() - 1].epoch.nanos());
    }
}

/// Endpoint identity: after a node has been appended to an ordered
/// trajectory, evaluating at its epoch gives back exactly that node.
pub proof fn lemma_endpoint_identity<const N: usize>(nodes: Seq<Node<N>>, node: Node<N>)
    requires
        ordered(nodes.push(node)),
    ensures
        evaluation(nodes.push(node), node.epoch) == Ok::<Evaluation<N>, TrajectoryError>(
            Evaluation::Stored(node),
        ),
{
    lemma_node_identity(nodes.push(node), nodes.len() as int);
}

/// Whether `epochs` are the instants `start`, `start + step`, `start + 2 step`
/// and so on up to the last one that is not after `end`.
pub open spec fn is_sampling(epochs: Seq<Epoch>, start: int, end: int, step: int) -> bool {
    &&& epochs.len() > 0
    &&& forall|k: int| 0 <= k < epochs.len() ==> (#[trigger] epochs[k]).nanos() == start + k * step
    &&& epochs[epochs.len() - 1].nanos() <= end < epochs[epochs.len() - 1].nanos() + step
}

/// The epochs of the nodes.
pub open spec fn epochs_of<const N: usize>(nodes: Seq<Node<N>>) -> Seq<Epoch> {
    Seq::new(nodes.len(), |i: int| nodes[i].epoch)
}

/// Whether `e` is the epoch of one of the nodes.
pub open spec fn is_node_epoch<const N: usize>(nodes: Seq<Node<N>>, e: Epoch) -> bool {
    exists|i: int| 0 <= i < nodes.len() && (#[trigger] nodes[i]).epoch == e
}

/// Whether `points` are the sample epochs of the window from `t1` to `t2`:
/// `t1`, then the epochs of the nodes strictly inside the window in their
/// order, then `t2`.
pub open spec fn is_window<const N: usize>(
    points: Seq<Epoch>,
    nodes: Seq<Node<N>>,
    t1: Epoch,
    t2: Epoch,
) -> bool {
    &&& points.len() >= 2
    &&& points[0] == t1
    &&& points[points.len() - 1] == t2
    &&& forall|k: int, l: int|
        0 <= k < l < points.len() ==> (#[trigger] points[k]).nanos() < (#[trigger] points[l]).nanos()
    &&& forall|k: int| 0 < k < points.len() - 1 ==> is_node_epoch(nodes, #[trigger] points[k])
    &&& forall|i: int|
        0 <= i < nodes.len() && t1.nanos() < (#[trigger] nodes[i]).epoch.nanos() < t2.nanos()
            ==> points.contains(nodes[i].epoch)
}

/// An ordered collection of nodes.
#[derive(Debug)]
pub struct Trajectory<const N: usize> {
    nodes: Vec<Node<N>>,
}

impl<const N: usize> View for Trajectory<N> {
    type V = Seq<Node<N>>;

    closed spec fn view(&self) -> Seq<Node<N>> {
        self.nodes@
    }
}

impl<const N: usize> Trajectory<N> {
    #[verifier::type_invariant]
    pub closed spec fn is_ordered(self) -> bool {
        ordered(self.nodes@)
    }

    /// The trajectory without nodes.
    pub fn new() -> (traj: Trajectory<N>)
        ensures
            traj@ == Seq::<Node<N>>::empty(),
    {
        Trajectory { nodes: Vec::new() }
    }

    /// The number of nodes.
    pub fn len(&self) -> (n: usize)
        ensures
            n == self@.len(),
    {
        self.nodes.len()
    }

    /// The first node, if there is one.
    pub fn first(&self) -> (r: Option<Node<N>>)
        ensures
            r == (if self@.len() > 0 {
                Some(self@[0])
            } else {
                None
            }),
    {
        if self.nodes.len() > 0 {
            Some(self.nodes[0])
        } else {
            None
        }
    }

    /// The last node, if there is one.
    pub fn last(&self) -> (r: Option<Node<N>>)
        ensures
            r == (if self@.len() > 0 {
                Some(self@[self@.len() - 1])
            } else {
                None
            }),
    {
        let n = self.nodes.len();
        if n > 0 {
            Some(self.nodes[n - 1])
        } else {
            None
        }
    }

    /// The index of the segment that holds `t`, or the error for an epoch
    /// outside the span of the trajectory. The search halves the range of
    /// candidates at every step.
    pub fn locate(&self, t: Epoch) -> (r: Result<usize, TrajectoryError>)
        ensures
            ordered(self@),
            r is Ok == covers(self@, t),
            r matches Ok(i) ==> i == segment_of(self@, t) && holds(self@, i as int, t),
            r matches Err(e) ==> e == (TrajectoryError::OutOfBounds { t }),
    {
        proof {
            use_type_invariant(self);
        }
        let n = self.nodes.len();
        if n == 0 || t.is_before(&self.nodes[0].epoch) || self.nodes[n - 1].epoch.is_before(&t) {
            return Err(TrajectoryError::OutOfBounds { t });
        }
        let mut lo: usize = 0;
        let mut hi: usize = n;
        while hi - lo > 1
            invariant
                n == self.nodes@.len(),
                ordered(self.nodes@),
                lo < hi <= n,
                self.nodes@[lo as int].epoch.nanos() <= t.nanos(),
                hi < n ==> t.nanos() < self.nodes@[hi as int].epoch.nanos(),
            decreases hi - lo,
        {
            let mid = lo + (hi - lo) / 2;
            if t.is_before(&self.nodes[mid].epoch) {
                hi = mid;
            } else {
                lo = mid;
            }
        }
        proof {
            assert(holds(self@, lo as int, t));
            lemma_segment_is(self@, lo as int, t);
        }
        Ok(lo)
    }

    /// What the trajectory holds for `t`: the node stored at `t`, the two
    /// neighbours to interpolate between, or the error for an epoch outside
    /// `[t_start, t_end]`.
    pub fn evaluate(&self, t: Epoch) -> (r: Result<Evaluation<N>, TrajectoryError>)
        ensures
            r == evaluation(self@, t),
    {
        match self.locate(t) {
            Err(e) => Err(e),
            Ok(i) => {
                let n = self.nodes.len();
                let left = self.nodes[i];
                if !left.epoch.is_before(&t) {
                    Ok(Evaluation::Stored(left))
                } else {
                    assert(i + 1 < n) by {
                        if i + 1 == n {
                            assert(self@[i as int].epoch.nanos() < t.nanos());
                        }
                    }
                    Ok(Evaluation::Between(left, self.nodes[i + 1]))
                }
            },
        }
    }

    /// The epochs from `t_start` on, `step` apart, that lie on the
    /// trajectory. There is none on a trajectory without nodes, and none for
    /// a step that is not positive. Each call starts again at `t_start`.
    pub fn every(&self, step: Duration) -> (r: Vec<Epoch>)
        ensures
            self@.len() == 0 || step.nanos() <= 0 ==> r@.len() == 0,
            self@.len() > 0 && step.nanos() > 0 ==> is_sampling(
                r@,
                self@[0].epoch.nanos(),
                self@[self@.len() - 1].epoch.nanos(),
                step.nanos(),
            ),
    {
        proof {
            use_type_invariant(self);
        }
        let mut out: Vec<Epoch> = Vec::new();
        let n = self.nodes.len();
        if n == 0 || !step.is_positive() {
            return out;
        }
        let start = self.nodes[0].epoch;
        let end = self.nodes[n - 1].epoch;
        assert(start.nanos() <= end.nanos()) by {
            if n > 1 {
                assert(self.nodes@[0].epoch.nanos() < self.nodes@[n - 1].epoch.nanos());
            }
        }
        let mut cur = start;
        out.push(cur);
        assert(0 * step.nanos() == 0) by (nonlinear_arith);
        let mut more = true;
        while more
            invariant
                step.nanos() > 0,
                out@.len() > 0,
                cur == out@[out@.len() - 1],
                forall|k: int|
                    0 <= k < out@.len() ==> (#[trigger] out@[k]).nanos() == start.nanos() + k
                        * step.nanos(),
                cur.nanos() <= end.nanos(),
                !more ==> end.nanos() < cur.nanos() + step.nanos(),
            decreases
                    (if more {
                        end.nanos() - cur.nanos() + 1
                    } else {
                        0
                    }),
        {
            let ghost count = out@.len() as int;
            proof {
                use_type_invariant(&end);
                use_type_invariant(&cur);
                lemma_epoch_in_range(end);
                lemma_epoch_in_range(cur);
                assert((count - 1) * step.nanos() + step.nanos() == count * step.nanos())
                    by (nonlinear_arith);
            }
            match cur.checked_add(&step) {
                Some(next) => {
                    if end.is_before(&next) {
                        more = false;
                    } else {
                        out.push(next);
                        cur = next;
                    }
                },
                None => {
                    more = false;
                },
            }
        }
        out
    }

    /// The epochs of the nodes, in their order.
    pub fn epochs(&self) -> (r: Vec<Epoch>)
        ensures
            r@ == epochs_of(self@),
    {
        let mut out: Vec<Epoch> = Vec::new();
        let mut i: usize = 0;
        while i < self.nodes.len()
            invariant
                i <= self.nodes@.len(),
                out@.len() == i,
                forall|j: int| 0 <= j < i ==> out@[j] == self.nodes@[j].epoch,
            decreases self.nodes@.len() - i,
        {
            out.push(self.nodes[i].epoch);
            i += 1;
        }
        assert(out@ =~= epochs_of(self@));
        out
    }

    /// The sample epochs of the window from `t1` to `t2`: an error for an
    /// end that the trajectory does not cover, `t1` first, and nothing for
    /// a window that does not start before it ends.
    pub fn window(&self, t1: Epoch, t2: Epoch) -> (r: Result<Vec<Epoch>, TrajectoryError>)
        ensures
            !covers(self@, t1) ==> r == Err::<Vec<Epoch>, TrajectoryError>(
                TrajectoryError::OutOfBounds { t: t1 },
            ),
            covers(self@, t1) && !covers(self@, t2) ==> r == Err::<Vec<Epoch>, TrajectoryError>(
                TrajectoryError::OutOfBounds { t: t2 },
            ),
            covers(self@, t1) && covers(self@, t2) ==> (r matches Ok(points) && if t1.nanos()
                < t2.nanos() {
                is_window(points@, self@, t1, t2)
            } else {
                points@.len() == 0
            }),
    {
        proof {
            use_type_invariant(self);
        }
        let first = match self.locate(t1) {
            Err(e) => {
                return Err(e);
            },
            Ok(i) => i,
        };
        if let Err(e) = self.locate(t2) {
            return Err(e);
        }
        let mut points: Vec<Epoch> = Vec::new();
        if !t1.is_before(&t2) {
            return Ok(points);
        }
        points.push(t1);
        let n = self.nodes.len();
        let mut i: usize = first + 1;
        while i < n && self.nodes[i].epoch.is_before(&t2)
            invariant
                n == self.nodes@.len(),
                ordered(self.nodes@),
                first < i <= n,
                holds(self@, first as int, t1),
                t1.nanos() < t2.nanos(),
                points@.len() == i - first,
                points@[0] == t1,
                forall|k: int| 0 < k < points@.len() ==> #[trigger] points@[k] == self.nodes@[first
                    + k].epoch,
                forall|k: int| 0 <= k < points@.len() ==> (#[trigger] points@[k]).nanos()
                    < t2.nanos(),
            decreases n - i,
        {
            points.push(self.nodes[i].epoch);
            i += 1;
        }
        points.push(t2);
        proof {
            let pts = points@;
            assert forall|k: int, l: int| 0 <= k < l < pts.len() implies (#[trigger] pts[k]).nanos()
                < (#[trigger] pts[l]).nanos() by {
                if l < pts.len() - 1 {
                    if k == 0 {
                        assert(self.nodes@[first + 1].epoch.nanos() <= self.nodes@[first
                            + l].epoch.nanos());
                    } else {
                        assert(self.nodes@[first + k].epoch.nanos() < self.nodes@[first
                            + l].epoch.nanos());
                    }
                }
            }
            assert forall|k: int| 0 < k < pts.len() - 1 implies is_node_epoch(
                self@,
                #[trigger] pts[k],
            ) by {
                assert(self@[first + k].epoch == pts[k]);
            }
            assert forall|j: int|
                0 <= j < self@.len() && t1.nanos() < (#[trigger] self@[j]).epoch.nanos()
                    < t2.nanos() implies pts.contains(self@[j].epoch) by {
                if j <= first {
                    assert(self@[j].epoch.nanos() <= self@[first as int].epoch.nanos());
                }
                if j >= i {
                    assert(self@[i as int].epoch.nanos() <= self@[j].epoch.nanos());
                }
                assert(pts[j - first] == self@[j].epoch);
            }
        }
        Ok(points)
    }

    /// Every zero crossing of an event function along the trajectory: the
    /// side of the function is taken at each node, and each segment where
    /// it changes is narrowed by bisection until the search is over.
    pub fn find_all<F: Fn(Epoch) -> bool>(&self, tolerance: &Duration, side: &F) -> (found: Vec<
        Crossing,
    >)
        requires
            forall|e: Epoch| side.requires((e,)),
        ensures
            exists|signs: Seq<bool>|
                #[trigger] sides_at(*side, epochs_of(self@), signs) && is_search(
                    found@,
                    epochs_of(self@),
                    signs,
                    *tolerance,
                    *side,
                ),
    {
        let points = self.epochs();
        search(&points, tolerance, side)
    }

    /// The zero crossings of an event function within the window from `t1`
    /// to `t2`: as [`Trajectory::find_all`], on the sample epochs of the
    /// window.
    pub fn find_bracketed<F: Fn(Epoch) -> bool>(
        &self,
        t1: Epoch,
        t2: Epoch,
        tolerance: &Duration,
        side: &F,
    ) -> (r: Result<Vec<Crossing>, TrajectoryError>)
        requires
            forall|e: Epoch| side.requires((e,)),
        ensures
            !covers(self@, t1) ==> r == Err::<Vec<Crossing>, TrajectoryError>(
                TrajectoryError::OutOfBounds { t: t1 },
            ),
            covers(self@, t1) && !covers(self@, t2) ==> r == Err::<Vec<Crossing>, TrajectoryError>(
                TrajectoryError::OutOfBounds { t: t2 },
            ),
            covers(self@, t1) && covers(self@, t2) ==> (r matches Ok(found) && if t1.nanos()
                < t2.nanos() {
                exists|points: Seq<Epoch>, signs: Seq<bool>|
                    {
                        &&& is_window(points, self@, t1, t2)
                        &&& #[trigger] sides_at(*side, points, signs)
                        &&& is_search(found@, points, signs, *tolerance, *side)
                    }
            } else {
                found@.len() == 0
            }),
    {
        match self.window(t1, t2) {
            Err(e) => Err(e),
            Ok(points) => {
                if points.len() == 0 {
                    return Ok(Vec::new());
                }
                let found = search(&points, tolerance, side);
                Ok(found)
            },
        }
    }

    /// Appends `node` if it comes after every node held, and says whether it
    /// did. A node that is not later than the last one is not taken.
    pub fn append(&mut self, node: Node<N>) -> (taken: bool)
        ensures
            taken == (old(self)@.len() == 0 || old(self)@[old(self)@.len() - 1].epoch.nanos()
                < node.epoch.nanos()),
            taken ==> final(self)@ == old(self)@.push(node),
            !taken ==> final(self)@ == old(self)@,
            ordered(final(self)@),
    {
        proof {
            use_type_invariant(&*self);
        }
        let n = self.nodes.len();
        if n > 0 && !self.nodes[n - 1].epoch.is_before(&node.epoch) {
            return false;
        }
        let mut held = Trajectory { nodes: Vec::new() };
        std::mem::swap(self, &mut held);
        let mut nodes = held.nodes;
        nodes.push(node);
        *self = Trajectory { nodes };
        true
    }
}

} // verus!
