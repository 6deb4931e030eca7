//! Search for the zero crossings of a scalar event function along time.
//!
//! The event function itself is numeric; this module sees only on which
//! side of zero it lies at an epoch (`true` where it is not negative). It
//! finds the segments where the side changes and narrows such a segment by
//! bisection.

use crate::time::{lemma_epoch_in_range, Duration, Epoch};
use vstd::prelude::*;

verus! {

/// Whether the side changes between sample `i` and the next one.
pub open spec fn is_sign_change(signs: Seq<bool>, i: int) -> bool {
    0 <= i < signs.len() - 1 && signs[i] != signs[i + 1]
}

/// The indices of the samples after which the side changes, in increasing
/// order: each is the left end of a segment that brackets a zero crossing.
pub fn sign_changes(signs: &Vec<bool>) -> (found: Vec<usize>)
    ensures
        forall|k: int| 0 <= k < found@.len() ==> is_sign_change(signs@, #[trigger] found@[k] as int),
        forall|k: int, l: int| 0 <= k < l < found@.len() ==> found@[k] < found@[l],
        forall|i: int| is_sign_change(signs@, i) ==> found@.contains(i as usize),
{
    let mut found: Vec<usize> = Vec::new();
    let n = signs.len();
    if n < 2 {
        return found;
    }
    let mut i: usize = 0;
    while i < n - 1
        invariant
            n == signs@.len(),
            n >= 2,
            i <= n - 1,
            forall|k: int|
                0 <= k < found@.len() ==> is_sign_change(signs@, #[trigger] found@[k] as int)
                    && found@[k] < i,
            forall|k: int, l: int| 0 <= k < l < found@.len() ==> found@[k] < found@[l],
            forall|j: int| 0 <= j < i && is_sign_change(signs@, j) ==> found@.contains(j as usize),
        decreases n - 1 - i,
    {
        if signs[i] != signs[i + 1] {
            let ghost before = found@;
            found.push(i);
            proof {
                assert(found@[before.len() as int] == i);
                assert forall|j: int| 0 <= j < i + 1 && is_sign_change(signs@, j) implies found@.contains(
                    j as usize,
                ) by {
                    if j < i {
                        let k = choose|k: int| 0 <= k < before.len() && before[k] == j as usize;
                        assert(found@[k] == j as usize);
                    }
                }
            }
        }
        i += 1;
    }
    found
}

/// A span of time with the event function on one side of zero at its start
/// and on the other side at its end.
#[derive(Clone, Copy, Debug, PartialEq, Eq)]
pub struct Bracket {
    /// The start of the span.
    pub left: Epoch,
    /// The end of the span.
    pub right: Epoch,
    /// The side at the start: whether the event function is not negative
    /// there. At the end it is on the other side.
    pub left_side: bool,
}

impl Bracket {
    /// The invariant of a bracket: it starts before it ends.
    pub open spec fn is_well_formed(self) -> bool {
        self.left.nanos() < self.right.nanos()
    }

    /// The length of the span in nanoseconds.
    pub open spec fn width(self) -> int {
        self.right.nanos() - self.left.nanos()
    }

    /// The middle of the span, rounded down to the nanosecond.
    pub open spec fn middle(self) -> int {
        self.left.nanos() + self.width() / 2
    }

    /// Whether the search is over: the span is shorter than `tolerance`, or
    /// too short to be split.
    pub open spec fn is_settled(self, tolerance: Duration) -> bool {
        self.width() < tolerance.nanos() || self.width() < 2
    }

    /// The bracket between two epochs, if the first is the earlier one and
    /// the sides differ.
    pub fn new(left: Epoch, left_side: bool, right: Epoch, right_side: bool) -> (r: Option<Bracket>)
        ensures
            r.is_some() == (left.nanos() < right.nanos() && left_side != right_side),
            r matches Some(b) ==> b == (Bracket { left, right, left_side }),
    {
        if left.is_before(&right) && left_side != right_side {
            Some(Bracket { left, right, left_side })
        } else {
            None
        }
    }

    /// The epoch at which the event function is to be evaluated next: the
    /// middle of the span, or `None` once the search is over.
    pub fn next_query(&self, tolerance: &Duration) -> (r: Option<Epoch>)
        ensures
            r.is_some() == !self.is_settled(*tolerance),
            r matches Some(mid) ==> mid.nanos() == self.middle() && self.left.nanos() < mid.nanos()
                < self.right.nanos(),
    {
        let span = self.right.since(&self.left);
        if span.is_less_than(tolerance) {
            return None;
        }
        match span.half() {
            None => None,
            Some(half) => {
                if !half.is_positive() {
                    return None;
                }
                proof {
                    use_type_invariant(&self.left);
                    use_type_invariant(&self.right);
                    lemma_epoch_in_range(self.left);
                    lemma_epoch_in_range(self.right);
                }
                self.left.checked_add(&half)
            },
        }
    }

    /// The half of the span that still brackets the crossing, given the side
    /// of the event function at `mid`: the start moves to `mid` where the
    /// side there is that of the start, else the end does.
    pub fn narrowed(self, mid: Epoch, mid_side: bool) -> (b: Bracket)
        ensures
            b == (if mid_side == self.left_side {
                Bracket { left: mid, ..self }
            } else {
                Bracket { right: mid, ..self }
            }),
            self.left.nanos() < mid.nanos() < self.right.nanos() ==> b.is_well_formed(),
    {
        if mid_side == self.left_side {
            Bracket { left: mid, right: self.right, left_side: self.left_side }
        } else {
            Bracket { left: self.left, right: mid, left_side: self.left_side }
        }
    }

    /// Whether this bracket is what bisection of `start` with the evaluator
    /// `side` may leave: it lies within `start`, keeps the side at its
    /// start, and each end that has moved is an epoch at which `side`
    /// reported the side that this end must have.
    pub open spec fn refines<F: Fn(Epoch) -> bool>(self, start: Bracket, side: F) -> bool {
        &&& start.left.nanos() <= self.left.nanos()
        &&& self.right.nanos() <= start.right.nanos()
        &&& self.left_side == start.left_side
        &&& self.left != start.left ==> side.ensures((self.left,), self.left_side)
        &&& self.right != start.right ==> side.ensures((self.right,), !self.left_side)
    }

    /// Narrows the bracket by bisection until the search is over, asking
    /// `side` for the side of the event function at each middle.
    pub fn bisect<F: Fn(Epoch) -> bool>(self, tolerance: &Duration, side: &F) -> (b: Bracket)
        requires
            forall|e: Epoch| side.requires((e,)),
        ensures
            b.is_settled(*tolerance),
            b.refines(self, *side),
            self.is_well_formed() ==> b.is_well_formed(),
    {
        let mut current = self;
        let mut query = current.next_query(tolerance);
        while query.is_some()
            invariant
                forall|e: Epoch| side.requires((e,)),
                current.refines(self, *side),
                self.is_well_formed() ==> current.is_well_formed(),
                query.is_some() == !current.is_settled(*tolerance),
                query matches Some(mid) ==> mid.nanos() == current.middle() && current.left.nanos()
                    < mid.nanos() < current.right.nanos(),
            decreases
                    (if query.is_some() {
                        current.width()
                    } else {
                        0
                    }),
        {
            let mid = query.unwrap();
            let mid_side = side(mid);
            current = current.narrowed(mid, mid_side);
            query = current.next_query(tolerance);
        }
        current
    }
}

/// A zero crossing found between two sample epochs.
#[derive(Clone, Copy, Debug, PartialEq, Eq)]
pub struct Crossing {
    /// The index of the sample at the start of the segment that held the
    /// crossing.
    pub segment: usize,
    /// What bisection has left of that segment.
    pub bracket: Bracket,
}

/// Whether `signs` are sides that `side` reported at the `points`, one each.
pub open spec fn sides_at<F: Fn(Epoch) -> bool>(side: F, points: Seq<Epoch>, signs: Seq<bool>)
    -> bool {
    &&& signs.len() == points.len()
    &&& forall|i: int| 0 <= i < points.len() ==> side.ensures((points[i],), #[trigger] signs[i])
}

/// Whether `c` is a crossing of the sampled event function: its segment is
/// one where the side changes, and its bracket is what bisection may leave
/// of that segment once the search is over.
pub open spec fn is_crossing<F: Fn(Epoch) -> bool>(
    c: Crossing,
    points: Seq<Epoch>,
    signs: Seq<bool>,
    tolerance: Duration,
    side: F,
) -> bool {
    &&& is_sign_change(signs, c.segment as int)
    &&& c.bracket.is_settled(tolerance)
    &&& c.bracket.refines(
        Bracket {
            left: points[c.segment as int],
            right: points[c.segment + 1],
            left_side: signs[c.segment as int],
        },
        side,
    )
}

/// Whether `found` are the crossings of the sampled event function: one for
/// each segment where the side changes, in the order of the segments.
pub open spec fn is_search<F: Fn(Epoch) -> bool>(
    found: Seq<Crossing>,
    points: Seq<Epoch>,
    signs: Seq<bool>,
    tolerance: Duration,
    side: F,
) -> bool {
    &&& forall|k: int|
        0 <= k < found.len() ==> is_crossing(#[trigger] found[k], points, signs, tolerance, side)
    &&& forall|k: int, l: int|
        0 <= k < l < found.len() ==> (#[trigger] found[k]).segment < (#[trigger] found[l]).segment
    &&& forall|i: int|
        #[trigger] is_sign_change(signs, i) ==> exists|k: int|
            0 <= k < found.len() && (#[trigger] found[k]).segment == i
}

/// Searches for the zero crossings between the `points`: `side` is asked
/// for the side of the event function at every point, and each segment
/// where the side changes is narrowed by bisection until the search is
/// over.
pub fn search<F: Fn(Epoch) -> bool>(points: &Vec<Epoch>, tolerance: &Duration, side: &F) -> (found:
    Vec<Crossing>)
    requires
        forall|e: Epoch| side.requires((e,)),
    ensures
        exists|signs: Seq<bool>|
            #[trigger] sides_at(*side, points@, signs) && is_search(
                found@,
                points@,
                signs,
                *tolerance,
                *side,
            ),
{
    let n = points.len();
    let mut signs: Vec<bool> = Vec::new();
    let mut i: usize = 0;
    while i < n
        invariant
            forall|e: Epoch| side.requires((e,)),
            n == points@.len(),
            i <= n,
            signs@.len() == i,
            forall|j: int| 0 <= j < i ==> side.ensures((points@[j],), #[trigger] signs@[j]),
        decreases n - i,
    {
        let s = side(points[i]);
        signs.push(s);
        i += 1;
    }
    let changes = sign_changes(&signs);
    let mut found: Vec<Crossing> = Vec::new();
    let mut k: usize = 0;
    while k < changes.len()
        invariant
            forall|e: Epoch| side.requires((e,)),
            n == points@.len(),
            signs@.len() == n,
            k <= changes@.len(),
            found@.len() == k,
            forall|j: int|
                0 <= j < changes@.len() ==> is_sign_change(signs@, #[trigger] changes@[j] as int),
            forall|j: int| 0 <= j < k ==> (#[trigger] found@[j]).segment == changes@[j],
            forall|j: int|
                0 <= j < k ==> is_crossing(#[trigger] found@[j], points@, signs@, *tolerance, *side),
        decreases changes@.len() - k,
    {
        let segment = changes[k];
        assert(is_sign_change(signs@, segment as int));
        let whole = Bracket {
            left: points[segment],
            right: points[segment + 1],
            left_side: signs[segment],
        };
        let bracket = whole.bisect(tolerance, side);
        found.push(Crossing { segment, bracket });
        k += 1;
    }
    proof {
        assert(sides_at(*side, points@, signs@));
        assert forall|i: int| #[trigger] is_sign_change(signs@, i) implies exists|k: int|
            0 <= k < found@.len() && (#[trigger] found@[k]).segment == i by {
            assert(changes@.contains(i as usize));
            let k = choose|k: int| 0 <= k < changes@.len() && changes@[k] == i as usize;
            assert(found@[k].segment == i);
        }
        assert(is_search(found@, points@, signs@, *tolerance, *side));
    }
    found
}

/// One step of bisection keeps the crossing and halves the span: for an
/// event function whose sides at the ends of a bracket differ, the bracket
/// narrowed at its middle lies within the old one, again has different
/// sides at its ends, and is at most half as long, rounded up.
pub proof fn lemma_bisection_step(side: spec_fn(int) -> bool, b: Bracket, mid: Epoch)
    requires
        b.is_well_formed(),
        b.width() >= 2,
        side(b.left.nanos()) == b.left_side,
        side(b.right.nanos()) != b.left_side,
        mid.nanos() == b.middle(),
    ensures
        ({
            let n = if side(mid.nanos()) == b.left_side {
                Bracket { left: mid, ..b }
            } else {
                Bracket { right: mid, ..b }
            };
            &&& b.left.nanos() <= n.left.nanos() < n.right.nanos() <= b.right.nanos()
            &&& side(n.left.nanos()) == n.left_side
            &&& side(n.right.nanos()) != n.left_side
            &&& n.width() <= (b.width() + 1) / 2
            &&& n.width() < b.width()
        }),
{
}

} // verus!
