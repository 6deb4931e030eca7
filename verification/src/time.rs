//! Durations and epochs as exact integer values, mirroring the
//! `(centuries, nanoseconds)` parts that `hifitime` uses.

use vstd::prelude::*;

verus! {

/// Nanoseconds in one Julian century of 36 525 days.
pub const NANOSECONDS_PER_CENTURY: u64 = 3_155_760_000_000_000_000;

/// Largest century count, in magnitude, that an [`Epoch`] may carry.
pub const EPOCH_CENTURY_LIMIT: i16 = 16_383;

/// A signed span of time: `centuries` whole centuries plus `nanoseconds`
/// into the following century.
#[derive(Clone, Copy, Debug, PartialEq, Eq, Structural)]
pub struct Duration {
    centuries: i16,
    nanoseconds: u64,
}

/// An instant, held as the span since the TAI reference epoch (J1900).
#[derive(Clone, Copy, Debug, PartialEq, Eq, Structural)]
pub struct Epoch {
    tai: Duration,
}

/// What a pair of parts is worth in nanoseconds.
pub open spec fn parts_nanos(centuries: int, nanoseconds: int) -> int {
    centuries * NANOSECONDS_PER_CENTURY + nanoseconds
}

/// Whether a pair of parts is in the normal form that `hifitime` keeps: fewer
/// nanoseconds than a century holds, or the one saturated maximum.
pub open spec fn parts_normal(centuries: i16, nanoseconds: u64) -> bool {
    nanoseconds < NANOSECONDS_PER_CENTURY || (centuries == i16::MAX && nanoseconds
        == NANOSECONDS_PER_CENTURY)
}

/// The text that `hifitime` prints for the duration with the given parts.
pub uninterp spec fn duration_display(centuries: int, nanoseconds: int) -> Seq<char>;

/// `hifitime::Epoch - hifitime::Epoch`, on epochs built with
/// `Epoch::from_tai_parts`, read back with `Duration::to_parts`.
///
/// Claimed: for parts with fewer nanoseconds than a century holds, whose
/// century counts differ by less than 32 768, the result is in normal form
/// and is the exact difference. Outside that range the subtraction
/// saturates and nothing is claimed.
#[verifier::external_body]
fn tai_difference(later: (i16, u64), earlier: (i16, u64)) -> (d: (i16, u64))
    requires
        later.1 < NANOSECONDS_PER_CENTURY,
        earlier.1 < NANOSECONDS_PER_CENTURY,
    ensures
        -32767 <= later.0 - earlier.0 <= 32767 ==> parts_normal(d.0, d.1) && parts_nanos(
            d.0 as int,
            d.1 as int,
        ) == parts_nanos(later.0 as int, later.1 as int) - parts_nanos(
            earlier.0 as int,
            earlier.1 as int,
        ),
{
    let a = hifitime::Epoch::from_tai_parts(later.0, later.1);
    let b = hifitime::Epoch::from_tai_parts(earlier.0, earlier.1);
    (a - b).to_parts()
}

/// `hifitime::Epoch + hifitime::Duration`, on a TAI epoch built with
/// `Epoch::from_tai_parts` and a duration built with `Duration::from_parts`,
/// read back with `Epoch::to_tai_duration` and `Duration::to_parts`.
///
/// Claimed: for an epoch with fewer nanoseconds than a century holds and a
/// duration in normal form, whose century counts sum to a value from
/// -32 768 to 32 766, the result is in normal form and is the exact sum.
/// Outside that range the addition saturates and nothing is claimed.
#[verifier::external_body]
fn tai_advance(start: (i16, u64), span: (i16, u64)) -> (e: (i16, u64))
    requires
        start.1 < NANOSECONDS_PER_CENTURY,
        parts_normal(span.0, span.1),
    ensures
        -32768 <= start.0 + span.0 <= 32766 ==> parts_normal(e.0, e.1) && parts_nanos(
            e.0 as int,
            e.1 as int,
        ) == parts_nanos(start.0 as int, start.1 as int) + parts_nanos(
            span.0 as int,
            span.1 as int,
        ),
{
    let a = hifitime::Epoch::from_tai_parts(start.0, start.1);
    let b = hifitime::Duration::from_parts(span.0, span.1);
    (a + b).to_tai_duration().to_parts()
}

/// `Display` of `hifitime::Duration`, on a duration built with
/// `Duration::from_parts`. Claimed: the text depends on the parts alone.
#[verifier::external_body]
fn duration_text(centuries: i16, nanoseconds: u64) -> (s: String)
    ensures
        s@ == duration_display(centuries as int, nanoseconds as int),
{
    format!("{}", hifitime::Duration::from_parts(centuries, nanoseconds))
}

impl Duration {
    #[verifier::type_invariant]
    pub closed spec fn is_normal(self) -> bool {
        parts_normal(self.centuries, self.nanoseconds)
    }

    /// The century part.
    pub closed spec fn centuries_part(self) -> i16 {
        self.centuries
    }

    /// The nanosecond part.
    pub closed spec fn nanoseconds_part(self) -> u64 {
        self.nanoseconds
    }

    /// The span in nanoseconds.
    pub open spec fn nanos(self) -> int {
        parts_nanos(self.centuries_part() as int, self.nanoseconds_part() as int)
    }

    /// The span of the given parts, if they are in normal form.
    pub fn from_parts(centuries: i16, nanoseconds: u64) -> (r: Option<Duration>)
        ensures
            r.is_some() == parts_normal(centuries, nanoseconds),
            r matches Some(d) ==> d.centuries_part() == centuries && d.nanoseconds_part()
                == nanoseconds,
    {
        if nanoseconds < NANOSECONDS_PER_CENTURY || (centuries == i16::MAX && nanoseconds
            == NANOSECONDS_PER_CENTURY) {
            Some(Duration { centuries, nanoseconds })
        } else {
            None
        }
    }

    /// The parts, as `hifitime::Duration::to_parts` gives them.
    pub fn to_parts(&self) -> (r: (i16, u64))
        ensures
            r.0 == self.centuries_part(),
            r.1 == self.nanoseconds_part(),
            parts_normal(r.0, r.1),
    {
        proof {
            use_type_invariant(self);
        }
        (self.centuries, self.nanoseconds)
    }
}

/// Normal parts are ordered by their century counts first: a span with fewer
/// centuries is worth fewer nanoseconds.
pub proof fn lemma_parts_order(c1: i16, n1: u64, c2: i16, n2: u64)
    requires
        parts_normal(c1, n1),
        parts_normal(c2, n2),
    ensures
        c1 < c2 ==> parts_nanos(c1 as int, n1 as int) < parts_nanos(c2 as int, n2 as int),
        c1 == c2 ==> (parts_nanos(c1 as int, n1 as int) < parts_nanos(c2 as int, n2 as int) <==> n1
            < n2),
        parts_nanos(c1 as int, n1 as int) == parts_nanos(c2 as int, n2 as int) ==> c1 == c2 && n1
            == n2,
{
}

impl Duration {
    /// The empty span.
    pub fn zero() -> (d: Duration)
        ensures
            d.nanos() == 0,
            d.centuries_part() == 0,
            d.nanoseconds_part() == 0,
            d.is_normal(),
    {
        Duration { centuries: 0, nanoseconds: 0 }
    }

    /// The longest span that can be held, `hifitime::Duration::MAX`.
    pub fn max_value() -> (d: Duration)
        ensures
            d.centuries_part() == i16::MAX,
            d.nanoseconds_part() == NANOSECONDS_PER_CENTURY,
    {
        Duration { centuries: i16::MAX, nanoseconds: NANOSECONDS_PER_CENTURY }
    }

    /// Whether the span is longer than nothing.
    pub fn is_positive(&self) -> (r: bool)
        ensures
            r == (self.nanos() > 0),
    {
        proof {
            use_type_invariant(self);
        }
        self.centuries > 0 || (self.centuries == 0 && self.nanoseconds > 0)
    }

    /// Whether this span is strictly shorter than `other`, signs included.
    pub fn is_less_than(&self, other: &Duration) -> (r: bool)
        ensures
            r == (self.nanos() < other.nanos()),
    {
        proof {
            use_type_invariant(self);
            use_type_invariant(other);
            lemma_parts_order(
                self.centuries,
                self.nanoseconds,
                other.centuries,
                other.nanoseconds,
            );
            lemma_parts_order(
                other.centuries,
                other.nanoseconds,
                self.centuries,
                self.nanoseconds,
            );
        }
        self.centuries < other.centuries || (self.centuries == other.centuries
            && self.nanoseconds < other.nanoseconds)
    }

    /// Half of a span that is not negative, rounded down to the nanosecond.
    pub fn half(&self) -> (r: Option<Duration>)
        ensures
            r.is_some() == (self.nanos() >= 0),
            r matches Some(h) ==> h.nanos() == self.nanos() / 2,
    {
        proof {
            use_type_invariant(self);
        }
        if self.centuries < 0 {
            return None;
        }
        let centuries: i16 = self.centuries / 2;
        let carry: u64 = if self.centuries % 2 == 1 {
            NANOSECONDS_PER_CENTURY / 2
        } else {
            0
        };
        let nanoseconds: u64 = self.nanoseconds / 2 + carry;
        if nanoseconds >= NANOSECONDS_PER_CENTURY {
            Some(
                Duration {
                    centuries: centuries + 1,
                    nanoseconds: nanoseconds - NANOSECONDS_PER_CENTURY,
                },
            )
        } else {
            Some(Duration { centuries, nanoseconds })
        }
    }

    /// The span as `hifitime` prints it.
    pub fn text(&self) -> (s: String)
        ensures
            s@ == duration_display(
                self.centuries_part() as int,
                self.nanoseconds_part() as int,
            ),
    {
        duration_text(self.centuries, self.nanoseconds)
    }
}

impl Epoch {
    #[verifier::type_invariant]
    pub closed spec fn is_valid(self) -> bool {
        &&& -EPOCH_CENTURY_LIMIT <= self.tai.centuries <= EPOCH_CENTURY_LIMIT
        &&& self.tai.nanoseconds < NANOSECONDS_PER_CENTURY
    }

    /// The span since the TAI reference epoch.
    pub closed spec fn tai_span(self) -> Duration {
        self.tai
    }

    /// Nanoseconds since the TAI reference epoch.
    pub open spec fn nanos(self) -> int {
        self.tai_span().nanos()
    }

    /// Whether `nanos` nanoseconds since the reference lie in the range of
    /// instants that an epoch can hold.
    pub open spec fn in_range(nanos: int) -> bool {
        -EPOCH_CENTURY_LIMIT * NANOSECONDS_PER_CENTURY <= nanos < (EPOCH_CENTURY_LIMIT + 1)
            * NANOSECONDS_PER_CENTURY
    }

    /// The reference epoch itself.
    pub fn reference() -> (e: Epoch)
        ensures
            e.nanos() == 0,
    {
        Epoch { tai: Duration { centuries: 0, nanoseconds: 0 } }
    }

    /// The epoch with the given TAI parts, if the century count is within
    /// [`EPOCH_CENTURY_LIMIT`] and the nanoseconds do not fill a century.
    pub fn from_tai_parts(centuries: i16, nanoseconds: u64) -> (r: Option<Epoch>)
        ensures
            r.is_some() == (-EPOCH_CENTURY_LIMIT <= centuries <= EPOCH_CENTURY_LIMIT && nanoseconds
                < NANOSECONDS_PER_CENTURY),
            r matches Some(e) ==> e.nanos() == parts_nanos(centuries as int, nanoseconds as int),
    {
        if -EPOCH_CENTURY_LIMIT <= centuries && centuries <= EPOCH_CENTURY_LIMIT && nanoseconds
            < NANOSECONDS_PER_CENTURY {
            Some(Epoch { tai: Duration { centuries, nanoseconds } })
        } else {
            None
        }
    }

    /// The TAI parts, as `hifitime` would hold them.
    pub fn to_tai_parts(&self) -> (r: (i16, u64))
        ensures
            parts_nanos(r.0 as int, r.1 as int) == self.nanos(),
            -EPOCH_CENTURY_LIMIT <= r.0 <= EPOCH_CENTURY_LIMIT,
            r.1 < NANOSECONDS_PER_CENTURY,
    {
        proof {
            use_type_invariant(self);
        }
        (self.tai.centuries, self.tai.nanoseconds)
    }

    /// Whether this epoch comes strictly before `other`.
    pub fn is_before(&self, other: &Epoch) -> (r: bool)
        ensures
            r == (self.nanos() < other.nanos()),
    {
        proof {
            use_type_invariant(self);
            use_type_invariant(other);
        }
        self.tai.is_less_than(&other.tai)
    }

    /// The span from `earlier` to this epoch, negative if `earlier` is later.
    pub fn since(&self, earlier: &Epoch) -> (d: Duration)
        ensures
            d.nanos() == self.nanos() - earlier.nanos(),
            d.is_normal(),
    {
        proof {
            use_type_invariant(self);
            use_type_invariant(earlier);
        }
        let (centuries, nanoseconds) = tai_difference(
            (self.tai.centuries, self.tai.nanoseconds),
            (earlier.tai.centuries, earlier.tai.nanoseconds),
        );
        Duration { centuries, nanoseconds }
    }

    /// This epoch moved by `span`, or `None` where that instant lies outside
    /// the range an epoch can hold.
    pub fn checked_add(&self, span: &Duration) -> (r: Option<Epoch>)
        ensures
            r.is_some() == Epoch::in_range(self.nanos() + span.nanos()),
            r matches Some(e) ==> e.nanos() == self.nanos() + span.nanos(),
    {
        proof {
            use_type_invariant(self);
            use_type_invariant(span);
        }
        let total: i32 = self.tai.centuries as i32 + span.centuries as i32;
        if total < -(EPOCH_CENTURY_LIMIT as i32) - 1 || total > EPOCH_CENTURY_LIMIT as i32 {
            return None;
        }
        let (centuries, nanoseconds) = tai_advance(
            (self.tai.centuries, self.tai.nanoseconds),
            (span.centuries, span.nanoseconds),
        );
        if -EPOCH_CENTURY_LIMIT <= centuries && centuries <= EPOCH_CENTURY_LIMIT && nanoseconds
            < NANOSECONDS_PER_CENTURY {
            Some(Epoch { tai: Duration { centuries, nanoseconds } })
        } else {
            None
        }
    }
}

/// Durations in normal form that last the same time are the same value.
pub proof fn lemma_duration_unique_by_nanos(a: Duration, b: Duration)
    requires
        a.is_normal(),
        b.is_normal(),
        a.nanos() == b.nanos(),
    ensures
        a == b,
{
    lemma_parts_order(a.centuries, a.nanoseconds, b.centuries, b.nanoseconds);
}

/// Durations with the same parts are the same value.
pub proof fn lemma_duration_unique(a: Duration, b: Duration)
    requires
        a.centuries_part() == b.centuries_part(),
        a.nanoseconds_part() == b.nanoseconds_part(),
    ensures
        a == b,
{
}

/// Every epoch lies in the range that epochs can hold.
pub proof fn lemma_epoch_in_range(e: Epoch)
    requires
        e.is_valid(),
    ensures
        Epoch::in_range(e.nanos()),
{
}

/// Two epochs at the same instant are the same value.
pub proof fn lemma_epoch_unique(a: Epoch, b: Epoch)
    requires
        a.is_valid(),
        b.is_valid(),
        a.nanos() == b.nanos(),
    ensures
        a == b,
{
    lemma_parts_order(
        a.tai.centuries,
        a.tai.nanoseconds,
        b.tai.centuries,
        b.tai.nanoseconds,
    );
}

} // verus!
