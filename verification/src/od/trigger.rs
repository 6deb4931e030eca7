//! The trigger that switches a filter to extended mode once enough
//! measurements in a row have passed the residual test, and back to
//! classical mode after a gap in the measurements.

use crate::time::{Duration, Epoch};
use vstd::prelude::*;

verus! {

/// The trigger `{num_msr, disable_time, within_sigma}` and its state.
#[derive(Clone, Copy, Debug, PartialEq, Eq)]
pub struct EkfTrigger {
    /// How many measurements in a row must pass before the filter is
    /// extended.
    pub num_msr: usize,
    /// The gap between two measurements beyond which the filter goes back
    /// to classical mode.
    pub disable_time: Duration,
    /// The bound on the residual ratio of a measurement that passes, as a
    /// binary64 bit pattern.
    pub within_sigma: u64,
    /// The epoch of the measurement seen last.
    pub prev_msr: Option<Epoch>,
    /// How many measurements in a row have passed, counted up to `num_msr`.
    pub passed: usize,
    /// Whether the filter is to run in extended mode.
    pub armed: bool,
}

impl EkfTrigger {
    /// Whether the measurement at `epoch` comes after a gap: more than
    /// `disable_time` after the measurement before it.
    pub open spec fn gap_before(self, epoch: Epoch) -> bool {
        match self.prev_msr {
            Some(prev) => epoch.nanos() - prev.nanos() > self.disable_time.nanos(),
            None => false,
        }
    }

    /// The count of passes in a row once the measurement at `epoch` is in:
    /// a gap and a failed test start the count again.
    pub open spec fn passes_after(self, epoch: Epoch, within: bool) -> int {
        let carried: int = if self.gap_before(epoch) {
            0
        } else {
            self.passed as int
        };
        if !within {
            0
        } else if carried < self.num_msr {
            carried + 1
        } else {
            carried
        }
    }

    /// Whether the trigger is armed once the measurement at `epoch` is in:
    /// it stays armed unless a gap came before, and it becomes armed when
    /// the count of passes reaches `num_msr`.
    pub open spec fn armed_after(self, epoch: Epoch, within: bool) -> bool {
        (self.armed && !self.gap_before(epoch)) || self.passes_after(epoch, within)
            >= self.num_msr
    }

    /// The trigger once the measurement at `epoch` is in.
    pub open spec fn after(self, epoch: Epoch, within: bool) -> EkfTrigger {
        EkfTrigger {
            prev_msr: Some(epoch),
            passed: self.passes_after(epoch, within) as usize,
            armed: self.armed_after(epoch, within),
            ..self
        }
    }

    /// The invariant of a trigger: it counts no further than `num_msr`.
    pub open spec fn is_well_formed(self) -> bool {
        self.passed <= self.num_msr
    }

    /// A trigger that has seen no measurement.
    pub fn new(num_msr: usize, disable_time: Duration, within_sigma: u64) -> (t: EkfTrigger)
        ensures
            t == (EkfTrigger {
                num_msr,
                disable_time,
                within_sigma,
                prev_msr: None,
                passed: 0,
                armed: false,
            }),
            t.is_well_formed(),
    {
        EkfTrigger { num_msr, disable_time, within_sigma, prev_msr: None, passed: 0, armed: false }
    }

    /// Takes in the measurement at `epoch`, whose residual ratio was
    /// `within` the bound or not, and says whether the filter is to run in
    /// extended mode from here on.
    pub fn observe(&mut self, epoch: Epoch, within: bool) -> (extended: bool)
        ensures
            *final(self) == old(self).after(epoch, within),
            extended == final(self).armed,
            old(self).is_well_formed() ==> final(self).is_well_formed(),
            old(self).gap_before(epoch) && old(self).num_msr > 1 ==> !extended,
    {
        let gap = match self.prev_msr {
            Some(prev) => self.disable_time.is_less_than(&epoch.since(&prev)),
            None => false,
        };
        if gap {
            self.passed = 0;
            self.armed = false;
        }
        if !within {
            self.passed = 0;
        } else if self.passed < self.num_msr {
            self.passed = self.passed + 1;
        }
        if self.passed >= self.num_msr {
            self.armed = true;
        }
        self.prev_msr = Some(epoch);
        self.armed
    }
}

/// The trigger after the measurements `events`, each an epoch and the
/// outcome of its residual test, have come in one after the other.
pub open spec fn replay(start: EkfTrigger, events: Seq<(Epoch, bool)>) -> EkfTrigger
    decreases events.len(),
{
    if events.len() == 0 {
        start
    } else {
        replay(start, events.drop_last()).after(events.last().0, events.last().1)
    }
}

/// Whether measurement `i` comes more than `disable_time` after the one
/// before it.
pub open spec fn gap_at(events: Seq<(Epoch, bool)>, i: int, disable_time: Duration) -> bool {
    events[i].0.nanos() - events[i - 1].0.nanos() > disable_time.nanos()
}

/// Whether the `count` measurements from `first` on all passed, and no gap
/// has come between any two measurements from `first` to the end.
pub open spec fn run_from(
    events: Seq<(Epoch, bool)>,
    first: int,
    count: int,
    disable_time: Duration,
) -> bool {
    &&& 0 <= first
    &&& first + count <= events.len()
    &&& forall|i: int| first <= i < first + count ==> (#[trigger] events[i]).1
    &&& forall|i: int| first < i < events.len() ==> !#[trigger] gap_at(events, i, disable_time)
}

/// What holds of a trigger that has seen `events` from new.
pub open spec fn tracks(t: EkfTrigger, events: Seq<(Epoch, bool)>) -> bool {
    &&& t.prev_msr == (if events.len() == 0 {
        None
    } else {
        Some(events.last().0)
    })
    &&& t.passed <= t.num_msr
    &&& run_from(events, events.len() - t.passed, t.passed as int, t.disable_time)
    &&& t.armed ==> exists|first: int| #[trigger]
        run_from(events, first, t.num_msr as int, t.disable_time)
}

/// A trigger is armed only after `num_msr` measurements in a row have
/// passed with no gap since: whatever measurements a new trigger has seen,
/// if it is armed then there is such a run among them, and no two
/// measurements from the start of the run on lie further apart than
/// `disable_time`.
pub proof fn lemma_armed_after_run(
    num_msr: usize,
    disable_time: Duration,
    within_sigma: u64,
    events: Seq<(Epoch, bool)>,
)
    ensures
        ({
            let start = EkfTrigger {
                num_msr,
                disable_time,
                within_sigma,
                prev_msr: None,
                passed: 0,
                armed: false,
            };
            let t = replay(start, events);
            &&& t.num_msr == num_msr
            &&& t.disable_time == disable_time
            &&& tracks(t, events)
        }),
    decreases events.len(),
{
    let start = EkfTrigger {
        num_msr,
        disable_time,
        within_sigma,
        prev_msr: None,
        passed: 0,
        armed: false,
    };
    if events.len() == 0 {
        assert(run_from(events, 0, 0, disable_time));
    } else {
        let earlier = events.drop_last();
        let e = events.last();
        lemma_armed_after_run(num_msr, disable_time, within_sigma, earlier);
        let s = replay(start, earlier);
        let t = s.after(e.0, e.1);
        let n = events.len() as int;
        assert(forall|i: int| 0 <= i < n - 1 ==> events[i] == earlier[i]);
        let gap = s.gap_before(e.0);
        if earlier.len() > 0 {
            assert(gap == gap_at(events, n - 1, disable_time));
        }
        assert forall|first: int, count: int|
            run_from(earlier, first, count, disable_time) && !gap implies #[trigger] run_from(
            events,
            first,
            count,
            disable_time,
        ) by {
            assert forall|i: int| first < i < n implies !#[trigger] gap_at(
                events,
                i,
                disable_time,
            ) by {
                if i < n - 1 {
                    assert(!gap_at(earlier, i, disable_time));
                }
            }
        }
        assert(run_from(events, n - t.passed, t.passed as int, disable_time)) by {
            if t.passed == 0 {
            } else if gap {
                assert(t.passed == 1);
            } else {
                assert(run_from(events, (n - 1) - s.passed, s.passed as int, disable_time));
                if t.passed == s.passed {
                    assert(s.passed == num_msr);
                    assert(e.1);
                } else {
                    assert(t.passed == s.passed + 1);
                }
            }
        }
        if t.armed {
            if t.passed >= num_msr {
                assert(run_from(events, n - t.passed, num_msr as int, disable_time));
            } else {
                assert(s.armed && !gap);
                let first = choose|first: int| #[trigger]
                    run_from(earlier, first, num_msr as int, disable_time);
                assert(run_from(events, first, num_msr as int, disable_time));
            }
        }
        assert(t.num_msr == num_msr && t.disable_time == disable_time);
        assert(t.armed ==> exists|first: int| #[trigger]
            run_from(events, first, t.num_msr as int, t.disable_time));
    }
}

} // verus!
