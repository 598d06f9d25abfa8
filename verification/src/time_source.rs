//! Time as the replica sees it. The library has no clock of its own:
//! whoever drives it hands the time in, or a clock to read it from, so a run
//! can be replayed exactly.

use vstd::prelude::*;

verus! {

/// A point in time, in nanoseconds since an epoch the caller chooses.
pub type Time = u64;

/// Nanoseconds in one millisecond.
pub const NANOS_PER_MILLI: u64 = 1_000_000;

/// A clock. What it answers is up to the clock: the wall clock of the
/// machine, or a clock that a test sets.
pub trait TimeSource {
    /// The current time.
    fn get_relative_time(&self) -> Time;
}

/// A clock that stands still until it is told the time: the clock of a run
/// that must be repeatable.
#[derive(Clone, Copy, Debug, PartialEq, Eq, Structural)]
pub struct FastForwardTimeSource {
    pub now: Time,
}

impl FastForwardTimeSource {
    /// A clock that shows time 0.
    pub fn new() -> (clock: Self)
        ensures
            clock.now == 0,
    {
        FastForwardTimeSource { now: 0 }
    }

    /// Sets the clock to `time`, unless that lies in its past; says whether
    /// it did.
    pub fn set_time(&mut self, time: Time) -> (set: bool)
        ensures
            set == (time >= old(self).now),
            final(self).now == if set {
                time
            } else {
                old(self).now
            },
    {
        if time >= self.now {
            self.now = time;
            true
        } else {
            false
        }
    }
}

impl TimeSource for FastForwardTimeSource {
    fn get_relative_time(&self) -> (time: Time)
        ensures
            time == self.now,
    {
        self.now
    }
}

/// Nanoseconds elapsed from `earlier` to `later`; zero when `later` is not
/// after `earlier`.
pub open spec fn elapsed_between(earlier: Time, later: Time) -> u64 {
    if later >= earlier {
        (later - earlier) as u64
    } else {
        0
    }
}

/// Nanoseconds elapsed from `earlier` to `later`, never negative.
pub fn elapsed(earlier: Time, later: Time) -> (nanos: u64)
    ensures
        nanos == elapsed_between(earlier, later),
{
    if later >= earlier {
        later - earlier
    } else {
        0
    }
}

/// Whether at least `delay_ms` milliseconds lie between `since` and `now`.
pub open spec fn delay_elapsed(since: Time, now: Time, delay_ms: u64) -> bool {
    now >= since && now - since >= delay_ms * NANOS_PER_MILLI
}

/// Decides whether `delay_ms` milliseconds have passed since `since`.
pub fn has_delay_elapsed(since: Time, now: Time, delay_ms: u64) -> (passed: bool)
    ensures
        passed == delay_elapsed(since, now, delay_ms),
{
    if now < since {
        return false;
    }
    let waited: u64 = now - since;
    // A delay that does not fit in 64 bits of nanoseconds can never elapse.
    match delay_ms.checked_mul(NANOS_PER_MILLI) {
        Some(delay_nanos) => waited >= delay_nanos,
        None => false,
    }
}

} // verus!
