//! The pace of the ticks.

use vstd::prelude::*;

verus! {

/// The time from one tick to the next, in nanoseconds.
pub const TICK_NANOS: u64 = 10_000_000;

/// Keeps the ticks on a fixed schedule. The deadline of each tick is the
/// deadline of the one before plus the period, whatever time the work took: a
/// tick that ran late is followed by ticks that do not wait, until the
/// schedule is caught up with. Times are nanoseconds on a clock that never
/// runs backwards.
#[derive(Clone, Copy, Debug)]
pub struct Pacer {
    next: u64,
}

/// `a + b`, or the largest `u64` if the sum exceeds it.
pub open spec fn capped_sum(a: u64, b: u64) -> u64 {
    if a + b > u64::MAX {
        u64::MAX
    } else {
        (a + b) as u64
    }
}

impl Pacer {
    /// The deadline of the tick at hand.
    pub closed spec fn deadline(&self) -> u64 {
        self.next
    }

    /// A schedule whose first tick starts at `now`.
    pub fn new(now: u64) -> (pacer: Pacer)
        ensures
            pacer.deadline() == capped_sum(now, TICK_NANOS),
    {
        Pacer { next: now.saturating_add(TICK_NANOS) }
    }

    /// Closes the tick at hand, whose work was done at `now`: says how long
    /// to sleep, which is the time left to the deadline if there is any, and
    /// moves the deadline on by one period.
    pub fn pause(&mut self, now: u64) -> (sleep: u64)
        ensures
            sleep == (if now < old(self).deadline() {
                old(self).deadline() - now
            } else {
                0
            }),
            final(self).deadline() == capped_sum(old(self).deadline(), TICK_NANOS),
    {
        let sleep: u64 = if now < self.next {
            self.next - now
        } else {
            0
        };
        self.next = self.next.saturating_add(TICK_NANOS);
        sleep
    }
}

} // verus!
