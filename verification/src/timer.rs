//! The clock-interrupt bookkeeping.
//!
//! On hardware each tick acknowledges the timer by programming the next
//! deadline through the firmware; the model computes that deadline and
//! counts the ticks.

use vstd::prelude::*;
use crate::config::TIMER_INTERVAL;

verus! {

/// Counts clock interrupts and computes deadlines.
pub struct Timer {
    /// How many ticks have been handled.
    pub ticks: u64,
}

impl Timer {
    /// A timer that has not ticked yet.
    pub fn new() -> (r: Timer)
        ensures
            r.ticks == 0,
    {
        Timer { ticks: 0 }
    }

    /// Handle one clock interrupt at time `now`: count it and return the
    /// deadline to program for the next one.
    pub fn tick(&mut self, now: u64) -> (r: u64)
        requires
            old(self).ticks < u64::MAX,
            now + TIMER_INTERVAL <= u64::MAX,
        ensures
            final(self).ticks == old(self).ticks + 1,
            r == now + TIMER_INTERVAL,
    {
        self.ticks = self.ticks + 1;
        now + TIMER_INTERVAL
    }
}

} // verus!
