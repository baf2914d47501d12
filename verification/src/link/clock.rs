//! The clock that Link's timing runs on, in microseconds.
use vstd::prelude::*;

use crate::platform::clock::{micros_of_ticks, ticks_of_micros, OptimizedClock};

verus! {

/// The clock of a Link instance: the platform's clock.
#[derive(Clone, Copy, Debug)]
pub struct Clock {
    inner: OptimizedClock,
}

impl Clock {
    /// A clock that starts counting now.
    pub fn new() -> (c: Self) {
        Clock { inner: OptimizedClock::new() }
    }

    /// Microseconds since the clock was created. What this reads depends on
    /// the time at which it is called: nothing is stated of it.
    pub fn micros(&self) -> i64 {
        self.inner.micros()
    }

    /// The clock's raw ticks.
    pub fn ticks(&self) -> u64 {
        self.inner.ticks()
    }

    /// The microseconds that `ticks` ticks last.
    pub fn ticks_to_micros(&self, ticks: u64) -> (micros: i64)
        ensures
            micros == micros_of_ticks(ticks),
    {
        self.inner.ticks_to_micros(ticks)
    }

    /// The ticks that `micros` microseconds last.
    pub fn micros_to_ticks(&self, micros: i64) -> (ticks: u64)
        ensures
            ticks == ticks_of_micros(micros),
    {
        self.inner.micros_to_ticks(micros)
    }
}

impl Default for Clock {
    fn default() -> (c: Self) {
        Clock::new()
    }
}

} // verus!
