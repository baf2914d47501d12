//! High-resolution monotonic clocks, counting microseconds since they were
//! made. A clock's ticks are its microseconds.
use vstd::prelude::*;

verus! {

/// `std::time::Instant`: a moment of the system's monotonic clock.
#[verifier::external_type_specification]
#[verifier::external_body]
pub struct ExInstant(std::time::Instant);

/// Calls `std::time::Instant::now`: the current moment. Nothing is stated
/// of it: it is the time.
#[verifier::external_body]
fn instant_now() -> (now: std::time::Instant) {
    std::time::Instant::now()
}

/// Calls `std::time::Instant::elapsed`: the time since `start`. Nothing is
/// stated of it: it depends on the time.
#[verifier::external_body]
fn instant_elapsed(start: &std::time::Instant) -> (d: std::time::Duration) {
    start.elapsed()
}

/// Calls `std::time::Duration::as_micros`: the whole microseconds of `d`.
/// Durations are opaque here, so nothing is stated of the number.
#[verifier::external_body]
fn duration_as_micros(d: &std::time::Duration) -> (micros: u128) {
    d.as_micros()
}

/// Ticks as microseconds: the same bits, read as a signed number.
pub open spec fn micros_of_ticks(ticks: u64) -> i64 {
    ticks as i64
}

/// Microseconds as ticks: the same bits, read as an unsigned number.
pub open spec fn ticks_of_micros(micros: i64) -> u64 {
    micros as u64
}

/// Converting ticks to microseconds and back gives the same ticks, and the
/// other way round.
pub proof fn lemma_tick_conversions_roundtrip(ticks: u64, micros: i64)
    ensures
        ticks_of_micros(micros_of_ticks(ticks)) == ticks,
        micros_of_ticks(ticks_of_micros(micros)) == micros,
{
    assert((ticks as i64) as u64 == ticks) by (bit_vector);
    assert((micros as u64) as i64 == micros) by (bit_vector);
}

/// A clock: microseconds since some moment, and ticks that count them.
pub trait ClockTrait {
    /// The current time in microseconds since some reference point.
    fn micros(&self) -> i64;

    /// The current time in ticks.
    fn ticks(&self) -> u64;

    /// Ticks as microseconds.
    fn ticks_to_micros(&self, ticks: u64) -> (micros: i64)
        ensures
            micros == micros_of_ticks(ticks),
    ;

    /// Microseconds as ticks.
    fn micros_to_ticks(&self, micros: i64) -> (ticks: u64)
        ensures
            ticks == ticks_of_micros(micros),
    ;
}

/// A clock on the system's monotonic clock, counting from when it was made.
#[derive(Clone, Copy, Debug)]
pub struct SafeClock {
    start_instant: std::time::Instant,
}

impl SafeClock {
    pub fn new() -> (c: Self) {
        SafeClock { start_instant: instant_now() }
    }
}

impl Default for SafeClock {
    fn default() -> (c: Self) {
        SafeClock::new()
    }
}

impl ClockTrait for SafeClock {
    fn micros(&self) -> i64 {
        let elapsed = instant_elapsed(&self.start_instant);
        let micros = duration_as_micros(&elapsed);
        micros as i64
    }

    fn ticks(&self) -> u64 {
        self.micros_to_ticks(self.micros())
    }

    fn ticks_to_micros(&self, ticks: u64) -> (micros: i64) {
        ticks as i64
    }

    fn micros_to_ticks(&self, micros: i64) -> (ticks: u64) {
        micros as u64
    }
}

/// The clock the library uses: the safe clock.
#[derive(Clone, Copy, Debug)]
pub struct OptimizedClock {
    inner: SafeClock,
}

impl OptimizedClock {
    pub fn new() -> (c: Self) {
        OptimizedClock { inner: SafeClock::new() }
    }

    pub fn micros(&self) -> i64 {
        self.inner.micros()
    }

    pub fn ticks(&self) -> u64 {
        self.inner.ticks()
    }

    pub fn ticks_to_micros(&self, ticks: u64) -> (micros: i64)
        ensures
            micros == micros_of_ticks(ticks),
    {
        self.inner.ticks_to_micros(ticks)
    }

    pub fn micros_to_ticks(&self, micros: i64) -> (ticks: u64)
        ensures
            ticks == ticks_of_micros(micros),
    {
        self.inner.micros_to_ticks(micros)
    }
}

impl Default for OptimizedClock {
    fn default() -> (c: Self) {
        OptimizedClock::new()
    }
}

} // verus!
