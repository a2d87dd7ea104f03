//! Clocks. Every clock reads time as `Nanos` since an origin of its own; the
//! operations of a point in time (`duration_since`, `add`) are those of `Nanos`
//! and saturate, so a clock that goes backwards yields a zero duration.

use vstd::prelude::*;
use crate::nanos::Nanos;
use std::sync::Arc;
use std::sync::atomic::{AtomicU64, Ordering};

verus! {

#[verifier::external_type_specification]
#[verifier::external_body]
pub struct ExInstant(instant::Instant);

#[verifier::external_type_specification]
#[verifier::external_body]
pub struct ExSystemTime(std::time::SystemTime);

/// Relies on instant::Instant::now: a reading of the monotonic timer.
#[verifier::external_body]
fn instant_now() -> (r: instant::Instant) {
    instant::Instant::now()
}

/// Relies on instant::Instant::elapsed: the nanoseconds that passed since
/// `origin` on the monotonic timer.
#[verifier::external_body]
fn nanos_elapsed_since(origin: &instant::Instant) -> (r: u128) {
    origin.elapsed().as_nanos()
}

/// Relies on std::time::SystemTime::now: a reading of the wall clock.
#[verifier::external_body]
fn system_time_now() -> (r: std::time::SystemTime) {
    std::time::SystemTime::now()
}

/// Relies on std::time::SystemTime::duration_since: the nanoseconds from the Unix
/// epoch to `t`, or `None` where `t` lies before it.
#[verifier::external_body]
fn nanos_since_unix_epoch(t: &std::time::SystemTime) -> (r: Option<u128>) {
    match t.duration_since(std::time::UNIX_EPOCH) {
        Ok(d) => Some(d.as_nanos()),
        Err(_) => None,
    }
}

/// A source of time.
pub trait Clock: Clone {
    /// The current time on this clock's own time line.
    fn now(&self) -> Nanos;
}

/// Identifies clocks that run like real time, so that waiting on them makes sense.
pub trait ReasonablyRealtime: Clock {
    /// A reference point at the start of an operation.
    fn reference_point(&self) -> (r: Nanos) {
        self.now()
    }
}

/// The monotonic clock: the time since the clock was made, on a process-monotonic
/// timer. Copies of it share that origin.
#[derive(Clone, Copy, Debug)]
pub struct MonotonicClock {
    origin: instant::Instant,
}

impl MonotonicClock {
    pub fn new() -> (r: MonotonicClock) {
        MonotonicClock { origin: instant_now() }
    }
}

impl Default for MonotonicClock {
    fn default() -> (r: MonotonicClock) {
        MonotonicClock::new()
    }
}

impl Clock for MonotonicClock {
    fn now(&self) -> (r: Nanos) {
        Nanos::from_u128(nanos_elapsed_since(&self.origin))
    }
}

impl ReasonablyRealtime for MonotonicClock {}

/// The wall clock: the time since the Unix epoch. It may move backwards; a time
/// before the epoch reads as zero.
#[derive(Clone, Copy, Debug, Default)]
pub struct SystemClock;

impl SystemClock {
    pub fn new() -> (r: SystemClock) {
        SystemClock
    }
}

impl Clock for SystemClock {
    fn now(&self) -> (r: Nanos) {
        let t = system_time_now();
        match nanos_since_unix_epoch(&t) {
            Some(n) => Nanos::from_u128(n),
            None => Nanos::zero(),
        }
    }
}

impl ReasonablyRealtime for SystemClock {}

/// A clock for tests: time moves only when it is advanced. Clones share the
/// same time, and it can be read and advanced from several threads.
#[derive(Clone, Debug)]
pub struct FakeRelativeClock {
    now: Arc<AtomicU64>,
}

impl FakeRelativeClock {
    /// A fake clock that reads zero.
    pub fn new() -> (r: FakeRelativeClock) {
        FakeRelativeClock { now: Arc::new(AtomicU64::new(0)) }
    }

    /// Moves the clock forward by `by`, saturating at the largest time.
    /// Should other threads advance it in between, each advance counts. After
    /// `u64::MAX` lost races in one call, which other callers cannot cause in any
    /// practical time, the call gives up without moving the clock.
    pub fn advance(&self, by: Nanos) {
        let mut current: u64 = self.now.load(Ordering::Acquire);
        let mut attempts: u64 = 0;
        while attempts < u64::MAX
            decreases u64::MAX - attempts,
        {
            let next = Nanos::new(current).saturating_add(by);
            match self.now.compare_exchange_weak(
                current,
                next.as_u64(),
                Ordering::AcqRel,
                Ordering::Acquire,
            ) {
                Ok(_) => {
                    return ;
                },
                Err(actual) => {
                    current = actual;
                    attempts = attempts + 1;
                },
            }
        }
    }
}

impl Default for FakeRelativeClock {
    fn default() -> (r: FakeRelativeClock) {
        FakeRelativeClock::new()
    }
}

impl Clock for FakeRelativeClock {
    fn now(&self) -> (r: Nanos) {
        Nanos::new(self.now.load(Ordering::Acquire))
    }
}

} // verus!
