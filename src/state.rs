//! State stores, and the rate limiter that binds an engine, a store and a clock.

use vstd::prelude::*;
use crate::clock::{Clock, MonotonicClock};
use crate::gcra::{Gcra, GcraError, conforms, earliest_allowed, gcra_outcome};
use crate::nanos::{Nanos, clamp};
use crate::quota::Quota;
use std::sync::atomic::{AtomicU64, Ordering};

verus! {

/// A way for rate limiters to keep state: one `Nanos` per key.
///
/// A direct store has one state only, and `Key = ()`. A keyed store keeps one
/// state per key.
pub trait StateStore: Sized {
    /// The type of key that the store can tell apart.
    type Key;

    /// What the store is made from.
    type CreationParameters;

    /// Updates the state at `key` with `f`.
    ///
    /// `f` takes the state it is shown and returns either `Err`, in which case
    /// nothing is stored, or a value and the state to store. The store only
    /// stores it if the state was not changed since `f` was shown it; else it
    /// shows `f` the fresh state and tries again. So what comes back is what `f`
    /// returned on some state the key held.
    fn measure_and_replace<T, F, E>(&self, key: Self::Key, f: F) -> (r: Result<T, E>) where
        F: Fn(Nanos) -> Result<(T, Nanos), E>,
        requires
            forall|x: Nanos| #[trigger] f.requires((x,)),
        ensures
            r is Ok ==> exists|prev: u64, out: Result<(T, Nanos), E>|
                f.ensures((Nanos(prev),), out) && out is Ok && out->Ok_0.0 == r->Ok_0,
            r matches Err(e) ==> exists|prev: u64| f.ensures((Nanos(prev),), Err(e)),
    ;

    /// A new store: every key starts out as never used.
    fn new(parameters: Self::CreationParameters) -> Self;
}

/// The state of a direct rate limiter: one atomic cell, updated without locks.
#[derive(Debug)]
pub struct InMemoryState {
    state: AtomicU64,
}

impl InMemoryState {
    /// A cell that has never been used.
    pub fn new_unused() -> (r: InMemoryState) {
        InMemoryState { state: AtomicU64::new(0) }
    }
}

impl Default for InMemoryState {
    fn default() -> (r: InMemoryState) {
        InMemoryState::new_unused()
    }
}

impl StateStore for InMemoryState {
    type Key = ();

    type CreationParameters = ();

    /// A compare-and-swap loop on the cell. Each lost race means that another
    /// caller stored a state; after `u64::MAX` of them in one call, which other
    /// callers cannot commit in any practical time, the last decision is
    /// returned without being stored.
    fn measure_and_replace<T, F, E>(&self, key: (), f: F) -> (r: Result<T, E>) where
        F: Fn(Nanos) -> Result<(T, Nanos), E>,
    {
        let mut prev: u64 = self.state.load(Ordering::Acquire);
        let mut attempts: u64 = 0;
        loop
            invariant
                forall|x: Nanos| #[trigger] f.requires((x,)),
            decreases u64::MAX - attempts,
        {
            let shown = Nanos::new(prev);
            let decision = f(shown);
            let ghost out = decision;
            match decision {
                Err(e) => {
                    assert(f.ensures((shown,), Err(e)));
                    return Err(e);
                },
                Ok((v, next)) => {
                    assert(f.ensures((Nanos(prev),), out));
                    if attempts == u64::MAX {
                        return Ok(v);
                    }
                    match self.state.compare_exchange_weak(
                        prev,
                        next.as_u64(),
                        Ordering::AcqRel,
                        Ordering::Acquire,
                    ) {
                        Ok(_) => {
                            return Ok(v);
                        },
                        Err(actual) => {
                            prev = actual;
                            attempts = attempts + 1;
                        },
                    }
                },
            }
        }
    }

    fn new(parameters: ()) -> (r: InMemoryState) {
        InMemoryState::new_unused()
    }
}

/// A denial: the cells may conform at `earliest` after the limiter's start
/// `start`, both on the clock that made the decision. A lower bound only: other
/// cells of the same key may push that time later.
#[derive(Clone, Copy, Debug, PartialEq, Eq, Structural)]
pub struct NotUntil {
    pub start: Nanos,
    pub earliest: Nanos,
}

impl NotUntil {
    /// The earliest time, on the clock, at which the denied cells would have
    /// conformed.
    pub fn earliest_possible(&self) -> (r: Nanos)
        ensures
            r@ == clamp(self.start@ + self.earliest@),
    {
        self.start.add(self.earliest)
    }

    /// How long to wait from `from` until `earliest_possible`; zero where it has
    /// already passed.
    pub fn wait_time_from(&self, from: Nanos) -> (r: Nanos)
        ensures
            r@ == clamp(clamp(self.start@ + self.earliest@) - from@),
    {
        self.earliest_possible().duration_since(from)
    }
}

/// More cells were asked for at once than the quota's burst size, given here.
#[derive(Clone, Copy, Debug, PartialEq, Eq, Structural)]
pub struct InsufficientCapacity(pub u32);

/// Why `check_n` refused cells.
#[derive(Clone, Copy, Debug, PartialEq, Eq, Structural)]
pub enum CheckNError {
    /// Too early: wait and try again.
    NotUntil(NotUntil),
    /// More than the burst size: this will never pass.
    InsufficientCapacity(InsufficientCapacity),
}

/// A rate limiter: a GCRA engine, a state store and a clock, with the time on
/// that clock at which the limiter was made. States are kept relative to it.
#[verifier::reject_recursive_types(K)]
pub struct RateLimiter<K, S, C> where S: StateStore<Key = K>, C: Clock {
    state: S,
    gcra: Gcra,
    clock: C,
    start: Nanos,
}

impl<K, S, C> RateLimiter<K, S, C> where S: StateStore<Key = K>, C: Clock {
    /// The engine that the limiter decides with.
    pub closed spec fn engine(self) -> Gcra {
        self.gcra
    }

    /// The time on the clock at which the limiter was made.
    pub closed spec fn started(self) -> Nanos {
        self.start
    }

    /// A limiter over `state` that decides with `gcra` and reads time from a
    /// copy of `clock`, starting now.
    pub fn new(gcra: Gcra, state: S, clock: &C) -> (r: Self)
        ensures
            r.engine() == gcra,
    {
        let start = clock.now();
        let clock = clock.clone();
        RateLimiter { state, clock, gcra, start }
    }

    /// The time on the clock at which the limiter was made.
    pub fn start(&self) -> (r: Nanos)
        ensures
            r == self.started(),
    {
        self.start
    }

    /// The clock the limiter reads time from.
    pub fn clock(&self) -> (r: &C) {
        &self.clock
    }

    /// Checks whether `n` cells at `key` may pass now, and if so records them.
    ///
    /// More cells than the burst size never pass, whatever the state. Otherwise
    /// the answer is the engine's on the time read from the clock and on a state
    /// that the key held.
    pub fn check_n(&self, key: K, n: u32) -> (r: Result<(), CheckNError>)
        ensures
            n > self.engine().burst() ==> r == Err::<(), CheckNError>(
                CheckNError::InsufficientCapacity(InsufficientCapacity(self.engine().burst() as u32)),
            ),
            n <= self.engine().burst() ==> !(r matches Err(CheckNError::InsufficientCapacity(_))),
            r is Ok ==> n <= self.engine().burst() && exists|prev: Nanos, now: Nanos|
                conforms(self.engine().t(), self.engine().burst(), n as int, prev@, now@),
            r matches Err(CheckNError::NotUntil(nu)) ==> nu.start == self.started() && exists|
                prev: Nanos,
                now: Nanos,
            |
                !conforms(self.engine().t(), self.engine().burst(), n as int, prev@, now@)
                    && nu.earliest@ == earliest_allowed(
                    self.engine().t(),
                    self.engine().burst(),
                    n as int,
                    prev@,
                    now@,
                ),
    {
        let burst = self.gcra.burst_size();
        if n > burst {
            return Err(CheckNError::InsufficientCapacity(InsufficientCapacity(burst)));
        }
        let now = self.clock.now().duration_since(self.start);
        let gcra = self.gcra;
        let start = self.start;
        let decide = |tat: Nanos| -> (d: Result<((), Nanos), NotUntil>)
            ensures
                d matches Ok((_, next)) ==> gcra_outcome(
                    gcra.t(),
                    gcra.burst(),
                    n as int,
                    tat@,
                    now@,
                ) == Ok::<Nanos, GcraError>(next),
                d matches Err(nu) ==> nu.start == start && gcra_outcome(
                    gcra.t(),
                    gcra.burst(),
                    n as int,
                    tat@,
                    now@,
                ) == Err::<Nanos, GcraError>(GcraError::NotUntil(nu.earliest)),
            {
                match gcra.test_n_and_update(n, tat, now) {
                    Ok(next) => Ok(((), next)),
                    Err(GcraError::NotUntil(earliest)) => Err(NotUntil { start, earliest }),
                    Err(GcraError::InsufficientCapacity(_)) => Err(NotUntil { start, earliest: tat }),
                }
            };
        match self.state.measure_and_replace(key, decide) {
            Ok(()) => {
                proof {
                    let (p, out) = choose|p: u64, out: Result<((), Nanos), NotUntil>|
                        decide.ensures((Nanos(p),), out) && out is Ok && out->Ok_0.0 == ();
                    assert(decide.ensures((Nanos(p),), out));
                    assert(conforms(gcra.t(), gcra.burst(), n as int, Nanos(p)@, now@));
                }
                Ok(())
            },
            Err(nu) => {
                proof {
                    let p = choose|p: u64| decide.ensures((Nanos(p),), Err::<((), Nanos), NotUntil>(nu));
                    assert(!conforms(gcra.t(), gcra.burst(), n as int, Nanos(p)@, now@));
                }
                Err(CheckNError::NotUntil(nu))
            },
        }
    }

    /// Checks whether one cell at `key` may pass now, and if so records it.
    pub fn check(&self, key: K) -> (r: Result<(), NotUntil>)
        ensures
            r is Ok ==> exists|prev: Nanos, now: Nanos|
                conforms(self.engine().t(), self.engine().burst(), 1, prev@, now@),
            r matches Err(nu) ==> nu.start == self.started() && exists|prev: Nanos, now: Nanos|
                !conforms(self.engine().t(), self.engine().burst(), 1, prev@, now@)
                    && nu.earliest@ == earliest_allowed(
                    self.engine().t(),
                    self.engine().burst(),
                    1,
                    prev@,
                    now@,
                ),
    {
        // The burst size is at least one, so one cell never exceeds it.
        let _burst = self.gcra.burst_size();
        match self.check_n(key, 1) {
            Ok(()) => Ok(()),
            Err(CheckNError::NotUntil(nu)) => Err(nu),
            Err(CheckNError::InsufficientCapacity(_)) => Err(NotUntil { start: self.start, earliest: self.start }),
        }
    }
}

impl<C> RateLimiter<(), InMemoryState, C> where C: Clock {
    /// A direct limiter (one state for the whole limiter) for `quota`, reading
    /// time from `clock`.
    pub fn direct_with_clock(quota: Quota, clock: &C) -> (r: Self)
        ensures
            r.engine().t() == quota.interval(),
            r.engine().burst() == quota.burst(),
    {
        RateLimiter::new(Gcra::new(quota), InMemoryState::new_unused(), clock)
    }
}

impl RateLimiter<(), InMemoryState, MonotonicClock> {
    /// A direct limiter for `quota` on the monotonic clock.
    pub fn direct(quota: Quota) -> (r: Self)
        ensures
            r.engine().t() == quota.interval(),
            r.engine().burst() == quota.burst(),
    {
        RateLimiter::direct_with_clock(quota, &MonotonicClock::new())
    }
}

} // verus!
