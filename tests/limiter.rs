use governor::clock::{Clock, FakeRelativeClock, MonotonicClock, ReasonablyRealtime, SystemClock};
use governor::gcra::{Gcra, GcraError};
use governor::keyed::{KeyedRateLimiter, KeyedStateStore};
use governor::nanos::Nanos;
use governor::quota::Quota;
use governor::state::{CheckNError, InMemoryState, InsufficientCapacity, RateLimiter, StateStore};

const MS: u64 = 1_000_000;

fn ten_per_second() -> Quota {
    Quota::per_second(10).unwrap()
}

#[test]
fn nanos_saturates() {
    let max = Nanos::max_value();
    assert_eq!(max.saturating_add(Nanos::new(1)), max);
    assert_eq!(Nanos::new(3).saturating_sub(Nanos::new(5)), Nanos::zero());
    assert_eq!(Nanos::new(5).saturating_sub(Nanos::new(3)).as_u64(), 2);
    assert_eq!(Nanos::new(u64::MAX / 2).saturating_mul(3), max);
    assert_eq!(Nanos::new(7).saturating_mul(6).as_u64(), 42);
    assert_eq!(Nanos::from_u128(u128::MAX), max);
    assert_eq!(Nanos::from_u128(12).as_u64(), 12);
}

#[test]
fn duration_since_is_zero_when_time_goes_backwards() {
    let earlier = Nanos::new(500);
    let later = Nanos::new(200);
    assert_eq!(later.duration_since(earlier), Nanos::zero());
    assert_eq!(earlier.duration_since(earlier), Nanos::zero());
    assert_eq!(earlier.duration_since(later).as_u64(), 300);
    assert_eq!(Nanos::max_value().add(Nanos::new(1)), Nanos::max_value());
}

#[test]
fn quota_constructors() {
    let q = ten_per_second();
    assert_eq!(q.burst_size(), 10);
    assert_eq!(q.replenish_interval().as_u64(), 100 * MS);
    assert!(Quota::per_second(0).is_none());
    assert_eq!(Quota::per_minute(60).unwrap().replenish_interval().as_u64(), 1_000 * MS);
    assert_eq!(Quota::per_hour(1).unwrap().replenish_interval().as_u64(), 3_600_000 * MS);
    assert!(Quota::new(0, Nanos::new(5)).is_none());
    assert!(Quota::new(3, Nanos::zero()).is_none());
    assert!(Quota::with_period(Nanos::zero()).is_none());
    let p = Quota::with_period(Nanos::new(50)).unwrap();
    assert_eq!(p.burst_size(), 1);
    let b = p.allow_burst(4).unwrap();
    assert_eq!(b.burst_size(), 4);
    assert_eq!(b.replenish_interval().as_u64(), 50);
    assert!(p.allow_burst(0).is_none());
    assert_eq!(Quota::per_second(u32::MAX).unwrap().replenish_interval().as_u64(), 1);
}

#[test]
fn gcra_decisions() {
    let g = Gcra::new(Quota::new(2, Nanos::new(10)).unwrap());
    assert_eq!(g.emission_interval().as_u64(), 10);
    assert_eq!(g.burst_size(), 2);
    // A never used state counts as now.
    assert_eq!(g.test_n_and_update(1, Nanos::zero(), Nanos::new(100)), Ok(Nanos::new(110)));
    assert_eq!(g.test_n_and_update(1, Nanos::new(110), Nanos::new(100)), Ok(Nanos::new(120)));
    assert_eq!(
        g.test_n_and_update(1, Nanos::new(120), Nanos::new(100)),
        Err(GcraError::NotUntil(Nanos::new(110)))
    );
    assert_eq!(g.test_n_and_update(2, Nanos::zero(), Nanos::zero()), Ok(Nanos::new(20)));
    assert_eq!(
        g.test_n_and_update(3, Nanos::zero(), Nanos::zero()),
        Err(GcraError::InsufficientCapacity(2))
    );
    assert_eq!(
        g.test_n_and_update(1, Nanos::max_value(), Nanos::zero()),
        Err(GcraError::NotUntil(Nanos::new(u64::MAX - 20)))
    );
}

#[test]
fn ten_per_second_scenario() {
    let clock = FakeRelativeClock::new();
    let lim = RateLimiter::direct_with_clock(ten_per_second(), &clock);
    for _ in 0..10 {
        assert_eq!(lim.check(()), Ok(()));
    }
    let denied = lim.check(()).unwrap_err();
    assert_eq!(denied.earliest_possible().as_u64(), 100 * MS);
    assert_eq!(denied.wait_time_from(clock.now()).as_u64(), 100 * MS);
    clock.advance(denied.wait_time_from(clock.now()));
    assert_eq!(lim.check(()), Ok(()));
    let again = lim.check(()).unwrap_err();
    assert_eq!(again.earliest_possible().as_u64(), 200 * MS);
    clock.advance(Nanos::new(100 * MS));
    assert_eq!(lim.check(()), Ok(()));
}

#[test]
fn burst_exhaustion_reports_one_interval_later() {
    let clock = FakeRelativeClock::new();
    clock.advance(Nanos::new(7 * MS));
    let lim = RateLimiter::direct_with_clock(Quota::new(3, Nanos::new(20 * MS)).unwrap(), &clock);
    clock.advance(Nanos::new(5 * MS));
    for _ in 0..3 {
        assert!(lim.check(()).is_ok());
    }
    let denied = lim.check(()).unwrap_err();
    assert_eq!(denied.earliest_possible().as_u64(), 32 * MS);
    assert_eq!(denied.start.as_u64(), 7 * MS);
}

#[test]
fn steady_state_is_never_denied() {
    let clock = FakeRelativeClock::new();
    let lim = RateLimiter::direct_with_clock(Quota::new(4, Nanos::new(1_000)).unwrap(), &clock);
    for _ in 0..4 {
        assert!(lim.check(()).is_ok());
    }
    for _ in 0..50 {
        clock.advance(Nanos::new(1_000));
        assert!(lim.check(()).is_ok());
    }
}

#[test]
fn more_than_burst_is_insufficient_capacity() {
    let clock = FakeRelativeClock::new();
    let lim = RateLimiter::direct_with_clock(ten_per_second(), &clock);
    assert_eq!(
        lim.check_n((), 11),
        Err(CheckNError::InsufficientCapacity(InsufficientCapacity(10)))
    );
    assert_eq!(lim.check_n((), 10), Ok(()));
    assert_eq!(
        lim.check_n((), 11),
        Err(CheckNError::InsufficientCapacity(InsufficientCapacity(10)))
    );
    match lim.check_n((), 1) {
        Err(CheckNError::NotUntil(nu)) => assert_eq!(nu.earliest_possible().as_u64(), 100 * MS),
        other => panic!("unexpected {:?}", other),
    }
}

#[test]
fn check_n_takes_several_cells() {
    let clock = FakeRelativeClock::new();
    let lim = RateLimiter::direct_with_clock(ten_per_second(), &clock);
    assert_eq!(lim.check_n((), 6), Ok(()));
    match lim.check_n((), 5) {
        Err(CheckNError::NotUntil(nu)) => assert_eq!(nu.earliest_possible().as_u64(), 100 * MS),
        other => panic!("unexpected {:?}", other),
    }
    assert_eq!(lim.check_n((), 4), Ok(()));
}

#[test]
fn in_memory_state_commits_only_success() {
    let s = InMemoryState::new(());
    let r: Result<u8, u8> = s.measure_and_replace((), |tat| {
        assert_eq!(tat.as_u64(), 0);
        Ok((1, Nanos::new(40)))
    });
    assert_eq!(r, Ok(1));
    let r: Result<u8, u8> = s.measure_and_replace((), |tat| {
        assert_eq!(tat.as_u64(), 40);
        Err(9)
    });
    assert_eq!(r, Err(9));
    let r: Result<u64, u8> = s.measure_and_replace((), |tat| Ok((tat.as_u64(), tat)));
    assert_eq!(r, Ok(40));
}

#[test]
fn direct_limiter_on_real_clocks() {
    let lim = RateLimiter::direct(Quota::per_second(5).unwrap());
    for _ in 0..5 {
        assert!(lim.check(()).is_ok());
    }
    assert!(lim.check(()).is_err());
    let m = MonotonicClock::new();
    let a = m.now();
    let b = m.reference_point();
    assert!(a <= b);
    let s = SystemClock::new();
    assert!(s.now().as_u64() > 0);
    assert!(SystemClock::default().reference_point().as_u64() > 0);
}

#[test]
fn keyed_keys_are_independent() {
    let clock = FakeRelativeClock::new();
    let mut lim = KeyedRateLimiter::new(Quota::new(2, Nanos::new(100)).unwrap(), 8, &clock).unwrap();
    assert!(lim.check_key(1).is_ok());
    assert!(lim.check_key(1).is_ok());
    assert!(lim.check_key(1).is_err());
    assert!(lim.check_key(2).is_ok());
    assert!(lim.check_key(2).is_ok());
    assert!(lim.check_key(2).is_err());
    assert_eq!(
        lim.check_key_n(3, 3),
        Err(CheckNError::InsufficientCapacity(InsufficientCapacity(2)))
    );
}

#[test]
fn keyed_eviction_resets_history() {
    let clock = FakeRelativeClock::new();
    let mut lim = KeyedRateLimiter::new(Quota::new(2, Nanos::new(100)).unwrap(), 2, &clock).unwrap();
    assert!(lim.check_key(1).is_ok());
    assert!(lim.check_key(1).is_ok());
    assert!(lim.check_key(1).is_err());
    assert!(lim.check_key(2).is_ok());
    assert!(lim.check_key(3).is_ok());
    // Key 1 was evicted: it has its full burst again.
    assert!(lim.check_key(1).is_ok());
    assert!(lim.check_key(1).is_ok());
    assert!(lim.check_key(1).is_err());
}

#[test]
fn keyed_store_keeps_capacity() {
    let g = Gcra::new(Quota::new(1, Nanos::new(10)).unwrap());
    let mut s = KeyedStateStore::with_capacity(2).unwrap();
    assert!(KeyedStateStore::with_capacity(0).is_none());
    assert_eq!(s.check_at(&g, 5, 1, Nanos::new(100)), Ok(()));
    assert_eq!(s.state_of(5).as_u64(), 110);
    assert_eq!(s.check_at(&g, 5, 1, Nanos::new(100)), Err(GcraError::NotUntil(Nanos::new(110))));
    assert_eq!(s.check_at(&g, 6, 1, Nanos::new(100)), Ok(()));
    assert_eq!(s.check_at(&g, 7, 1, Nanos::new(100)), Ok(()));
    assert_eq!(s.len(), 2);
    assert_eq!(s.state_of(5), Nanos::zero());
    assert_eq!(s.state_of(7).as_u64(), 110);
}

#[test]
fn simultaneous_cells_admit_exactly_the_burst() {
    let clock = FakeRelativeClock::new();
    let lim = RateLimiter::direct_with_clock(Quota::per_second(50).unwrap(), &clock);
    let mut admitted = 0;
    for _ in 0..200 {
        if lim.check(()).is_ok() {
            admitted += 1;
        }
    }
    assert_eq!(admitted, 50);
}
