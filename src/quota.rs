//! Quotas: how many cells may pass in a burst, and how fast capacity comes back.

use vstd::prelude::*;
use crate::nanos::Nanos;

verus! {

/// Nanoseconds in one second.
pub const NANOS_PER_SECOND: u64 = 1_000_000_000;

/// Nanoseconds in one minute.
pub const NANOS_PER_MINUTE: u64 = 60_000_000_000;

/// Nanoseconds in one hour.
pub const NANOS_PER_HOUR: u64 = 3_600_000_000_000;

/// The replenishment interval of "`n` cells per `period` nanoseconds": the period
/// divided by `n`, and never less than one nanosecond.
pub open spec fn per_period_interval(period: int, n: int) -> int {
    if period / n >= 1 {
        period / n
    } else {
        1
    }
}

/// A rate-limiting quota: a burst of at most `max_burst` cells, after which one
/// cell of capacity comes back every `replenish_1_per` nanoseconds.
///
/// Both values are positive: a quota that breaks this cannot be built.
#[derive(Clone, Copy, Debug, PartialEq, Eq, Hash)]
pub struct Quota {
    max_burst: u32,
    replenish_1_per: Nanos,
}

impl Quota {
    #[verifier::type_invariant]
    spec fn is_valid(self) -> bool {
        self.max_burst >= 1 && self.replenish_1_per@ >= 1
    }

    /// The largest number of cells admitted at once from an idle state.
    pub closed spec fn burst(self) -> int {
        self.max_burst as int
    }

    /// The time, in nanoseconds, that one cell of burst capacity takes to come back.
    pub closed spec fn interval(self) -> int {
        self.replenish_1_per@
    }

    /// A quota of `max_burst` cells, one of which comes back every
    /// `replenish_1_per`. `None` where either is zero.
    pub fn new(max_burst: u32, replenish_1_per: Nanos) -> (r: Option<Quota>)
        ensures
            r is Some <==> max_burst >= 1 && replenish_1_per@ >= 1,
            r matches Some(q) ==> q.burst() == max_burst && q.interval() == replenish_1_per@,
    {
        if max_burst == 0 || replenish_1_per.as_u64() == 0 {
            None
        } else {
            Some(Quota { max_burst, replenish_1_per })
        }
    }

    /// `max_burst` cells per `period` nanoseconds, as a burst of `max_burst`.
    fn per_period(period: u64, max_burst: u32) -> (r: Option<Quota>)
        requires
            period >= 1,
        ensures
            r is Some <==> max_burst >= 1,
            r matches Some(q) ==> q.burst() == max_burst && q.interval()
                == per_period_interval(period as int, max_burst as int),
    {
        if max_burst == 0 {
            return None;
        }
        let step = period / (max_burst as u64);
        let step = if step >= 1 {
            step
        } else {
            1
        };
        Some(Quota { max_burst, replenish_1_per: Nanos::new(step) })
    }

    /// `max_burst` cells per second, which may all be spent at once.
    /// `None` where `max_burst` is zero.
    pub fn per_second(max_burst: u32) -> (r: Option<Quota>)
        ensures
            r is Some <==> max_burst >= 1,
            r matches Some(q) ==> q.burst() == max_burst && q.interval()
                == per_period_interval(NANOS_PER_SECOND as int, max_burst as int),
    {
        Quota::per_period(NANOS_PER_SECOND, max_burst)
    }

    /// `max_burst` cells per minute, which may all be spent at once.
    /// `None` where `max_burst` is zero.
    pub fn per_minute(max_burst: u32) -> (r: Option<Quota>)
        ensures
            r is Some <==> max_burst >= 1,
            r matches Some(q) ==> q.burst() == max_burst && q.interval()
                == per_period_interval(NANOS_PER_MINUTE as int, max_burst as int),
    {
        Quota::per_period(NANOS_PER_MINUTE, max_burst)
    }

    /// `max_burst` cells per hour, which may all be spent at once.
    /// `None` where `max_burst` is zero.
    pub fn per_hour(max_burst: u32) -> (r: Option<Quota>)
        ensures
            r is Some <==> max_burst >= 1,
            r matches Some(q) ==> q.burst() == max_burst && q.interval()
                == per_period_interval(NANOS_PER_HOUR as int, max_burst as int),
    {
        Quota::per_period(NANOS_PER_HOUR, max_burst)
    }

    /// One cell every `replenish_1_per`, with a burst of one.
    /// `None` where the interval is zero.
    pub fn with_period(replenish_1_per: Nanos) -> (r: Option<Quota>)
        ensures
            r is Some <==> replenish_1_per@ >= 1,
            r matches Some(q) ==> q.burst() == 1 && q.interval() == replenish_1_per@,
    {
        Quota::new(1, replenish_1_per)
    }

    /// The same interval with a burst of `max_burst`. `None` where it is zero.
    pub fn allow_burst(self, max_burst: u32) -> (r: Option<Quota>)
        ensures
            r is Some <==> max_burst >= 1,
            r matches Some(q) ==> q.burst() == max_burst && q.interval() == self.interval(),
    {
        proof {
            use_type_invariant(self);
        }
        Quota::new(max_burst, self.replenish_1_per)
    }

    pub fn burst_size(&self) -> (r: u32)
        ensures
            r == self.burst(),
            r >= 1,
    {
        proof {
            use_type_invariant(self);
        }
        self.max_burst
    }

    pub fn replenish_interval(&self) -> (r: Nanos)
        ensures
            r@ == self.interval(),
            r@ >= 1,
    {
        proof {
            use_type_invariant(self);
        }
        self.replenish_1_per
    }
}

} // verus!
