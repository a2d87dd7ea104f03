//! Saturating nanosecond quantities, the only numeric currency of the limiter.

use vstd::prelude::*;

verus! {

/// The largest value a `u64` holds.
pub open spec fn nanos_max() -> int {
    u64::MAX as int
}

/// `x` clamped into the range of a `u64`.
pub open spec fn clamp(x: int) -> int {
    if x < 0 {
        0
    } else if x > nanos_max() {
        nanos_max()
    } else {
        x
    }
}

/// A count of nanoseconds. All arithmetic on it saturates at zero and at
/// `u64::MAX` instead of wrapping or panicking.
#[derive(Clone, Copy, Debug, PartialEq, Eq, PartialOrd, Ord, Hash, Default, Structural)]
pub struct Nanos(pub u64);

impl View for Nanos {
    type V = int;

    open spec fn view(&self) -> int {
        self.0 as int
    }
}

impl Nanos {
    /// Zero nanoseconds.
    pub fn zero() -> (r: Nanos)
        ensures
            r@ == 0,
    {
        Nanos(0)
    }

    /// The largest representable amount of time.
    pub fn max_value() -> (r: Nanos)
        ensures
            r@ == nanos_max(),
    {
        Nanos(u64::MAX)
    }

    pub fn new(u: u64) -> (r: Nanos)
        ensures
            r@ == u as int,
    {
        Nanos(u)
    }

    pub fn as_u64(self) -> (r: u64)
        ensures
            r as int == self@,
    {
        self.0
    }

    /// `self + other`, saturating at the largest value.
    pub fn saturating_add(self, other: Nanos) -> (r: Nanos)
        ensures
            r@ == clamp(self@ + other@),
    {
        Nanos(self.0.saturating_add(other.0))
    }

    /// `self - other`, saturating at zero.
    pub fn saturating_sub(self, other: Nanos) -> (r: Nanos)
        ensures
            r@ == clamp(self@ - other@),
    {
        Nanos(self.0.saturating_sub(other.0))
    }

    /// `self * n`, saturating at the largest value.
    pub fn saturating_mul(self, n: u64) -> (r: Nanos)
        ensures
            r@ == clamp(self@ * n),
    {
        if n == 0 {
            assert(self@ * n == 0);
            return Nanos(0);
        }
        if self.0 > u64::MAX / n {
            assert(self@ * n > nanos_max()) by (nonlinear_arith)
                requires
                    self@ > u64::MAX as int / n as int,
                    n > 0,
            ;
            Nanos(u64::MAX)
        } else {
            assert(0 <= self@ * n <= nanos_max()) by (nonlinear_arith)
                requires
                    0 <= self@ <= u64::MAX as int / n as int,
                    n > 0,
            ;
            Nanos(self.0 * n)
        }
    }

    /// The larger of two amounts.
    pub fn max(self, other: Nanos) -> (r: Nanos)
        ensures
            r@ == if self@ >= other@ {
                self@
            } else {
                other@
            },
    {
        if self.0 >= other.0 {
            self
        } else {
            other
        }
    }

    /// The time from `earlier` to `self`, seen as two points on one time line.
    /// Where `earlier` is not in fact earlier (a clock that went backwards), the
    /// result is zero, never negative.
    pub fn duration_since(self, earlier: Nanos) -> (r: Nanos)
        ensures
            r@ == clamp(self@ - earlier@),
            earlier@ >= self@ ==> r@ == 0,
    {
        self.saturating_sub(earlier)
    }

    /// The point `duration` after `self`, saturating at the largest value.
    pub fn add(self, duration: Nanos) -> (r: Nanos)
        ensures
            r@ == clamp(self@ + duration@),
    {
        self.saturating_add(duration)
    }

    /// Whole nanoseconds of a `u128` count, saturating at the largest value.
    pub fn from_u128(n: u128) -> (r: Nanos)
        ensures
            r@ == clamp(n as int),
    {
        if n > u64::MAX as u128 {
            Nanos(u64::MAX)
        } else {
            Nanos(n as u64)
        }
    }
}

} // verus!
