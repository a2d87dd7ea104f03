//! The Generic Cell Rate Algorithm: a pure decision from a quota, the previous
//! theoretical arrival time (tat) of a key and the current time.

use vstd::prelude::*;
use crate::nanos::{Nanos, clamp, nanos_max};
use crate::quota::Quota;

verus! {

/// The larger of two integers.
pub open spec fn max_int(a: int, b: int) -> int {
    if a >= b {
        a
    } else {
        b
    }
}

/// The time cost of a full burst: `t * burst`, saturating.
pub open spec fn tau_of(t: int, burst: int) -> int {
    clamp(t * burst)
}

/// The tat that admitting `n` cells at `now` leaves behind: the later of the
/// previous tat and `now`, plus the cost `t * n` of the cells, saturating.
/// A previous tat of zero (a key never used) counts as `now`.
pub open spec fn next_tat(t: int, n: int, prev: int, now: int) -> int {
    clamp(max_int(prev, now) + clamp(t * n))
}

/// The earliest time at which `n` cells could have been admitted:
/// the new tat less the burst tolerance, saturating at zero.
pub open spec fn earliest_allowed(t: int, burst: int, n: int, prev: int, now: int) -> int {
    clamp(next_tat(t, n, prev, now) - tau_of(t, burst))
}

/// Whether `n` cells arriving at `now` conform to the quota.
pub open spec fn conforms(t: int, burst: int, n: int, prev: int, now: int) -> bool {
    now >= earliest_allowed(t, burst, n, prev, now)
}

/// Why the engine refused cells.
#[derive(Clone, Copy, Debug, PartialEq, Eq, Structural)]
pub enum GcraError {
    /// The cells arrived too early; they would conform at this time, relative to
    /// the limiter's start.
    NotUntil(Nanos),
    /// More cells were asked for than the burst size, given here: no wait helps.
    InsufficientCapacity(u32),
}

/// The decision for `n` cells at `now` over a state `prev`, with emission
/// interval `t` and burst size `burst`: the new tat to store, or the error.
pub open spec fn gcra_outcome(t: int, burst: int, n: int, prev: int, now: int) -> Result<
    Nanos,
    GcraError,
> {
    if n > burst {
        Err(GcraError::InsufficientCapacity(burst as u32))
    } else if conforms(t, burst, n, prev, now) {
        Ok(Nanos(next_tat(t, n, prev, now) as u64))
    } else {
        Err(GcraError::NotUntil(Nanos(earliest_allowed(t, burst, n, prev, now) as u64)))
    }
}

/// The parameters that a quota gives the algorithm: the emission interval `t`
/// (the cost of one cell) and the burst size, from which the burst tolerance
/// `tau = t * burst` follows.
#[derive(Clone, Copy, Debug, PartialEq, Eq, Hash)]
pub struct Gcra {
    t: Nanos,
    tau: Nanos,
    burst: u32,
}

impl Gcra {
    #[verifier::type_invariant]
    spec fn is_valid(self) -> bool {
        &&& self.t@ >= 1
        &&& self.burst >= 1
        &&& self.tau@ == tau_of(self.t@, self.burst as int)
    }

    /// The emission interval in nanoseconds.
    pub closed spec fn t(self) -> int {
        self.t@
    }

    /// The burst size.
    pub closed spec fn burst(self) -> int {
        self.burst as int
    }

    /// The engine for a quota.
    pub fn new(quota: Quota) -> (r: Gcra)
        ensures
            r.t() == quota.interval(),
            r.burst() == quota.burst(),
    {
        let t = quota.replenish_interval();
        let burst = quota.burst_size();
        let tau = t.saturating_mul(burst as u64);
        Gcra { t, tau, burst }
    }

    pub fn emission_interval(&self) -> (r: Nanos)
        ensures
            r@ == self.t(),
            r@ >= 1,
    {
        proof {
            use_type_invariant(self);
        }
        self.t
    }

    pub fn burst_size(&self) -> (r: u32)
        ensures
            r == self.burst(),
            r >= 1,
    {
        proof {
            use_type_invariant(self);
        }
        self.burst
    }

    /// Decides whether `n` cells arriving at `now` (relative to the limiter's
    /// start) may pass, given the key's stored tat: returns the tat to store, or
    /// the time at which they would conform, or that they never can.
    pub fn test_n_and_update(&self, n: u32, tat: Nanos, now: Nanos) -> (r: Result<
        Nanos,
        GcraError,
    >)
        ensures
            r == gcra_outcome(self.t(), self.burst(), n as int, tat@, now@),
    {
        proof {
            use_type_invariant(self);
        }
        if n > self.burst {
            return Err(GcraError::InsufficientCapacity(self.burst));
        }
        let cost = self.t.saturating_mul(n as u64);
        let next = tat.max(now).saturating_add(cost);
        let earliest = next.saturating_sub(self.tau);
        if now.as_u64() >= earliest.as_u64() {
            Ok(next)
        } else {
            Err(GcraError::NotUntil(earliest))
        }
    }
}

/// Whether one cell arriving at `now` is admitted over the state `tat`.
pub open spec fn admits(t: int, burst: int, tat: int, now: int) -> bool {
    gcra_outcome(t, burst, 1, tat, now) is Ok
}

/// The state after one cell at `now`: the new tat where it was admitted, else
/// `tat` unchanged.
pub open spec fn step_tat(t: int, burst: int, tat: int, now: int) -> int {
    match gcra_outcome(t, burst, 1, tat, now) {
        Ok(next) => next@,
        Err(_) => tat,
    }
}

/// The decisions on single cells arriving at `times`, one after another, over a
/// key whose state starts at `tat`.
pub open spec fn replay(t: int, burst: int, tat: int, times: Seq<int>) -> Seq<bool>
    decreases times.len(),
{
    if times.len() == 0 {
        seq![]
    } else {
        seq![admits(t, burst, tat, times[0])] + replay(
            t,
            burst,
            step_tat(t, burst, tat, times[0]),
            times.drop_first(),
        )
    }
}

/// The state of the key after the cells arriving at `times`.
pub open spec fn replay_tat(t: int, burst: int, tat: int, times: Seq<int>) -> int
    decreases times.len(),
{
    if times.len() == 0 {
        tat
    } else {
        replay_tat(t, burst, step_tat(t, burst, tat, times[0]), times.drop_first())
    }
}

/// Cells that arrive one after another, from state `tat`, the later of which and
/// the first arrival is `cur`, each no later than the state it meets and no
/// earlier than a full burst before the state it leaves, are all admitted, and
/// each one adds `t` to the state.
proof fn lemma_run_admitted(t: int, burst: int, tat: int, times: Seq<int>, cur: int)
    requires
        t >= 1,
        burst >= 1,
        0 <= tat <= cur,
        times.len() > 0 ==> (tat == cur || times[0] == cur),
        cur + times.len() * t <= nanos_max(),
        t * burst <= nanos_max(),
        forall|i: int|
            0 <= i < times.len() ==> 0 <= #[trigger] times[i] && cur + i * t + t - t * burst
                <= times[i] <= cur + i * t,
    ensures
        replay(t, burst, tat, times) =~= Seq::new(times.len(), |i: int| true),
        times.len() > 0 ==> replay_tat(t, burst, tat, times) == cur + times.len() * t,
    decreases times.len(),
{
    if times.len() > 0 {
        let x = times[0];
        let rest = times.drop_first();
        assert(times.len() * t >= t) by (nonlinear_arith)
            requires
                times.len() >= 1,
                t >= 1,
        ;
        assert(0 * t == 0);
        assert(max_int(tat, x) == cur);
        assert(next_tat(t, 1, tat, x) == cur + t);
        assert(conforms(t, burst, 1, tat, x));
        assert(step_tat(t, burst, tat, x) == cur + t);
        assert forall|i: int| 0 <= i < rest.len() implies 0 <= #[trigger] rest[i] && (cur + t) + i
            * t + t - t * burst <= rest[i] <= (cur + t) + i * t by {
            assert(rest[i] == times[i + 1]);
            assert((i + 1) * t == i * t + t) by (nonlinear_arith);
        }
        assert((cur + t) + rest.len() * t == cur + times.len() * t) by (nonlinear_arith)
            requires
                rest.len() == times.len() - 1,
        ;
        lemma_run_admitted(t, burst, cur + t, rest, cur + t);
        if rest.len() == 0 {
            assert(replay_tat(t, burst, cur + t, rest) == cur + t);
        }
    }
}

/// Single cells arriving at `times` and then one more at `x`: the decisions on
/// the first ones, then that on `x` over the state they left.
proof fn lemma_replay_push(t: int, burst: int, tat: int, times: Seq<int>, x: int)
    ensures
        replay(t, burst, tat, times.push(x)) =~= replay(t, burst, tat, times).push(
            admits(t, burst, replay_tat(t, burst, tat, times), x),
        ),
    decreases times.len(),
{
    if times.len() > 0 {
        let next = step_tat(t, burst, tat, times[0]);
        let rest = times.drop_first();
        assert(times.push(x).drop_first() =~= rest.push(x));
        assert(times.push(x)[0] == times[0]);
        lemma_replay_push(t, burst, next, rest, x);
        let a = admits(t, burst, replay_tat(t, burst, next, rest), x);
        assert(replay(t, burst, tat, times.push(x)) == seq![admits(t, burst, tat, times[0])]
            + replay(t, burst, next, rest).push(a));
        assert(replay(t, burst, tat, times) == seq![admits(t, burst, tat, times[0])] + replay(
            t,
            burst,
            next,
            rest,
        ));
        assert(replay_tat(t, burst, tat, times) == replay_tat(t, burst, next, rest));
    } else {
        assert(times.push(x).drop_first() =~= Seq::<int>::empty());
        assert(times.push(x)[0] == x);
        assert(replay(t, burst, step_tat(t, burst, tat, x), Seq::<int>::empty()) =~= seq![]);
    }
}

/// Burst exhaustion: `burst + 1` cells arriving at once at `now` at an idle key
/// (its state no later than `now`): the first `burst` are admitted, the last one
/// is denied, and it would have conformed at `now + t`, one interval later.
pub proof fn lemma_burst_exhaustion(t: int, burst: int, tat: int, now: int)
    requires
        t >= 1,
        1 <= burst <= u32::MAX,
        0 <= tat <= now,
        now + (burst + 1) * t <= nanos_max(),
    ensures
        replay(t, burst, tat, Seq::new((burst + 1) as nat, |i: int| now)) =~= Seq::new(
            (burst + 1) as nat,
            |i: int| i < burst,
        ),
        gcra_outcome(
            t,
            burst,
            1,
            replay_tat(t, burst, tat, Seq::new(burst as nat, |i: int| now)),
            now,
        ) == Err::<Nanos, GcraError>(GcraError::NotUntil(Nanos((now + t) as u64))),
{
    let times = Seq::new(burst as nat, |i: int| now);
    assert((burst + 1) * t == burst * t + t) by (nonlinear_arith);
    assert(t * burst == burst * t) by (nonlinear_arith);
    assert(burst * t >= 0) by (nonlinear_arith)
        requires
            burst >= 1,
            t >= 1,
    ;
    assert forall|i: int| 0 <= i < times.len() implies 0 <= #[trigger] times[i] && now + i * t
        + t - t * burst <= times[i] <= now + i * t by {
        assert((i + 1) * t <= burst * t) by (nonlinear_arith)
            requires
                i + 1 <= burst,
                t >= 1,
        ;
        assert((i + 1) * t == i * t + t) by (nonlinear_arith);
        assert(i * t >= 0) by (nonlinear_arith)
            requires
                i >= 0,
                t >= 1,
        ;
    }
    lemma_run_admitted(t, burst, tat, times, now);
    let state = replay_tat(t, burst, tat, times);
    assert(state == now + burst * t);
    assert(next_tat(t, 1, state, now) == now + burst * t + t);
    assert(earliest_allowed(t, burst, 1, state, now) == now + t);
    lemma_replay_push(t, burst, tat, times, now);
    assert(times.push(now) =~= Seq::new((burst + 1) as nat, |i: int| now));
}

/// Single cells arriving at `a` and then at `b`: the decisions on `a`, then
/// those on `b` over the state `a` left.
proof fn lemma_replay_append(t: int, burst: int, tat: int, a: Seq<int>, b: Seq<int>)
    ensures
        replay(t, burst, tat, a + b) =~= replay(t, burst, tat, a) + replay(
            t,
            burst,
            replay_tat(t, burst, tat, a),
            b,
        ),
    decreases a.len(),
{
    if a.len() > 0 {
        let next = step_tat(t, burst, tat, a[0]);
        assert((a + b).drop_first() =~= a.drop_first() + b);
        assert((a + b)[0] == a[0]);
        lemma_replay_append(t, burst, next, a.drop_first(), b);
    } else {
        assert(a + b =~= b);
    }
}

/// Cells arriving at `now` over a key whose state already holds a full burst
/// beyond `now` are all denied and leave the state as it was.
proof fn lemma_run_denied(t: int, burst: int, now: int, k: nat)
    requires
        t >= 1,
        1 <= burst <= u32::MAX,
        0 <= now,
        now + (burst + 1) * t <= nanos_max(),
    ensures
        replay(t, burst, now + burst * t, Seq::new(k, |i: int| now)) =~= Seq::new(
            k,
            |i: int| false,
        ),
    decreases k,
{
    let state = now + burst * t;
    assert((burst + 1) * t == burst * t + t) by (nonlinear_arith);
    assert(t * burst == burst * t) by (nonlinear_arith);
    assert(burst * t >= 0) by (nonlinear_arith)
        requires
            burst >= 1,
            t >= 1,
    ;
    assert(next_tat(t, 1, state, now) == state + t);
    assert(earliest_allowed(t, burst, 1, state, now) == now + t);
    if k > 0 {
        assert(Seq::new(k, |i: int| now).drop_first() =~= Seq::new((k - 1) as nat, |i: int| now));
        lemma_run_denied(t, burst, now, (k - 1) as nat);
    }
}

/// Any number of cells arriving at once at `now` at an idle key, taken in any
/// order: exactly the first `burst` of them are admitted, and all later ones are
/// denied.
pub proof fn lemma_exactly_burst_admitted(t: int, burst: int, tat: int, now: int, count: nat)
    requires
        t >= 1,
        1 <= burst <= u32::MAX,
        0 <= tat <= now,
        now + (burst + 1) * t <= nanos_max(),
    ensures
        replay(t, burst, tat, Seq::new(count, |i: int| now)) =~= Seq::new(
            count,
            |i: int| i < burst,
        ),
{
    let k = if count <= burst {
        count
    } else {
        burst as nat
    };
    let first = Seq::new(k, |i: int| now);
    let rest = Seq::new((count - k) as nat, |i: int| now);
    assert(Seq::new(count, |i: int| now) =~= first + rest);
    assert(k * t <= (burst + 1) * t) by (nonlinear_arith)
        requires
            k <= burst + 1,
            t >= 1,
    ;
    assert((burst + 1) * t == burst * t + t) by (nonlinear_arith);
    assert(t * burst == burst * t) by (nonlinear_arith);
    assert(burst * t >= 0) by (nonlinear_arith)
        requires
            burst >= 1,
            t >= 1,
    ;
    assert forall|i: int| 0 <= i < first.len() implies 0 <= #[trigger] first[i] && now + i * t
        + t - t * burst <= first[i] <= now + i * t by {
        assert((i + 1) * t <= burst * t) by (nonlinear_arith)
            requires
                i + 1 <= burst,
                t >= 1,
        ;
        assert((i + 1) * t == i * t + t) by (nonlinear_arith);
        assert(i * t >= 0) by (nonlinear_arith)
            requires
                i >= 0,
                t >= 1,
        ;
    }
    lemma_run_admitted(t, burst, tat, first, now);
    lemma_replay_append(t, burst, tat, first, rest);
    if count > burst {
        lemma_run_denied(t, burst, now, (count - k) as nat);
    }
}

/// The arrivals of a key at full burst: `burst` cells at once at `now`, then one
/// more every `t`, `m` of them.
pub open spec fn steady_schedule(t: int, burst: int, now: int, m: nat) -> Seq<int> {
    Seq::new(
        (burst + m) as nat,
        |i: int|
            if i < burst {
                now
            } else {
                now + (i - burst + 1) * t
            },
    )
}

/// Quota respect in the steady state: at an idle key, a full burst at once and
/// then one cell every interval are all admitted, as long as no time saturates.
pub proof fn lemma_steady_state(t: int, burst: int, tat: int, now: int, m: nat)
    requires
        t >= 1,
        1 <= burst <= u32::MAX,
        0 <= tat <= now,
        now + (burst + m) * t <= nanos_max(),
    ensures
        replay(t, burst, tat, steady_schedule(t, burst, now, m)) =~= Seq::new(
            (burst + m) as nat,
            |i: int| true,
        ),
{
    let times = steady_schedule(t, burst, now, m);
    assert(t * burst <= (burst + m) * t) by (nonlinear_arith)
        requires
            m >= 0,
            t >= 1,
    ;
    assert forall|i: int| 0 <= i < times.len() implies 0 <= #[trigger] times[i] && now + i * t
        + t - t * burst <= times[i] <= now + i * t by {
        assert((i + 1) * t == i * t + t) by (nonlinear_arith);
        assert(t * burst == burst * t) by (nonlinear_arith);
        assert(i * t >= 0) by (nonlinear_arith)
            requires
                i >= 0,
                t >= 1,
        ;
        if i < burst {
            assert((i + 1) * t <= burst * t) by (nonlinear_arith)
                requires
                    i + 1 <= burst,
                    t >= 1,
            ;
        } else {
            assert((i - burst + 1) * t == i * t + t - burst * t) by (nonlinear_arith);
            assert((i - burst + 1) * t <= i * t) by (nonlinear_arith)
                requires
                    burst >= 1,
                    i >= burst,
                    t >= 1,
            ;
            assert((i - burst + 1) * t >= 0) by (nonlinear_arith)
                requires
                    i >= burst,
                    t >= 1,
            ;
        }
    }
    lemma_run_admitted(t, burst, tat, times, now);
}

/// Permanent incapacity: more cells than the burst size are refused as never
/// admissible, whatever the state and the time.
pub proof fn lemma_insufficient_capacity(t: int, burst: int, n: int, tat: int, now: int)
    requires
        1 <= burst <= u32::MAX,
        n > burst,
    ensures
        gcra_outcome(t, burst, n, tat, now) == Err::<Nanos, GcraError>(
            GcraError::InsufficientCapacity(burst as u32),
        ),
{
}

} // verus!
