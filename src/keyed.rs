//! Keyed state: one rate limit per key, with at most a fixed number of keys.
//! Where a new key would exceed that number, the key least recently admitted is
//! evicted; a key evicted is as if it had never been limited.

use vstd::prelude::*;
use crate::clock::Clock;
use crate::gcra::{Gcra, GcraError, gcra_outcome, conforms, next_tat, earliest_allowed, max_int};
use crate::nanos::Nanos;
use crate::quota::Quota;
use crate::state::{CheckNError, InsufficientCapacity, NotUntil};

verus! {

/// No two entries have the same key.
pub open spec fn keys_unique(e: Seq<(u64, u64)>) -> bool {
    forall|i: int, j: int|
        0 <= i < e.len() && 0 <= j < e.len() && #[trigger] e[i].0 == #[trigger] e[j].0 ==> i == j
}

/// Whether some entry has key `k`.
pub open spec fn has_key(e: Seq<(u64, u64)>, k: u64) -> bool {
    exists|i: int| 0 <= i < e.len() && #[trigger] e[i].0 == k
}

/// The position of the entry with key `k`, where there is one.
pub open spec fn index_of(e: Seq<(u64, u64)>, k: u64) -> int {
    choose|i: int| 0 <= i < e.len() && #[trigger] e[i].0 == k
}

/// The state of key `k`: that of its entry, or zero (never used) without one.
pub open spec fn tat_in(e: Seq<(u64, u64)>, k: u64) -> int {
    if has_key(e, k) {
        e[index_of(e, k)].1 as int
    } else {
        0
    }
}

/// The entries after `key` was admitted with the new state `tat`: its entry moves
/// to the most recent end with that state, and where that exceeds `cap` entries,
/// the least recent one is dropped.
pub open spec fn touched(e: Seq<(u64, u64)>, key: u64, tat: u64, cap: int) -> Seq<(u64, u64)> {
    let w = if has_key(e, key) {
        e.remove(index_of(e, key))
    } else {
        e
    }.push((key, tat));
    if w.len() > cap {
        w.drop_first()
    } else {
        w
    }
}

/// Entries with unique keys, no more of them than a positive bound.
pub open spec fn entries_wf(e: Seq<(u64, u64)>, cap: int) -> bool {
    keys_unique(e) && e.len() <= cap && cap >= 1
}

proof fn lemma_tat_at(e: Seq<(u64, u64)>, i: int)
    requires
        keys_unique(e),
        0 <= i < e.len(),
    ensures
        has_key(e, e[i].0),
        index_of(e, e[i].0) == i,
        tat_in(e, e[i].0) == e[i].1,
{
    assert(has_key(e, e[i].0));
}

/// What admitting `key` does to the other keys: each keeps its state or, where
/// it was evicted, has none. Only a new key, where all room is taken, evicts, and
/// then it evicts the least recent key.
pub proof fn lemma_touched(e: Seq<(u64, u64)>, key: u64, tat: u64, cap: int)
    requires
        entries_wf(e, cap),
    ensures
        entries_wf(touched(e, key, tat, cap), cap),
        has_key(touched(e, key, tat, cap), key),
        tat_in(touched(e, key, tat, cap), key) == tat,
        forall|k: u64|
            k != key && has_key(touched(e, key, tat, cap), k) ==> has_key(e, k) && tat_in(
                touched(e, key, tat, cap),
                k,
            ) == tat_in(e, k),
        forall|k: u64|
            k != key && has_key(e, k) && !has_key(touched(e, key, tat, cap), k) ==> !has_key(
                e,
                key,
            ) && e.len() == cap && e[0].0 == k,
{
    let w0 = if has_key(e, key) {
        e.remove(index_of(e, key))
    } else {
        e
    };
    let w = w0.push((key, tat));
    let r = touched(e, key, tat, cap);
    // Every entry of w0 is an entry of e other than key's, in order.
    let shift = |j: int|
        if has_key(e, key) && j >= index_of(e, key) {
            j + 1
        } else {
            j
        };
    assert forall|j: int| 0 <= j < w0.len() implies w0[j] == e[shift(j)] && e[shift(j)].0 != key
        && 0 <= shift(j) < e.len() by {
        if has_key(e, key) {
            lemma_tat_at(e, index_of(e, key));
        }
    }
    assert(w0.len() <= e.len());
    assert(keys_unique(w)) by {
        assert forall|i: int, j: int|
            0 <= i < w.len() && 0 <= j < w.len() && #[trigger] w[i].0 == #[trigger] w[j].0
                implies i == j by {
            if i < w0.len() && j < w0.len() {
                assert(e[shift(i)].0 == e[shift(j)].0);
            }
        }
    }
    let off: int = if w.len() > cap {
        1
    } else {
        0
    };
    assert(r =~= w.subrange(off, w.len() as int));
    assert forall|j: int| 0 <= j < r.len() implies r[j] == w[j + off] by {}
    assert(keys_unique(r)) by {
        assert forall|i: int, j: int|
            0 <= i < r.len() && 0 <= j < r.len() && #[trigger] r[i].0 == #[trigger] r[j].0
                implies i == j by {
            assert(w[i + off].0 == w[j + off].0);
        }
    }
    assert(r.len() <= cap);
    lemma_tat_at(r, r.len() - 1);
    assert forall|k: u64| k != key && has_key(r, k) implies has_key(e, k) && tat_in(r, k) == tat_in(
        e,
        k,
    ) by {
        let j = index_of(r, k);
        lemma_tat_at(r, j);
        assert(r[j] == w[j + off]);
        assert(w[j + off] == w0[j + off]);
        lemma_tat_at(e, shift(j + off));
    }
    assert forall|k: u64| k != key && has_key(e, k) && !has_key(r, k) implies !has_key(e, key)
        && e.len() == cap && e[0].0 == k by {
        let i = index_of(e, k);
        lemma_tat_at(e, i);
        if has_key(e, key) {
            let m = index_of(e, key);
            lemma_tat_at(e, m);
            let j: int = if i < m {
                i
            } else {
                i - 1
            };
            assert(shift(j) == i);
            assert(w[j] == e[i]);
            if off == 0 {
                assert(r[j].0 == k);
            } else {
                assert(r[j - 1].0 == k);
            }
        } else {
            assert(w[i] == e[i]);
            if off == 0 || i > 0 {
                assert(r[i - off].0 == k);
            }
        }
    }
}

/// An earlier state never makes cells less welcome: where cells conform over a
/// state, they conform over any earlier one.
pub proof fn lemma_earlier_state_conforms(t: int, burst: int, n: int, prev: int, earlier: int, now: int)
    requires
        0 <= earlier <= prev,
        conforms(t, burst, n, prev, now),
    ensures
        conforms(t, burst, n, earlier, now),
{
    assert(max_int(earlier, now) <= max_int(prev, now));
    assert(next_tat(t, n, earlier, now) <= next_tat(t, n, prev, now));
    assert(earliest_allowed(t, burst, n, earlier, now) <= earliest_allowed(t, burst, n, prev, now));
}

/// Key independence: admitting cells at key `a`, which may evict other keys,
/// never makes cells at another key `b` that were welcome before unwelcome.
pub proof fn lemma_key_independence(
    e: Seq<(u64, u64)>,
    cap: int,
    a: u64,
    tat: u64,
    b: u64,
    t: int,
    burst: int,
    n: int,
    now: int,
)
    requires
        entries_wf(e, cap),
        a != b,
        gcra_outcome(t, burst, n, tat_in(e, b), now) is Ok,
    ensures
        gcra_outcome(t, burst, n, tat_in(touched(e, a, tat, cap), b), now) is Ok,
{
    lemma_touched(e, a, tat, cap);
    let before = tat_in(e, b);
    let after = tat_in(touched(e, a, tat, cap), b);
    if has_key(e, b) {
        lemma_tat_at(e, index_of(e, b));
    }
    assert(0 <= after <= before);
    lemma_earlier_state_conforms(t, burst, n, before, after, now);
}

/// Eviction resets history: a key that admitting another key evicted has the
/// state of a key never used, so a full burst at it is admitted at any time.
pub proof fn lemma_eviction_resets_history(
    e: Seq<(u64, u64)>,
    cap: int,
    key: u64,
    tat: u64,
    a: u64,
    t: int,
    burst: int,
    now: int,
)
    requires
        entries_wf(e, cap),
        has_key(e, a),
        !has_key(touched(e, key, tat, cap), a),
        t >= 1,
        1 <= burst <= u32::MAX,
        0 <= now,
        now + burst * t <= u64::MAX,
    ensures
        tat_in(touched(e, key, tat, cap), a) == 0,
        crate::gcra::replay(
            t,
            burst,
            tat_in(touched(e, key, tat, cap), a),
            Seq::new(burst as nat, |i: int| now),
        ) =~= Seq::new(burst as nat, |i: int| true),
{
    crate::gcra::lemma_steady_state(t, burst, 0, now, 0);
    assert(crate::gcra::steady_schedule(t, burst, now, 0) =~= Seq::new(
        burst as nat,
        |i: int| now,
    ));
}

/// The states of many keys, each limited on its own, with at most a fixed number
/// of keys kept.
pub struct KeyedStateStore {
    entries: Vec<(u64, u64)>,
    capacity: usize,
}

impl KeyedStateStore {
    /// The entries, least recently admitted first: each a key and its state.
    pub closed spec fn entries(self) -> Seq<(u64, u64)> {
        self.entries@
    }

    /// The most keys kept at once.
    pub closed spec fn capacity_bound(self) -> int {
        self.capacity as int
    }

    pub open spec fn wf(self) -> bool {
        entries_wf(self.entries(), self.capacity_bound())
    }

    /// An empty store that keeps at most `capacity` keys; `None` where that is zero.
    pub fn with_capacity(capacity: usize) -> (r: Option<KeyedStateStore>)
        ensures
            r is Some <==> capacity >= 1,
            r matches Some(s) ==> s.wf() && s.entries().len() == 0 && s.capacity_bound()
                == capacity,
    {
        if capacity == 0 {
            None
        } else {
            Some(KeyedStateStore { entries: Vec::new(), capacity })
        }
    }

    /// The number of keys held.
    pub fn len(&self) -> (r: usize)
        ensures
            r == self.entries().len(),
    {
        self.entries.len()
    }

    /// The position of the entry of `key`, if there is one.
    fn find(&self, key: u64) -> (r: Option<usize>)
        requires
            self.wf(),
        ensures
            r matches Some(i) ==> i < self.entries().len() && self.entries()[i as int].0 == key
                && index_of(self.entries(), key) == i,
            r is None ==> !has_key(self.entries(), key),
    {
        let mut i: usize = 0;
        while i < self.entries.len()
            invariant
                self.wf(),
                i <= self.entries@.len(),
                forall|j: int| 0 <= j < i ==> self.entries@[j].0 != key,
            decreases self.entries@.len() - i,
        {
            if self.entries[i].0 == key {
                proof {
                    lemma_tat_at(self.entries@, i as int);
                }
                return Some(i);
            }
            i = i + 1;
        }
        None
    }

    /// The state of `key`: zero where it is not held.
    pub fn state_of(&self, key: u64) -> (r: Nanos)
        requires
            self.wf(),
        ensures
            r@ == tat_in(self.entries(), key),
    {
        match self.find(key) {
            Some(i) => Nanos::new(self.entries[i].1),
            None => Nanos::zero(),
        }
    }

    /// Decides on `n` cells at `key` arriving at `now` (relative to the limiter's
    /// start). Where they are admitted, the key gets its new state and becomes the
    /// most recent, evicting the least recent key if room runs out; otherwise
    /// nothing changes.
    pub fn check_at(&mut self, gcra: &Gcra, key: u64, n: u32, now: Nanos) -> (r: Result<(), GcraError>)
        requires
            old(self).wf(),
        ensures
            final(self).wf(),
            final(self).capacity_bound() == old(self).capacity_bound(),
            match gcra_outcome(
                gcra.t(),
                gcra.burst(),
                n as int,
                tat_in(old(self).entries(), key),
                now@,
            ) {
                Ok(next) => r is Ok && final(self).entries() == touched(
                    old(self).entries(),
                    key,
                    next.0,
                    old(self).capacity_bound(),
                ),
                Err(e) => r == Err::<(), GcraError>(e) && final(self).entries() == old(self).entries(),
            },
    {
        let found = self.find(key);
        let prev = match found {
            Some(i) => Nanos::new(self.entries[i].1),
            None => Nanos::zero(),
        };
        match gcra.test_n_and_update(n, prev, now) {
            Err(e) => Err(e),
            Ok(next) => {
                let ghost e0 = self.entries@;
                proof {
                    lemma_touched(e0, key, next.0, self.capacity as int);
                }
                match found {
                    Some(i) => {
                        self.entries.remove(i);
                    },
                    None => {},
                }
                self.entries.push((key, next.as_u64()));
                if self.entries.len() > self.capacity {
                    self.entries.remove(0);
                }
                proof {
                    let w = if has_key(e0, key) {
                        e0.remove(index_of(e0, key))
                    } else {
                        e0
                    }.push((key, next.0));
                    if w.len() > self.capacity {
                        assert(self.entries@ =~= w.drop_first());
                    } else {
                        assert(self.entries@ =~= w);
                    }
                }
                Ok(())
            },
        }
    }
}

/// A rate limiter with one limit per key, keeping at most a fixed number of keys.
pub struct KeyedRateLimiter<C> where C: Clock {
    store: KeyedStateStore,
    gcra: Gcra,
    clock: C,
    start: Nanos,
}

impl<C> KeyedRateLimiter<C> where C: Clock {
    pub closed spec fn engine(self) -> Gcra {
        self.gcra
    }

    pub closed spec fn started(self) -> Nanos {
        self.start
    }

    pub closed spec fn store(self) -> KeyedStateStore {
        self.store
    }

    pub open spec fn wf(self) -> bool {
        self.store().wf()
    }

    /// A keyed limiter for `quota` on `clock` that keeps at most `capacity` keys;
    /// `None` where that is zero.
    pub fn new(quota: Quota, capacity: usize, clock: &C) -> (r: Option<Self>)
        ensures
            r is Some <==> capacity >= 1,
            r matches Some(l) ==> l.wf() && l.engine().t() == quota.interval()
                && l.engine().burst() == quota.burst() && l.store().entries().len() == 0
                && l.store().capacity_bound() == capacity,
    {
        match KeyedStateStore::with_capacity(capacity) {
            None => None,
            Some(store) => {
                let start = clock.now();
                Some(KeyedRateLimiter { store, gcra: Gcra::new(quota), clock: clock.clone(), start })
            },
        }
    }

    /// Checks whether `n` cells at `key` may pass now, and if so records them.
    /// The decision is the engine's over the key's state, at the time read from
    /// the clock.
    pub fn check_key_n(&mut self, key: u64, n: u32) -> (r: Result<(), CheckNError>)
        requires
            old(self).wf(),
        ensures
            final(self).wf(),
            final(self).engine() == old(self).engine(),
            final(self).started() == old(self).started(),
            final(self).store().capacity_bound() == old(self).store().capacity_bound(),
            n > old(self).engine().burst() ==> r == Err::<(), CheckNError>(
                CheckNError::InsufficientCapacity(InsufficientCapacity(old(self).engine().burst() as u32)),
            ),
            exists|now: Nanos|
                match #[trigger] gcra_outcome(
                    old(self).engine().t(),
                    old(self).engine().burst(),
                    n as int,
                    tat_in(old(self).store().entries(), key),
                    now@,
                ) {
                    Ok(next) => r is Ok && final(self).store().entries() == touched(
                        old(self).store().entries(),
                        key,
                        next.0,
                        old(self).store().capacity_bound(),
                    ),
                    Err(GcraError::NotUntil(earliest)) => r == Err::<(), CheckNError>(
                        CheckNError::NotUntil(NotUntil { start: old(self).started(), earliest }),
                    ) && final(self).store().entries() == old(self).store().entries(),
                    Err(GcraError::InsufficientCapacity(b)) => r == Err::<(), CheckNError>(
                        CheckNError::InsufficientCapacity(InsufficientCapacity(b)),
                    ) && final(self).store().entries() == old(self).store().entries(),
                },
    {
        let now = self.clock.now().duration_since(self.start);
        let gcra = self.gcra;
        let ghost before = self.store;
        let res = self.store.check_at(&gcra, key, n, now);
        proof {
            if !(res is Ok) {
                assert(self.store.entries@ =~= before.entries@);
            }
            let o = gcra_outcome(gcra.t(), gcra.burst(), n as int, tat_in(before.entries(), key), now@);
            if o is Ok {
                assert(res is Ok);
                assert(self.store.entries() == touched(before.entries(), key, o->Ok_0.0, before.capacity_bound()));
            }
        }
        match res {
            Ok(()) => Ok(()),
            Err(GcraError::NotUntil(earliest)) => Err(CheckNError::NotUntil(NotUntil { start: self.start, earliest })),
            Err(GcraError::InsufficientCapacity(b)) => Err(CheckNError::InsufficientCapacity(InsufficientCapacity(b))),
        }
    }

    /// Checks whether one cell at `key` may pass now, and if so records it.
    pub fn check_key(&mut self, key: u64) -> (r: Result<(), NotUntil>)
        requires
            old(self).wf(),
        ensures
            final(self).wf(),
            final(self).engine() == old(self).engine(),
            final(self).started() == old(self).started(),
            final(self).store().capacity_bound() == old(self).store().capacity_bound(),
            exists|now: Nanos|
                match #[trigger] gcra_outcome(
                    old(self).engine().t(),
                    old(self).engine().burst(),
                    1,
                    tat_in(old(self).store().entries(), key),
                    now@,
                ) {
                    Ok(next) => r is Ok && final(self).store().entries() == touched(
                        old(self).store().entries(),
                        key,
                        next.0,
                        old(self).store().capacity_bound(),
                    ),
                    Err(GcraError::NotUntil(earliest)) => r == Err::<(), NotUntil>(
                        NotUntil { start: old(self).started(), earliest },
                    ) && final(self).store().entries() == old(self).store().entries(),
                    Err(GcraError::InsufficientCapacity(_)) => false,
                },
    {
        // The burst size is at least one, so one cell never exceeds it.
        let _burst = self.gcra.burst_size();
        match self.check_key_n(key, 1) {
            Ok(()) => Ok(()),
            Err(CheckNError::NotUntil(nu)) => Err(nu),
            Err(CheckNError::InsufficientCapacity(_)) => Err(NotUntil { start: self.start, earliest: self.start }),
        }
    }
}

} // verus!
