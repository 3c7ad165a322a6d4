//! Lookup-or-load cache of databases, keyed by SDK identifier.
//!
//! The registry owns the only mutable state of the system: the table of
//! resident databases, the table of in-flight loads, and the health
//! counters. Databases themselves are immutable and handed out as
//! reference-counted shares, so eviction merely drops the registry's own
//! reference and can never invalidate a share already handed out.
//!
//! Loading is expensive and is not performed here: a caller that is told
//! [`AcquireStep::StartLoad`] materializes the database (read, parse,
//! [`crate::database::Database::from_images`]) and reports the outcome to
//! [`Registry::complete_load`]; a caller that is told [`AcquireStep::Join`]
//! waits on that same flight and shares its outcome. This keeps at most
//! one load in flight per identifier.

use crate::database::Database;
use crate::errors::{AcquireError, LoadFault};
use std::sync::Arc;
use vstd::prelude::*;

verus! {

/// One resident database under its SDK identifier.
struct CacheSlot {
    key: String,
    db: Arc<Database>,
}

/// One in-flight load: its SDK identifier and how many callers wait on it.
struct FlightSlot {
    key: String,
    waiters: u64,
}

/// What one `acquire` call observes.
pub enum AcquireStep {
    /// The database is resident; here is a new shared handle to it.
    Ready(Arc<Database>),
    /// Another caller is already loading this identifier; wait on that
    /// flight and share its outcome.
    Join,
    /// No load is in flight: the caller performs the one load and reports
    /// its outcome to `complete_load`.
    StartLoad,
    /// The identifier names no known data source; not retryable.
    Unknown,
}

/// The decision `acquire` takes in a given registry state.
#[derive(Clone, Copy, Debug, PartialEq, Eq, Structural)]
pub enum AcquireDecision {
    Hit,
    Join,
    StartLoad,
    Unknown,
}

/// The identifier is among the listed source names.
pub open spec fn source_listed(sources: Seq<String>, key: Seq<char>) -> bool {
    exists|i: int| 0 <= i < sources.len() && (#[trigger] sources[i])@ == key
}

/// `x + 1`, stopping at the counter's top.
pub open spec fn saturating_inc(x: u64) -> u64 {
    if x == u64::MAX {
        x
    } else {
        (x + 1) as u64
    }
}

/// What the health endpoint reports.
#[derive(Clone, Copy, Debug, PartialEq, Eq, Structural)]
pub struct HealthStatus {
    /// The load subsystem is serving: no failed load attempt since the
    /// most recent successful one (or no attempt at all yet).
    pub is_healthy: bool,
    /// How many load attempts in a row have failed.
    pub failures_since_success: u64,
    /// How many databases are resident.
    pub cached_databases: usize,
    /// How many loads are in flight right now.
    pub loads_in_flight: usize,
}

// The spec accessors of `Registry` delegate to these helpers over the
// private slot sequences, so that a transition that leaves one sequence
// untouched leaves everything said over it untouched as well.
spec fn cache_has(s: Seq<CacheSlot>, key: Seq<char>) -> bool {
    exists|i: int| 0 <= i < s.len() && (#[trigger] s[i]).key@ == key
}

spec fn cache_at(s: Seq<CacheSlot>, key: Seq<char>) -> Database {
    *(s[choose|i: int| 0 <= i < s.len() && (#[trigger] s[i]).key@ == key]).db
}

spec fn cache_keys_unique(s: Seq<CacheSlot>) -> bool {
    forall|i: int, j: int|
        0 <= i < s.len() && 0 <= j < s.len() && i != j ==> (#[trigger] s[i]).key@ != (
        #[trigger] s[j]).key@
}

spec fn flights_have(s: Seq<FlightSlot>, key: Seq<char>) -> bool {
    exists|i: int| 0 <= i < s.len() && (#[trigger] s[i]).key@ == key
}

spec fn flights_waiters(s: Seq<FlightSlot>, key: Seq<char>) -> u64 {
    (s[choose|i: int| 0 <= i < s.len() && (#[trigger] s[i]).key@ == key]).waiters
}

spec fn flight_keys_unique(s: Seq<FlightSlot>) -> bool {
    forall|i: int, j: int|
        0 <= i < s.len() && 0 <= j < s.len() && i != j ==> (#[trigger] s[i]).key@ != (
        #[trigger] s[j]).key@
}

/// With unique keys, a slot index fixes what the cache reports for its key.
proof fn lemma_cache_slot(s: Seq<CacheSlot>, i: int)
    requires
        cache_keys_unique(s),
        0 <= i < s.len(),
    ensures
        cache_has(s, s[i].key@),
        cache_at(s, s[i].key@) == *s[i].db,
{
    let k = s[i].key@;
    assert(cache_has(s, k));
    let c = choose|j: int| 0 <= j < s.len() && (#[trigger] s[j]).key@ == k;
    assert(c == i);
}

/// With unique keys, a slot index fixes what the flight table reports for
/// its key.
proof fn lemma_flight_slot(s: Seq<FlightSlot>, i: int)
    requires
        flight_keys_unique(s),
        0 <= i < s.len(),
    ensures
        flights_have(s, s[i].key@),
        flights_waiters(s, s[i].key@) == s[i].waiters,
{
    let k = s[i].key@;
    assert(flights_have(s, k));
    let c = choose|j: int| 0 <= j < s.len() && (#[trigger] s[j]).key@ == k;
    assert(c == i);
}

/// Cache of loaded databases: lookup-or-load with single-flight loading,
/// bounded residency with oldest-first eviction, and health tracking.
pub struct Registry {
    sources: Vec<String>,
    cache: Vec<CacheSlot>,
    flights: Vec<FlightSlot>,
    capacity: usize,
    failure_streak: u64,
    load_starts: u64,
}

impl Registry {
    /// The identifier is registered with a data source.
    pub closed spec fn knows_source(self, key: Seq<char>) -> bool {
        source_listed(self.sources@, key)
    }

    /// A database for the identifier is resident.
    pub closed spec fn is_cached(self, key: Seq<char>) -> bool {
        cache_has(self.cache@, key)
    }

    /// The database resident under the identifier.
    pub closed spec fn cached_db(self, key: Seq<char>) -> Database {
        cache_at(self.cache@, key)
    }

    /// How many databases are resident.
    pub closed spec fn cached_count(self) -> nat {
        self.cache@.len()
    }

    /// The key resident the longest, next in line for eviction.
    pub closed spec fn oldest_cached_key(self) -> Seq<char> {
        self.cache@[0].key@
    }

    /// A load for the identifier is in flight.
    pub closed spec fn is_loading(self, key: Seq<char>) -> bool {
        flights_have(self.flights@, key)
    }

    /// How many callers wait on the identifier's in-flight load.
    pub closed spec fn flight_waiters(self, key: Seq<char>) -> u64 {
        flights_waiters(self.flights@, key)
    }

    /// How many loads are in flight.
    pub closed spec fn loads_in_flight(self) -> nat {
        self.flights@.len()
    }

    /// The residency bound.
    pub closed spec fn spec_capacity(self) -> int {
        self.capacity as int
    }

    /// How many load attempts in a row have failed (0 after a success).
    pub closed spec fn failures_since_success(self) -> u64 {
        self.failure_streak
    }

    /// How many loads have ever been started (saturating).
    pub closed spec fn loads_started(self) -> u64 {
        self.load_starts
    }

    /// Registry bookkeeping is consistent: identifiers key at most one
    /// resident database and at most one flight each, a key is never both
    /// resident and loading, every resident or loading key is backed by a
    /// source, flights have waiters, and residency respects the bound.
    pub closed spec fn wf(self) -> bool {
        &&& self.capacity >= 1
        &&& self.cache@.len() <= self.capacity
        &&& cache_keys_unique(self.cache@)
        &&& flight_keys_unique(self.flights@)
        &&& forall|i: int|
            0 <= i < self.cache@.len() ==> self.knows_source((#[trigger] self.cache@[i]).key@)
        &&& forall|i: int|
            0 <= i < self.flights@.len() ==> self.knows_source(
                (#[trigger] self.flights@[i]).key@,
            )
        &&& forall|i: int|
            0 <= i < self.flights@.len() ==> !self.is_cached((#[trigger] self.flights@[i]).key@)
        &&& forall|i: int| 0 <= i < self.flights@.len() ==> (#[trigger] self.flights@[i]).waiters
            >= 1
    }

    /// Creates a registry over the given data sources, holding at most
    /// `capacity` databases resident at a time. Nothing is loaded yet and
    /// the health signal starts up.
    pub fn new(sources: Vec<String>, capacity: usize) -> (r: Registry)
        requires
            capacity >= 1,
        ensures
            r.wf(),
            forall|k: Seq<char>| #[trigger] r.knows_source(k) == source_listed(sources@, k),
            forall|k: Seq<char>| !(#[trigger] r.is_cached(k)),
            forall|k: Seq<char>| !(#[trigger] r.is_loading(k)),
            r.spec_capacity() == capacity,
            r.failures_since_success() == 0,
            r.loads_started() == 0,
    {
        Registry {
            sources,
            cache: Vec::new(),
            flights: Vec::new(),
            capacity,
            failure_streak: 0,
            load_starts: 0,
        }
    }

    /// What the health endpoint must report in a given state.
    pub open spec fn spec_health(self) -> HealthStatus {
        HealthStatus {
            is_healthy: self.failures_since_success() == 0,
            failures_since_success: self.failures_since_success(),
            cached_databases: self.cached_count() as usize,
            loads_in_flight: self.loads_in_flight() as usize,
        }
    }

    /// Reads the health of the load subsystem: healthy exactly when no
    /// failed load attempt stands unsuperseded by a success. Performs no
    /// load, returns at once — also while loads are in flight.
    pub fn check_health(&self) -> (r: HealthStatus)
        ensures
            r == self.spec_health(),
            r.is_healthy <==> self.failures_since_success() == 0,
    {
        HealthStatus {
            is_healthy: self.failure_streak == 0,
            failures_since_success: self.failure_streak,
            cached_databases: self.cache.len(),
            loads_in_flight: self.flights.len(),
        }
    }

    /// How many loads have ever been started, saturating at the counter's
    /// width; acquires that join an existing flight do not add to it.
    pub fn load_start_count(&self) -> (n: u64)
        ensures
            n == self.loads_started(),
    {
        self.load_starts
    }

    /// Whether the identifier is registered with a data source.
    fn knows(&self, sdk_id: &String) -> (r: bool)
        ensures
            r == self.knows_source(sdk_id@),
    {
        let n = self.sources.len();
        let mut i: usize = 0;
        while i < n
            invariant
                n == self.sources@.len(),
                i <= n,
                forall|k: int| 0 <= k < i ==> (#[trigger] self.sources@[k])@ != sdk_id@,
            decreases n - i,
        {
            if self.sources[i] == *sdk_id {
                return true;
            }
            i = i + 1;
        }
        false
    }

    /// The cache slot holding the identifier, if it is resident.
    fn cache_index(&self, sdk_id: &String) -> (r: Option<usize>)
        requires
            self.wf(),
        ensures
            match r {
                Some(i) => i < self.cache@.len() && self.cache@[i as int].key@ == sdk_id@
                    && self.is_cached(sdk_id@) && self.cached_db(sdk_id@) == *self.cache@[
                    i as int].db,
                None => !self.is_cached(sdk_id@),
            },
    {
        let n = self.cache.len();
        let mut i: usize = 0;
        while i < n
            invariant
                self.wf(),
                n == self.cache@.len(),
                i <= n,
                forall|k: int| 0 <= k < i ==> (#[trigger] self.cache@[k]).key@ != sdk_id@,
            decreases n - i,
        {
            if self.cache[i].key == *sdk_id {
                proof {
                    lemma_cache_slot(self.cache@, i as int);
                }
                return Some(i);
            }
            i = i + 1;
        }
        None
    }

    /// The flight slot holding the identifier, if a load is in flight.
    fn flight_index(&self, sdk_id: &String) -> (r: Option<usize>)
        requires
            self.wf(),
        ensures
            match r {
                Some(i) => i < self.flights@.len() && self.flights@[i as int].key@ == sdk_id@
                    && self.is_loading(sdk_id@) && self.flight_waiters(sdk_id@) == self.flights@[
                    i as int].waiters,
                None => !self.is_loading(sdk_id@),
            },
    {
        let n = self.flights.len();
        let mut i: usize = 0;
        while i < n
            invariant
                self.wf(),
                n == self.flights@.len(),
                i <= n,
                forall|k: int| 0 <= k < i ==> (#[trigger] self.flights@[k]).key@ != sdk_id@,
            decreases n - i,
        {
            if self.flights[i].key == *sdk_id {
                proof {
                    lemma_flight_slot(self.flights@, i as int);
                }
                return Some(i);
            }
            i = i + 1;
        }
        None
    }
}

/// The decision `acquire` takes against registry state `reg` for `key`:
/// unknown identifiers fail at once, a resident database is a hit, an
/// in-flight load is joined, and only otherwise is a load started.
pub open spec fn spec_acquire_decision(reg: Registry, key: Seq<char>) -> AcquireDecision {
    if !reg.knows_source(key) {
        AcquireDecision::Unknown
    } else if reg.is_cached(key) {
        AcquireDecision::Hit
    } else if reg.is_loading(key) {
        AcquireDecision::Join
    } else {
        AcquireDecision::StartLoad
    }
}

impl Registry {
    /// One `acquire` observation for `sdk_id`, per [`spec_acquire_decision`].
    /// Waiting happens at the caller: `Join` and `StartLoad` callers block
    /// until [`Registry::complete_load`] reports the flight's one outcome
    /// to all of them alike.
    pub fn acquire_step(&mut self, sdk_id: &String) -> (r: AcquireStep)
        requires
            old(self).wf(),
        ensures
            final(self).wf(),
            // the decision, determined by the prior state alone
            (match r {
                AcquireStep::Unknown => spec_acquire_decision(*old(self), sdk_id@)
                    == AcquireDecision::Unknown,
                AcquireStep::Ready(h) => spec_acquire_decision(*old(self), sdk_id@)
                    == AcquireDecision::Hit && *h == old(self).cached_db(sdk_id@),
                AcquireStep::Join => spec_acquire_decision(*old(self), sdk_id@)
                    == AcquireDecision::Join,
                AcquireStep::StartLoad => spec_acquire_decision(*old(self), sdk_id@)
                    == AcquireDecision::StartLoad,
            }),
            // sources, residency and health never move here
            forall|k: Seq<char>| #[trigger]
                final(self).knows_source(k) == old(self).knows_source(k),
            forall|k: Seq<char>| #[trigger] final(self).is_cached(k) == old(self).is_cached(k),
            forall|k: Seq<char>|
                old(self).is_cached(k) ==> #[trigger] final(self).cached_db(k)
                    == old(self).cached_db(k),
            final(self).cached_count() == old(self).cached_count(),
            final(self).spec_capacity() == old(self).spec_capacity(),
            final(self).failures_since_success() == old(self).failures_since_success(),
            // the flight table moves only under this key
            forall|k: Seq<char>|
                k != sdk_id@ ==> #[trigger] final(self).is_loading(k) == old(self).is_loading(k),
            forall|k: Seq<char>|
                k != sdk_id@ && old(self).is_loading(k)
                    ==> #[trigger] final(self).flight_waiters(k) == old(self).flight_waiters(k),
            (match r {
                AcquireStep::Unknown => *final(self) == *old(self),
                AcquireStep::Ready(_) => *final(self) == *old(self),
                AcquireStep::Join => final(self).is_loading(sdk_id@)
                    && final(self).flight_waiters(sdk_id@) == saturating_inc(old(self).flight_waiters(sdk_id@))
                    && final(self).loads_started() == old(self).loads_started(),
                AcquireStep::StartLoad => final(self).is_loading(sdk_id@)
                    && final(self).flight_waiters(sdk_id@) == 1
                    && final(self).loads_started() == saturating_inc(old(self).loads_started()),
            }),
    {
        if !self.knows(sdk_id) {
            return AcquireStep::Unknown;
        }
        if let Some(i) = self.cache_index(sdk_id) {
            let h = self.cache[i].db.clone();
            return AcquireStep::Ready(h);
        }
        if let Some(i) = self.flight_index(sdk_id) {
            let ghost pre_flights = self.flights@;
            let w = self.flights[i].waiters;
            self.flights[i].waiters = if w == u64::MAX {
                w
            } else {
                w + 1
            };
            proof {
                assert(self.flights@ == pre_flights.update(
                    i as int,
                    FlightSlot { waiters: saturating_inc(w), ..pre_flights[i as int] },
                ));
                lemma_flight_slot(self.flights@, i as int);
                assert forall|k: Seq<char>| k != sdk_id@ implies #[trigger] flights_have(
                    self.flights@,
                    k,
                ) == flights_have(pre_flights, k) by {
                    if flights_have(self.flights@, k) {
                        let j = choose|j: int|
                            0 <= j < self.flights@.len() && (#[trigger] self.flights@[j]).key@
                                == k;
                        assert(pre_flights[j].key@ == k);
                        assert(flights_have(pre_flights, k));
                    }
                    if flights_have(pre_flights, k) {
                        let j = choose|j: int|
                            0 <= j < pre_flights.len() && (#[trigger] pre_flights[j]).key@ == k;
                        assert(self.flights@[j].key@ == k);
                        assert(flights_have(self.flights@, k));
                    }
                }
                assert forall|k: Seq<char>|
                    k != sdk_id@ && flights_have(pre_flights, k) implies #[trigger] flights_waiters(
                    self.flights@,
                    k,
                ) == flights_waiters(pre_flights, k) by {
                    let j = choose|j: int|
                        0 <= j < pre_flights.len() && (#[trigger] pre_flights[j]).key@ == k;
                    assert(j != i as int);
                    lemma_flight_slot(pre_flights, j);
                    assert(self.flights@[j].key@ == k);
                    lemma_flight_slot(self.flights@, j);
                }
            }
            return AcquireStep::Join;
        }
        let ghost pre = *self;
        self.flights.push(FlightSlot { key: sdk_id.clone(), waiters: 1 });
        self.load_starts = if self.load_starts == u64::MAX {
            self.load_starts
        } else {
            self.load_starts + 1
        };
        proof {
            let n = pre.flights@.len() as int;
            assert(self.flights@ == pre.flights@.push(self.flights@[n]));
            assert(self.flights@[n].key@ == sdk_id@);
            lemma_flight_slot(self.flights@, n);
            assert forall|k: Seq<char>| k != sdk_id@ implies #[trigger] flights_have(
                self.flights@,
                k,
            ) == flights_have(pre.flights@, k) by {
                if flights_have(self.flights@, k) {
                    let j = choose|j: int|
                        0 <= j < self.flights@.len() && (#[trigger] self.flights@[j]).key@ == k;
                    assert(j != n);
                    assert(pre.flights@[j].key@ == k);
                    assert(flights_have(pre.flights@, k));
                }
                if flights_have(pre.flights@, k) {
                    let j = choose|j: int|
                        0 <= j < pre.flights@.len() && (#[trigger] pre.flights@[j]).key@ == k;
                    assert(self.flights@[j].key@ == k);
                    assert(flights_have(self.flights@, k));
                }
            }
            assert forall|k: Seq<char>|
                k != sdk_id@ && flights_have(pre.flights@, k) implies #[trigger] flights_waiters(
                self.flights@,
                k,
            ) == flights_waiters(pre.flights@, k) by {
                let j = choose|j: int|
                    0 <= j < pre.flights@.len() && (#[trigger] pre.flights@[j]).key@ == k;
                lemma_flight_slot(pre.flights@, j);
                assert(self.flights@[j].key@ == k);
                lemma_flight_slot(self.flights@, j);
            }
        }
        AcquireStep::StartLoad
    }
}


/// Updating one slot's waiter count, key unchanged, moves nothing else.
proof fn lemma_flights_update(s: Seq<FlightSlot>, i: int, slot: FlightSlot)
    requires
        flight_keys_unique(s),
        0 <= i < s.len(),
        slot.key@ == s[i].key@,
    ensures
        flight_keys_unique(s.update(i, slot)),
        flights_have(s.update(i, slot), slot.key@),
        flights_waiters(s.update(i, slot), slot.key@) == slot.waiters,
        forall|k: Seq<char>|
            k != slot.key@ ==> #[trigger] flights_have(s.update(i, slot), k) == flights_have(s, k),
        forall|k: Seq<char>|
            k != slot.key@ && flights_have(s, k) ==> #[trigger] flights_waiters(
                s.update(i, slot),
                k,
            ) == flights_waiters(s, k),
{
    let t = s.update(i, slot);
    lemma_flight_slot(t, i);
    assert forall|k: Seq<char>| k != slot.key@ implies #[trigger] flights_have(t, k)
        == flights_have(s, k) by {
        if flights_have(t, k) {
            let j = choose|j: int| 0 <= j < t.len() && (#[trigger] t[j]).key@ == k;
            assert(s[j].key@ == k);
            assert(flights_have(s, k));
        }
        if flights_have(s, k) {
            let j = choose|j: int| 0 <= j < s.len() && (#[trigger] s[j]).key@ == k;
            assert(t[j].key@ == k);
            assert(flights_have(t, k));
        }
    }
    assert forall|k: Seq<char>| k != slot.key@ && flights_have(s, k) implies
        #[trigger] flights_waiters(t, k) == flights_waiters(s, k) by {
        let j = choose|j: int| 0 <= j < s.len() && (#[trigger] s[j]).key@ == k;
        lemma_flight_slot(s, j);
        assert(t[j].key@ == k);
        lemma_flight_slot(t, j);
    }
}

/// Removing one slot takes its key out of the table and moves nothing else.
proof fn lemma_flights_remove(s: Seq<FlightSlot>, i: int)
    requires
        flight_keys_unique(s),
        0 <= i < s.len(),
    ensures
        flight_keys_unique(s.remove(i)),
        !flights_have(s.remove(i), s[i].key@),
        forall|k: Seq<char>|
            k != s[i].key@ ==> #[trigger] flights_have(s.remove(i), k) == flights_have(s, k),
        forall|k: Seq<char>|
            k != s[i].key@ && flights_have(s, k) ==> #[trigger] flights_waiters(s.remove(i), k)
                == flights_waiters(s, k),
{
    let t = s.remove(i);
    s.remove_ensures(i);
    assert forall|a: int, b: int|
        0 <= a < t.len() && 0 <= b < t.len() && a != b implies (#[trigger] t[a]).key@ != (
    #[trigger] t[b]).key@ by {
        let a0: int = if a < i { a } else { a + 1 };
        let b0: int = if b < i { b } else { b + 1 };
        assert(t[a] == s[a0]);
        assert(t[b] == s[b0]);
    }
    assert forall|j: int| 0 <= j < t.len() implies (#[trigger] t[j]).key@ != s[i].key@ by {
        let j0: int = if j < i { j } else { j + 1 };
        assert(t[j] == s[j0]);
    }
    assert forall|k: Seq<char>| k != s[i].key@ implies #[trigger] flights_have(t, k)
        == flights_have(s, k) by {
        if flights_have(t, k) {
            let j = choose|j: int| 0 <= j < t.len() && (#[trigger] t[j]).key@ == k;
            let j0: int = if j < i { j } else { j + 1 };
            assert(t[j] == s[j0]);
            assert(flights_have(s, k));
        }
        if flights_have(s, k) {
            let j0 = choose|j: int| 0 <= j < s.len() && (#[trigger] s[j]).key@ == k;
            let j: int = if j0 < i { j0 } else { j0 - 1 };
            assert(t[j] == s[j0]);
            assert(flights_have(t, k));
        }
    }
    assert forall|k: Seq<char>| k != s[i].key@ && flights_have(s, k) implies
        #[trigger] flights_waiters(t, k) == flights_waiters(s, k) by {
        let j0 = choose|j: int| 0 <= j < s.len() && (#[trigger] s[j]).key@ == k;
        lemma_flight_slot(s, j0);
        let j: int = if j0 < i { j0 } else { j0 - 1 };
        assert(t[j] == s[j0]);
        lemma_flight_slot(t, j);
    }
}

/// Removing one slot takes its key out of the cache and moves nothing else.
proof fn lemma_cache_remove(s: Seq<CacheSlot>, i: int)
    requires
        cache_keys_unique(s),
        0 <= i < s.len(),
    ensures
        cache_keys_unique(s.remove(i)),
        !cache_has(s.remove(i), s[i].key@),
        forall|k: Seq<char>|
            k != s[i].key@ ==> #[trigger] cache_has(s.remove(i), k) == cache_has(s, k),
        forall|k: Seq<char>|
            k != s[i].key@ && cache_has(s, k) ==> #[trigger] cache_at(s.remove(i), k) == cache_at(
                s,
                k,
            ),
{
    let t = s.remove(i);
    s.remove_ensures(i);
    assert forall|a: int, b: int|
        0 <= a < t.len() && 0 <= b < t.len() && a != b implies (#[trigger] t[a]).key@ != (
    #[trigger] t[b]).key@ by {
        let a0: int = if a < i { a } else { a + 1 };
        let b0: int = if b < i { b } else { b + 1 };
        assert(t[a] == s[a0]);
        assert(t[b] == s[b0]);
    }
    assert forall|j: int| 0 <= j < t.len() implies (#[trigger] t[j]).key@ != s[i].key@ by {
        let j0: int = if j < i { j } else { j + 1 };
        assert(t[j] == s[j0]);
    }
    assert forall|k: Seq<char>| k != s[i].key@ implies #[trigger] cache_has(t, k) == cache_has(
        s,
        k,
    ) by {
        if cache_has(t, k) {
            let j = choose|j: int| 0 <= j < t.len() && (#[trigger] t[j]).key@ == k;
            let j0: int = if j < i { j } else { j + 1 };
            assert(t[j] == s[j0]);
            assert(cache_has(s, k));
        }
        if cache_has(s, k) {
            let j0 = choose|j: int| 0 <= j < s.len() && (#[trigger] s[j]).key@ == k;
            let j: int = if j0 < i { j0 } else { j0 - 1 };
            assert(t[j] == s[j0]);
            assert(cache_has(t, k));
        }
    }
    assert forall|k: Seq<char>| k != s[i].key@ && cache_has(s, k) implies #[trigger] cache_at(
        t,
        k,
    ) == cache_at(s, k) by {
        let j0 = choose|j: int| 0 <= j < s.len() && (#[trigger] s[j]).key@ == k;
        lemma_cache_slot(s, j0);
        let j: int = if j0 < i { j0 } else { j0 - 1 };
        assert(t[j] == s[j0]);
        lemma_cache_slot(t, j);
    }
}

/// Appending a fresh key adds exactly that entry to the cache.
proof fn lemma_cache_push(s: Seq<CacheSlot>, slot: CacheSlot)
    requires
        cache_keys_unique(s),
        !cache_has(s, slot.key@),
    ensures
        cache_keys_unique(s.push(slot)),
        cache_has(s.push(slot), slot.key@),
        cache_at(s.push(slot), slot.key@) == *slot.db,
        forall|k: Seq<char>|
            k != slot.key@ ==> #[trigger] cache_has(s.push(slot), k) == cache_has(s, k),
        forall|k: Seq<char>|
            k != slot.key@ && cache_has(s, k) ==> #[trigger] cache_at(s.push(slot), k) == cache_at(
                s,
                k,
            ),
{
    let t = s.push(slot);
    let n = s.len() as int;
    assert forall|j: int| 0 <= j < n implies (#[trigger] s[j]).key@ != slot.key@ by {
        if s[j].key@ == slot.key@ {
            assert(cache_has(s, slot.key@));
        }
    }
    assert forall|a: int, b: int|
        0 <= a < t.len() && 0 <= b < t.len() && a != b implies (#[trigger] t[a]).key@ != (
    #[trigger] t[b]).key@ by {
        if a < n && b < n {
            assert(t[a] == s[a]);
            assert(t[b] == s[b]);
        } else if a == n {
            assert(t[b] == s[b]);
        } else {
            assert(t[a] == s[a]);
        }
    }
    assert(t[n] == slot);
    lemma_cache_slot(t, n);
    assert forall|k: Seq<char>| k != slot.key@ implies #[trigger] cache_has(t, k) == cache_has(
        s,
        k,
    ) by {
        if cache_has(t, k) {
            let j = choose|j: int| 0 <= j < t.len() && (#[trigger] t[j]).key@ == k;
            assert(j != n);
            assert(t[j] == s[j]);
            assert(cache_has(s, k));
        }
        if cache_has(s, k) {
            let j = choose|j: int| 0 <= j < s.len() && (#[trigger] s[j]).key@ == k;
            assert(t[j] == s[j]);
            assert(cache_has(t, k));
        }
    }
    assert forall|k: Seq<char>| k != slot.key@ && cache_has(s, k) implies #[trigger] cache_at(
        t,
        k,
    ) == cache_at(s, k) by {
        let j = choose|j: int| 0 <= j < s.len() && (#[trigger] s[j]).key@ == k;
        lemma_cache_slot(s, j);
        assert(t[j] == s[j]);
        lemma_cache_slot(t, j);
    }
}

impl Registry {
    /// Reports the outcome of the one in-flight load for `sdk_id` and
    /// retires the flight; the protocol hands the returned value to every
    /// waiter of that flight alike. On success the database becomes
    /// resident — evicting the oldest resident entry if the bound is
    /// reached — and the returned share is a handle to exactly it. On
    /// failure nothing is cached (a failed load leaves no stale entry) and
    /// every waiter receives the same load error; a later acquire starts a
    /// fresh attempt. A success clears the failure streak, a failure
    /// lengthens it.
    pub fn complete_load(&mut self, sdk_id: &String, outcome: Result<Database, LoadFault>) -> (r:
        Result<Arc<Database>, AcquireError>)
        requires
            old(self).wf(),
            old(self).is_loading(sdk_id@),
        ensures
            final(self).wf(),
            !final(self).is_loading(sdk_id@),
            forall|k: Seq<char>|
                k != sdk_id@ ==> #[trigger] final(self).is_loading(k) == old(self).is_loading(k),
            forall|k: Seq<char>|
                k != sdk_id@ && old(self).is_loading(k)
                    ==> #[trigger] final(self).flight_waiters(k) == old(self).flight_waiters(k),
            forall|k: Seq<char>| #[trigger]
                final(self).knows_source(k) == old(self).knows_source(k),
            final(self).spec_capacity() == old(self).spec_capacity(),
            final(self).loads_started() == old(self).loads_started(),
            (match (outcome, r) {
                (Ok(db), Ok(h)) => *h == db && final(self).is_cached(sdk_id@) && final(self).cached_db(sdk_id@) == db && final(self).failures_since_success() == 0,
                (Err(f), Err(e)) => e == AcquireError::LoadError(f) && final(self).failures_since_success() == saturating_inc(old(self).failures_since_success())
                    && final(self).cached_count() == old(self).cached_count() && (forall|
                    k: Seq<char>,
                |
                    #[trigger] final(self).is_cached(k) == old(self).is_cached(k)) && (forall|
                    k: Seq<char>,
                |
                    old(self).is_cached(k) ==> #[trigger] final(self).cached_db(k) == old(self).cached_db(k)),
                _ => false,
            }),
            outcome is Ok && old(self).cached_count() < old(self).spec_capacity() ==> final(self).cached_count() == old(self).cached_count() + 1 && (forall|k: Seq<char>|
                k != sdk_id@ ==> #[trigger] final(self).is_cached(k) == old(self).is_cached(k))
                && (forall|k: Seq<char>|
                k != sdk_id@ && old(self).is_cached(k) ==> #[trigger] final(self).cached_db(k)
                    == old(self).cached_db(k)),
            outcome is Ok && old(self).cached_count() == old(self).spec_capacity() ==> !final(self).is_cached(old(self).oldest_cached_key()) && (forall|k: Seq<char>|
                k != sdk_id@ && k != old(self).oldest_cached_key()
                    ==> #[trigger] final(self).is_cached(k) == old(self).is_cached(k)) && (forall|
                k: Seq<char>,
            |
                k != sdk_id@ && k != old(self).oldest_cached_key() && old(self).is_cached(k)
                    ==> #[trigger] final(self).cached_db(k) == old(self).cached_db(k)),
    {
        let ghost pre = *self;
        let fi = match self.flight_index(sdk_id) {
            Some(i) => i,
            None => {
                proof {
                    assert(false);
                }
                0
            },
        };
        let _flight = self.flights.remove(fi);
        proof {
            lemma_flights_remove(pre.flights@, fi as int);
            // the retired flight's key was backed by a source and not resident
            assert(pre.knows_source(sdk_id@));
            assert(!cache_has(pre.cache@, sdk_id@));
        }
        match outcome {
            Ok(db) => {
                if self.cache.len() == self.capacity {
                    let _victim = self.cache.remove(0);
                    proof {
                        lemma_cache_remove(pre.cache@, 0);
                    }
                }
                let ghost mid = *self;
                let h = Arc::new(db);
                self.cache.push(CacheSlot { key: sdk_id.clone(), db: h.clone() });
                self.failure_streak = 0;
                proof {
                    assert(!cache_has(mid.cache@, sdk_id@));
                    let slot = self.cache@[mid.cache@.len() as int];
                    assert(slot.key@ == sdk_id@ && *slot.db == db);
                    assert(self.cache@ == mid.cache@.push(slot));
                    lemma_cache_push(mid.cache@, slot);
                }
                Ok(h)
            },
            Err(f) => {
                self.failure_streak = if self.failure_streak == u64::MAX {
                    self.failure_streak
                } else {
                    self.failure_streak + 1
                };
                Err(AcquireError::LoadError(f))
            },
        }
    }

    /// Drops the registry's own reference to the database resident under
    /// `sdk_id`, if any; shares handed out earlier stay valid until their
    /// holders drop them, so this is safe to run while lookups against the
    /// evicted database are still in progress. Nothing else moves.
    pub fn evict(&mut self, sdk_id: &String) -> (r: bool)
        requires
            old(self).wf(),
        ensures
            final(self).wf(),
            r == old(self).is_cached(sdk_id@),
            evicted(*old(self), *final(self), sdk_id@),
    {
        match self.cache_index(sdk_id) {
            Some(i) => {
                let ghost pre = *self;
                let _slot = self.cache.remove(i);
                proof {
                    lemma_cache_remove(pre.cache@, i as int);
                }
                true
            },
            None => false,
        }
    }

    /// Withdraws one waiter from the in-flight load for `sdk_id` (that
    /// caller timed out or went away). The flight is canceled only when
    /// the last waiter leaves: a timeout on one request never cancels a
    /// load other callers still depend on. Once canceled, a later acquire
    /// starts a fresh load.
    pub fn abandon_flight(&mut self, sdk_id: &String)
        requires
            old(self).wf(),
            old(self).is_loading(sdk_id@),
        ensures
            final(self).wf(),
            old(self).flight_waiters(sdk_id@) > 1 ==> final(self).is_loading(sdk_id@) && final(self).flight_waiters(sdk_id@) == (old(self).flight_waiters(sdk_id@) - 1) as u64,
            old(self).flight_waiters(sdk_id@) == 1 ==> !final(self).is_loading(sdk_id@),
            forall|k: Seq<char>|
                k != sdk_id@ ==> #[trigger] final(self).is_loading(k) == old(self).is_loading(k),
            forall|k: Seq<char>|
                k != sdk_id@ && old(self).is_loading(k)
                    ==> #[trigger] final(self).flight_waiters(k) == old(self).flight_waiters(k),
            forall|k: Seq<char>| #[trigger] final(self).is_cached(k) == old(self).is_cached(k),
            forall|k: Seq<char>|
                old(self).is_cached(k) ==> #[trigger] final(self).cached_db(k)
                    == old(self).cached_db(k),
            forall|k: Seq<char>| #[trigger]
                final(self).knows_source(k) == old(self).knows_source(k),
            final(self).spec_capacity() == old(self).spec_capacity(),
            final(self).failures_since_success() == old(self).failures_since_success(),
            final(self).loads_started() == old(self).loads_started(),
    {
        let ghost pre = *self;
        let fi = match self.flight_index(sdk_id) {
            Some(i) => i,
            None => {
                proof {
                    assert(false);
                }
                0
            },
        };
        let w = self.flights[fi].waiters;
        if w <= 1 {
            let _f = self.flights.remove(fi);
            proof {
                lemma_flights_remove(pre.flights@, fi as int);
            }
        } else {
            self.flights[fi].waiters = w - 1;
            proof {
                let slot = self.flights@[fi as int];
                assert(slot.key@ == sdk_id@ && slot.waiters == w - 1);
                assert(self.flights@ == pre.flights@.update(fi as int, slot));
                lemma_flights_update(pre.flights@, fi as int, slot);
            }
        }
    }
}

/// The registry stepped from `pre` to `post` by dropping (at most) its own
/// reference to the database under `key`: `key` is no longer resident,
/// every other resident entry is intact, and the flight table, sources,
/// capacity and health counters are untouched.
pub open spec fn evicted(pre: Registry, post: Registry, key: Seq<char>) -> bool {
    &&& !post.is_cached(key)
    &&& forall|k: Seq<char>| k != key ==> #[trigger] post.is_cached(k) == pre.is_cached(k)
    &&& forall|k: Seq<char>|
        k != key && pre.is_cached(k) ==> #[trigger] post.cached_db(k) == pre.cached_db(k)
    &&& forall|k: Seq<char>| #[trigger] post.is_loading(k) == pre.is_loading(k)
    &&& forall|k: Seq<char>|
        pre.is_loading(k) ==> #[trigger] post.flight_waiters(k) == pre.flight_waiters(k)
    &&& forall|k: Seq<char>| #[trigger] post.knows_source(k) == pre.knows_source(k)
    &&& post.spec_capacity() == pre.spec_capacity()
    &&& post.failures_since_success() == pre.failures_since_success()
    &&& post.loads_started() == pre.loads_started()
}

/// Acquiring an identifier that no data source backs always fails at once
/// with the not-found outcome: the decision is `Unknown`, so the caller is
/// neither made to wait on any flight nor handed a database.
pub proof fn lemma_unknown_sdk_always_fails(reg: Registry, key: Seq<char>)
    requires
        !reg.knows_source(key),
    ensures
        spec_acquire_decision(reg, key) == AcquireDecision::Unknown,
{
}

/// Single flight: while a load for an identifier is in flight in a
/// well-formed registry, a further acquire for it joins that flight — it
/// never starts a second load.
pub proof fn lemma_single_flight_join(reg: Registry, key: Seq<char>)
    requires
        reg.wf(),
        reg.is_loading(key),
    ensures
        spec_acquire_decision(reg, key) == AcquireDecision::Join,
{
    let i = choose|i: int|
        0 <= i < reg.flights@.len() && (#[trigger] reg.flights@[i]).key@ == key;
    assert(reg.knows_source(key));
    assert(!reg.is_cached(key));
}

/// Once a flight for `key` has completed successfully and its database is
/// resident, every acquire for `key` — until an eviction — is a hit that
/// hands out a share of exactly that database: late callers observe the
/// same value the flight's waiters received.
pub proof fn lemma_completed_load_is_shared(reg: Registry, key: Seq<char>, db: Database)
    requires
        reg.wf(),
        reg.knows_source(key),
        reg.is_cached(key),
        reg.cached_db(key) == db,
    ensures
        spec_acquire_decision(reg, key) == AcquireDecision::Hit,
        reg.cached_db(key) == db,
{
}

/// The health signal is down exactly when the most recent load attempts
/// have failed and no success has superseded them.
pub proof fn lemma_health_iff_unsuperseded_failure(reg: Registry)
    ensures
        reg.spec_health().is_healthy <==> reg.failures_since_success() == 0,
{
}

/// Eviction safety: once `key` is evicted, the registry no longer serves
/// it and every other entry is intact; the database that was resident
/// under it is an immutable value held through counted shares, so a
/// resolution already in progress against such a share keeps reading
/// exactly the data it started with.
pub proof fn lemma_eviction_safety(pre: Registry, post: Registry, key: Seq<char>, db: Database)
    requires
        pre.wf(),
        pre.is_cached(key),
        pre.cached_db(key) == db,
        evicted(pre, post, key),
    ensures
        !post.is_cached(key),
        forall|k: Seq<char>| k != key ==> #[trigger] post.is_cached(k) == pre.is_cached(k),
        forall|k: Seq<char>| #[trigger] post.is_loading(k) == pre.is_loading(k),
        forall|arch: Seq<char>, q: crate::resolve::Query| #[trigger]
            crate::resolve::spec_batch_item(db, arch, q) == crate::resolve::spec_batch_item(
                pre.cached_db(key),
                arch,
                q,
            ),
{
}

} // verus!
