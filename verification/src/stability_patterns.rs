//! Per-route stability patterns: circuit breaker, exponential backoff,
//! throttler, and the registry that keys them by route.
//!
//! Durations and timestamps are integer milliseconds throughout.

use vstd::prelude::*;

verus! {

/// Timeout of a fresh backoff entry, and the floor of every schedule.
pub const INITIAL_TIMEOUT_MS: u64 = 100;

/// Ceiling of every backoff schedule.
pub const MAX_TIMEOUT_MS: u64 = 60000;

/// Attempt count after which `next_with_reset` starts the schedule over.
pub const MAX_BACKOFF_REQUESTS: i32 = 50;

/// Returned by `next_backoff` for a route that has no backoff entry;
/// it matches the upstream HTTP client's default timeout.
pub const FALLBACK_TIMEOUT_MS: u64 = 5000;

/// Trip budget of a circuit breaker that is created on first reference.
pub const DEFAULT_MAX_TRIPS: u16 = 10;

/// 2 to the power `k` (and 1 for a negative `k`).
pub open spec fn pow2(k: int) -> int
    decreases k,
{
    if k <= 0 {
        1
    } else {
        2 * pow2(k - 1)
    }
}

pub proof fn lemma_pow2_pos(k: int)
    ensures
        pow2(k) >= 1,
    decreases k,
{
    if k > 0 {
        lemma_pow2_pos(k - 1);
    }
}

pub proof fn lemma_pow2_mono(a: int, b: int)
    requires
        a <= b,
    ensures
        pow2(a) <= pow2(b),
    decreases b - a,
{
    if a < b {
        lemma_pow2_mono(a, b - 1);
        lemma_pow2_pos(b - 1);
    }
}

/// A per-route circuit breaker: "closed" passes traffic, "open" blocks it.
/// There is no automatic half-open probe: only `reset` closes it again.
#[derive(Clone, Copy)]
pub struct CircuitBreaker {
    /// Errors seen since creation or the last reset.
    pub error_count: u16,
    /// Budget of errors before the circuit opens.
    pub max_trips: u16,
    /// Unix-epoch milliseconds of the most recent trip.
    pub last_error: i64,
    /// Unix-epoch milliseconds of creation.
    pub created_at: i64,
}

impl CircuitBreaker {
    /// The circuit passes traffic while the error budget is not exceeded.
    pub open spec fn spec_closed(self) -> bool {
        self.error_count <= self.max_trips
    }

    pub fn new(max_trips: u16, now_ms: i64) -> (cb: Self)
        ensures
            cb.error_count == 0,
            cb.max_trips == max_trips,
            cb.last_error == now_ms,
            cb.created_at == now_ms,
    {
        CircuitBreaker { error_count: 0, max_trips, last_error: now_ms, created_at: now_ms }
    }

    /// Record one error at `now_ms`; report whether the circuit is still closed.
    /// The count sticks at its ceiling rather than wrap.
    pub fn trip(&mut self, now_ms: i64) -> (still_closed: bool)
        ensures
            final(self).error_count == (if old(self).error_count < u16::MAX {
                old(self).error_count + 1
            } else {
                u16::MAX as int
            }),
            final(self).max_trips == old(self).max_trips,
            final(self).last_error == now_ms,
            final(self).created_at == old(self).created_at,
            still_closed == final(self).spec_closed(),
    {
        if self.error_count < u16::MAX {
            self.error_count = self.error_count + 1;
        }
        self.last_error = now_ms;
        self.error_count <= self.max_trips
    }

    /// Close the circuit again by forgetting all recorded errors.
    pub fn reset(&mut self)
        ensures
            final(self).error_count == 0,
            final(self).max_trips == old(self).max_trips,
            final(self).last_error == old(self).last_error,
            final(self).created_at == old(self).created_at,
    {
        self.error_count = 0;
    }

    pub fn status(&self) -> (closed: bool)
        ensures
            closed == self.spec_closed(),
    {
        self.error_count <= self.max_trips
    }
}

/// A per-route exponential backoff entry. The schedule of `next` is
/// deterministic from creation: 100 ms, then 100 + 20, 100 + 20 + 40, ...
/// saturating at 60 s.
#[derive(Clone, Copy)]
pub struct ExponentialBackoff {
    /// The timeout handed to the next upstream call, in milliseconds.
    pub current_timeout: u64,
    /// How many times `next` has advanced this entry.
    pub requests: i32,
    /// Ceiling of `current_timeout`.
    pub max_timeout: u64,
    /// Attempt count at which `next_with_reset` starts over.
    pub max_requests: i32,
}

impl ExponentialBackoff {
    pub open spec fn spec_new() -> Self {
        ExponentialBackoff {
            current_timeout: INITIAL_TIMEOUT_MS,
            requests: 0,
            max_timeout: MAX_TIMEOUT_MS,
            max_requests: MAX_BACKOFF_REQUESTS,
        }
    }

    /// Well-formedness: the limits are the fixed ones, the timeout is within
    /// them, and a fresh (or reset) entry sits at the initial timeout.
    pub open spec fn wf(self) -> bool {
        &&& self.max_timeout == MAX_TIMEOUT_MS
        &&& self.max_requests == MAX_BACKOFF_REQUESTS
        &&& 0 <= self.requests
        &&& INITIAL_TIMEOUT_MS <= self.current_timeout <= MAX_TIMEOUT_MS
        &&& (self.requests == 0 ==> self.current_timeout == INITIAL_TIMEOUT_MS)
    }

    /// What one advance does: on the first call the timeout is (re)set to the
    /// initial value; afterwards it grows by 10 * 2^requests milliseconds,
    /// clamped to the ceiling. The attempt count sticks at its maximum rather
    /// than wrap.
    pub open spec fn spec_next(self) -> Self {
        let grown = self.current_timeout + 10 * pow2(self.requests as int);
        let t: int = if self.requests == 0 {
            INITIAL_TIMEOUT_MS as int
        } else if grown > self.max_timeout {
            self.max_timeout as int
        } else {
            grown
        };
        ExponentialBackoff {
            current_timeout: t as u64,
            requests: if self.requests < i32::MAX {
                (self.requests + 1) as i32
            } else {
                i32::MAX
            },
            max_timeout: self.max_timeout,
            max_requests: self.max_requests,
        }
    }

    pub fn new() -> (eb: Self)
        ensures
            eb == Self::spec_new(),
            eb.wf(),
    {
        ExponentialBackoff {
            current_timeout: INITIAL_TIMEOUT_MS,
            requests: 0,
            max_timeout: MAX_TIMEOUT_MS,
            max_requests: MAX_BACKOFF_REQUESTS,
        }
    }

    /// The timeout for the next upstream call, without advancing the schedule.
    pub fn current(&self) -> (d: u64)
        ensures
            d == self.current_timeout,
    {
        self.current_timeout
    }

    /// Advance the schedule and return the new timeout. The returned value
    /// never decreases between resets and never exceeds the ceiling.
    pub fn next(&mut self) -> (d: u64)
        requires
            old(self).wf(),
        ensures
            *final(self) == old(self).spec_next(),
            final(self).wf(),
            d == final(self).current_timeout,
            old(self).current_timeout <= d <= MAX_TIMEOUT_MS,
    {
        proof {
            lemma_pow2_pos(self.requests as int);
        }
        if self.requests == 0 {
            self.current_timeout = INITIAL_TIMEOUT_MS;
        } else if self.requests >= 13 {
            proof {
                lemma_pow2_mono(13, self.requests as int);
                assert(pow2(13) == 8192) by {
                    reveal_with_fuel(pow2, 14);
                }
            }
            self.current_timeout = self.max_timeout;
        } else {
            // 10 * 2^requests for requests in 1..=12, by doubling
            let mut inc: u64 = 10;
            let mut i: i32 = 0;
            while i < self.requests
                invariant
                    0 <= i <= self.requests <= 12,
                    inc == 10 * pow2(i as int),
                decreases self.requests - i,
            {
                proof {
                    lemma_pow2_mono(i as int, 11);
                    assert(pow2(11) == 2048) by {
                        reveal_with_fuel(pow2, 12);
                    }
                }
                inc = inc * 2;
                i = i + 1;
            }
            proof {
                lemma_pow2_mono(self.requests as int, 12);
                assert(pow2(12) == 4096) by {
                    reveal_with_fuel(pow2, 13);
                }
            }
            let grown = self.current_timeout + inc;
            if grown > self.max_timeout {
                self.current_timeout = self.max_timeout;
            } else {
                self.current_timeout = grown;
            }
        }
        if self.requests < i32::MAX {
            self.requests = self.requests + 1;
        }
        self.current_timeout
    }

    /// `next`, except that once the attempt count passes its maximum the
    /// entry starts the schedule over. No caller in the forwarder uses this;
    /// it is kept as part of the backoff interface.
    pub fn next_with_reset(&mut self) -> (d: u64)
        requires
            old(self).wf(),
        ensures
            final(self).wf(),
            d == old(self).spec_next().current_timeout,
            *final(self) == (if old(self).spec_next().requests > old(self).max_requests {
                Self::spec_new()
            } else {
                old(self).spec_next()
            }),
    {
        let d = self.next();
        if self.requests > self.max_requests {
            self.reset();
        }
        d
    }

    /// Start the schedule over at the initial timeout.
    pub fn reset(&mut self)
        requires
            old(self).wf(),
        ensures
            *final(self) == Self::spec_new(),
            final(self).wf(),
    {
        self.requests = 0;
        self.current_timeout = INITIAL_TIMEOUT_MS;
    }
}

/// The backoff entry after `k` advances from a fresh entry; its
/// `current_timeout` is the `k`-th value `next` returned (for `k >= 1`).
pub open spec fn backoff_state(k: nat) -> ExponentialBackoff
    decreases k,
{
    if k == 0 {
        ExponentialBackoff::spec_new()
    } else {
        backoff_state((k - 1) as nat).spec_next()
    }
}

/// One advance keeps an entry well formed and never lowers its timeout.
pub proof fn lemma_next_monotone(eb: ExponentialBackoff)
    requires
        eb.wf(),
    ensures
        eb.spec_next().wf(),
        eb.current_timeout <= eb.spec_next().current_timeout <= MAX_TIMEOUT_MS,
{
    lemma_pow2_pos(eb.requests as int);
}

/// Law: for every route, the sequence of values returned by successive
/// `next` calls on its backoff entry is monotonically non-decreasing in the
/// call index and bounded by 60 s.
pub proof fn lemma_backoff_schedule_monotone(k: nat)
    ensures
        backoff_state(k).wf(),
        backoff_state(k).current_timeout <= backoff_state(k + 1).current_timeout,
        INITIAL_TIMEOUT_MS <= backoff_state(k).current_timeout <= MAX_TIMEOUT_MS,
    decreases k,
{
    if k == 0 {
        lemma_next_monotone(backoff_state(0));
    } else {
        lemma_backoff_schedule_monotone((k - 1) as nat);
        lemma_next_monotone(backoff_state((k - 1) as nat));
        lemma_next_monotone(backoff_state(k));
    }
}

/// A per-route request throttler: at most `max_requests` observations per
/// window of `time_window` milliseconds. Wired in the registry; the forwarder
/// does not consult it yet.
#[derive(Clone, Copy)]
pub struct Throttler {
    /// Observations allowed per window.
    pub max_requests: u32,
    /// Observations seen in the current window, this one included.
    pub current_requests: u32,
    /// Unix-epoch milliseconds at which the current window opened.
    pub last_request: i64,
    /// Window length in milliseconds.
    pub time_window: i64,
}

impl Throttler {
    pub fn new(max_requests: u32, time_window: i64, now_ms: i64) -> (t: Self)
        ensures
            t.max_requests == max_requests,
            t.current_requests == 0,
            t.last_request == now_ms,
            t.time_window == time_window,
    {
        Throttler { max_requests, current_requests: 0, last_request: now_ms, time_window }
    }

    /// Record one observation at `now_ms`. The answer is false exactly when
    /// the window that `now_ms` falls in has seen more than `max_requests`
    /// observations, this one included.
    pub fn check(&mut self, now_ms: i64) -> (allowed: bool)
        ensures
            final(self).max_requests == old(self).max_requests,
            final(self).time_window == old(self).time_window,
            (if now_ms - old(self).last_request >= old(self).time_window {
                final(self).current_requests == 1 && final(self).last_request == now_ms
            } else {
                (final(self).current_requests == (if old(self).current_requests < u32::MAX {
                    old(self).current_requests + 1
                } else {
                    u32::MAX as int
                })) && final(self).last_request == old(self).last_request
            }),
            allowed == (final(self).current_requests <= final(self).max_requests),
    {
        let elapsed: i128 = (now_ms as i128) - (self.last_request as i128);
        if elapsed >= self.time_window as i128 {
            self.current_requests = 1;
            self.last_request = now_ms;
        } else {
            if self.current_requests < u32::MAX {
                self.current_requests = self.current_requests + 1;
            }
        }
        self.current_requests <= self.max_requests
    }
}

/// The value stored under `key` in an association list: the first entry whose
/// key has that view, if any.
pub open spec fn spec_find<V>(entries: Seq<(String, V)>, key: Seq<char>) -> Option<V>
    decreases entries.len(),
{
    if entries.len() == 0 {
        None
    } else if entries[0].0@ == key {
        Some(entries[0].1)
    } else {
        spec_find(entries.drop_first(), key)
    }
}

proof fn lemma_find_at<V>(entries: Seq<(String, V)>, key: Seq<char>, i: int)
    requires
        0 <= i < entries.len(),
        entries[i].0@ == key,
        forall|j: int| 0 <= j < i ==> (#[trigger] entries[j]).0@ != key,
    ensures
        spec_find(entries, key) == Some(entries[i].1),
    decreases i,
{
    if i > 0 {
        lemma_find_at(entries.drop_first(), key, i - 1);
    }
}

proof fn lemma_find_none<V>(entries: Seq<(String, V)>, key: Seq<char>)
    requires
        forall|j: int| 0 <= j < entries.len() ==> (#[trigger] entries[j]).0@ != key,
    ensures
        spec_find(entries, key) is None,
    decreases entries.len(),
{
    if entries.len() > 0 {
        lemma_find_none(entries.drop_first(), key);
    }
}

proof fn lemma_find_update<V>(entries: Seq<(String, V)>, key: Seq<char>, i: int, pair: (String, V))
    requires
        0 <= i < entries.len(),
        entries[i].0@ == key,
        forall|j: int| 0 <= j < i ==> (#[trigger] entries[j]).0@ != key,
        pair.0@ == key,
    ensures
        spec_find(entries.update(i, pair), key) == Some(pair.1),
        forall|k: Seq<char>| k != key ==> spec_find(entries.update(i, pair), k) == spec_find(
            entries,
            k,
        ),
    decreases i,
{
    let updated = entries.update(i, pair);
    if i == 0 {
        assert(updated.drop_first() =~= entries.drop_first());
        assert forall|k: Seq<char>| k != key implies spec_find(updated, k) == spec_find(
            entries,
            k,
        ) by {}
    } else {
        assert(updated.drop_first() =~= entries.drop_first().update(i - 1, pair));
        lemma_find_update(entries.drop_first(), key, i - 1, pair);
        assert forall|k: Seq<char>| k != key implies spec_find(updated, k) == spec_find(
            entries,
            k,
        ) by {
            assert(updated[0] == entries[0]);
            if entries[0].0@ != k {
                assert(spec_find(updated, k) == spec_find(updated.drop_first(), k));
                assert(spec_find(entries, k) == spec_find(entries.drop_first(), k));
            }
        }
    }
}

proof fn lemma_find_push<V>(entries: Seq<(String, V)>, key: Seq<char>, pair: (String, V))
    requires
        forall|j: int| 0 <= j < entries.len() ==> (#[trigger] entries[j]).0@ != key,
        pair.0@ == key,
    ensures
        spec_find(entries.push(pair), key) == Some(pair.1),
        forall|k: Seq<char>| k != key ==> spec_find(entries.push(pair), k) == spec_find(
            entries,
            k,
        ),
    decreases entries.len(),
{
    let pushed = entries.push(pair);
    if entries.len() == 0 {
        assert(pushed[0] == pair);
        assert(pushed.drop_first() =~= Seq::<(String, V)>::empty());
        assert forall|k: Seq<char>| k != key implies spec_find(pushed, k) == spec_find(
            entries,
            k,
        ) by {
            if pushed[0].0@ != k {
                assert(spec_find(pushed, k) == spec_find(pushed.drop_first(), k));
            }
        }
    } else {
        assert(pushed.drop_first() =~= entries.drop_first().push(pair));
        lemma_find_push(entries.drop_first(), key, pair);
        assert forall|k: Seq<char>| k != key implies spec_find(pushed, k) == spec_find(
            entries,
            k,
        ) by {
            assert(pushed[0] == entries[0]);
            if entries[0].0@ != k {
                assert(spec_find(pushed, k) == spec_find(pushed.drop_first(), k));
                assert(spec_find(entries, k) == spec_find(entries.drop_first(), k));
            }
        }
    }
}

/// The first entry whose key equals `key`, together with the fact that no
/// earlier entry matches.
fn find_index<V>(entries: &Vec<(String, V)>, key: &String) -> (r: Option<usize>)
    ensures
        (match r {
            Some(i) => i < entries@.len() && entries@[i as int].0@ == key@ && (forall|j: int|
                0 <= j < i ==> (#[trigger] entries@[j]).0@ != key@),
            None => forall|j: int|
                0 <= j < entries@.len() ==> (#[trigger] entries@[j]).0@ != key@,
        }),
{
    let mut i: usize = 0;
    while i < entries.len()
        invariant
            i <= entries@.len(),
            forall|j: int| 0 <= j < i ==> (#[trigger] entries@[j]).0@ != key@,
        decreases entries@.len() - i,
    {
        if entries[i].0 == *key {
            return Some(i);
        }
        i = i + 1;
    }
    None
}

/// The process-wide registry of stability patterns, keyed by route. Entries
/// are created on first reference and live for the lifetime of the process.
pub struct StabilityPatterns {
    pub circuitbreakers: Vec<(String, CircuitBreaker)>,
    pub backoffs: Vec<(String, ExponentialBackoff)>,
    pub throttlers: Vec<(String, Throttler)>,
}

impl StabilityPatterns {
    /// The circuit breaker registered for `route`, if any.
    pub open spec fn spec_cb(self, route: Seq<char>) -> Option<CircuitBreaker> {
        spec_find(self.circuitbreakers@, route)
    }

    /// The backoff entry registered for `route`, if any.
    pub open spec fn spec_backoff(self, route: Seq<char>) -> Option<ExponentialBackoff> {
        spec_find(self.backoffs@, route)
    }

    /// The throttler registered for `route`, if any.
    pub open spec fn spec_throttler(self, route: Seq<char>) -> Option<Throttler> {
        spec_find(self.throttlers@, route)
    }

    /// Whether traffic to `route` passes the circuit-breaker gate: an
    /// unknown route passes (its breaker would be created closed).
    pub open spec fn spec_cb_closed(self, route: Seq<char>) -> bool {
        match self.spec_cb(route) {
            Some(cb) => cb.spec_closed(),
            None => true,
        }
    }

    /// Every registered backoff entry is well formed.
    pub open spec fn wf(self) -> bool {
        forall|i: int| 0 <= i < self.backoffs@.len() ==> (#[trigger] self.backoffs@[i]).1.wf()
    }

    pub fn new() -> (s: Self)
        ensures
            s.circuitbreakers@.len() == 0,
            s.backoffs@.len() == 0,
            s.throttlers@.len() == 0,
            s.wf(),
            forall|k: Seq<char>| s.spec_cb(k) is None,
            forall|k: Seq<char>| s.spec_backoff(k) is None,
            forall|k: Seq<char>| s.spec_throttler(k) is None,
    {
        StabilityPatterns { circuitbreakers: Vec::new(), backoffs: Vec::new(), throttlers: Vec::new() }
    }

    /// Register a circuit breaker for `name` with the given trip budget,
    /// replacing any existing breaker for that route.
    pub fn circuitbreaker(&mut self, name: String, max_trips: u16)
        requires
            old(self).wf(),
        ensures
            final(self).wf(),
            final(self).spec_cb(name@) is Some,
            final(self).spec_cb(name@)->Some_0.error_count == 0,
            final(self).spec_cb(name@)->Some_0.max_trips == max_trips,
            forall|k: Seq<char>| k != name@ ==> final(self).spec_cb(k) == old(self).spec_cb(k),
            final(self).backoffs@ == old(self).backoffs@,
            final(self).throttlers@ == old(self).throttlers@,
    {
        let now = now_millis();
        let cb = CircuitBreaker::new(max_trips, now);
        match find_index(&self.circuitbreakers, &name) {
            Some(i) => {
                proof {
                    lemma_find_update(
                        self.circuitbreakers@,
                        name@,
                        i as int,
                        (self.circuitbreakers@[i as int].0, cb),
                    );
                }
                self.circuitbreakers[i].1 = cb;
            },
            None => {
                proof {
                    lemma_find_push(self.circuitbreakers@, name@, (name, cb));
                }
                self.circuitbreakers.push((name, cb));
            },
        }
    }

    /// Record one error against `name`'s breaker, creating it with the
    /// default budget on first reference; report whether the circuit is
    /// still closed afterwards.
    pub fn trip(&mut self, name: String) -> (still_closed: bool)
        requires
            old(self).wf(),
        ensures
            final(self).wf(),
            final(self).spec_cb(name@) is Some,
            ({
                let prior_count: int = match old(self).spec_cb(name@) {
                    Some(cb) => cb.error_count as int,
                    None => 0,
                };
                final(self).spec_cb(name@)->Some_0.error_count == (if prior_count < u16::MAX {
                    prior_count + 1
                } else {
                    u16::MAX as int
                })
            }),
            final(self).spec_cb(name@)->Some_0.max_trips == (match old(self).spec_cb(name@) {
                Some(cb) => cb.max_trips,
                None => DEFAULT_MAX_TRIPS,
            }),
            still_closed == final(self).spec_cb_closed(name@),
            forall|k: Seq<char>| k != name@ ==> final(self).spec_cb(k) == old(self).spec_cb(k),
            final(self).backoffs@ == old(self).backoffs@,
            final(self).throttlers@ == old(self).throttlers@,
    {
        let now = now_millis();
        match find_index(&self.circuitbreakers, &name) {
            Some(i) => {
                proof {
                    lemma_find_at(self.circuitbreakers@, name@, i as int);
                }
                let mut cb = self.circuitbreakers[i].1;
                let still_closed = cb.trip(now);
                proof {
                    lemma_find_update(
                        self.circuitbreakers@,
                        name@,
                        i as int,
                        (self.circuitbreakers@[i as int].0, cb),
                    );
                }
                self.circuitbreakers[i].1 = cb;
                still_closed
            },
            None => {
                proof {
                    lemma_find_none(self.circuitbreakers@, name@);
                }
                let mut cb = CircuitBreaker::new(DEFAULT_MAX_TRIPS, now);
                let still_closed = cb.trip(now);
                proof {
                    lemma_find_push(self.circuitbreakers@, name@, (name, cb));
                }
                self.circuitbreakers.push((name, cb));
                still_closed
            },
        }
    }

    /// Whether `name`'s circuit is closed, creating the breaker with the
    /// default budget on first reference.
    pub fn check_cb_status(&mut self, name: String) -> (closed: bool)
        requires
            old(self).wf(),
        ensures
            final(self).wf(),
            closed == old(self).spec_cb_closed(name@),
            old(self).spec_cb(name@) is Some ==> final(self).spec_cb(name@) == old(self).spec_cb(
                name@,
            ),
            final(self).spec_cb(name@) is Some,
            final(self).spec_cb(name@)->Some_0.error_count == (match old(self).spec_cb(name@) {
                Some(cb) => cb.error_count as int,
                None => 0,
            }),
            final(self).spec_cb(name@)->Some_0.max_trips == (match old(self).spec_cb(name@) {
                Some(cb) => cb.max_trips,
                None => DEFAULT_MAX_TRIPS,
            }),
            forall|k: Seq<char>| k != name@ ==> final(self).spec_cb(k) == old(self).spec_cb(k),
            final(self).backoffs@ == old(self).backoffs@,
            final(self).throttlers@ == old(self).throttlers@,
    {
        match find_index(&self.circuitbreakers, &name) {
            Some(i) => {
                proof {
                    lemma_find_at(self.circuitbreakers@, name@, i as int);
                }
                self.circuitbreakers[i].1.status()
            },
            None => {
                proof {
                    lemma_find_none(self.circuitbreakers@, name@);
                }
                let now = now_millis();
                let cb = CircuitBreaker::new(DEFAULT_MAX_TRIPS, now);
                let closed = cb.status();
                proof {
                    lemma_find_push(self.circuitbreakers@, name@, (name, cb));
                }
                self.circuitbreakers.push((name, cb));
                closed
            },
        }
    }

    /// Close `name`'s circuit again by zeroing its error count. A route
    /// without a breaker is left as it is: its breaker would be created
    /// closed anyway.
    pub fn reset(&mut self, name: String)
        requires
            old(self).wf(),
        ensures
            final(self).wf(),
            final(self).spec_cb(name@) == (match old(self).spec_cb(name@) {
                Some(cb) => Some(
                    (CircuitBreaker {
                        error_count: 0,
                        max_trips: cb.max_trips,
                        last_error: cb.last_error,
                        created_at: cb.created_at,
                    }),
                ),
                None => Option::<CircuitBreaker>::None,
            }),
            final(self).spec_cb_closed(name@),
            forall|k: Seq<char>| k != name@ ==> final(self).spec_cb(k) == old(self).spec_cb(k),
            final(self).backoffs@ == old(self).backoffs@,
            final(self).throttlers@ == old(self).throttlers@,
    {
        match find_index(&self.circuitbreakers, &name) {
            Some(i) => {
                proof {
                    lemma_find_at(self.circuitbreakers@, name@, i as int);
                }
                let mut cb = self.circuitbreakers[i].1;
                cb.reset();
                proof {
                    lemma_find_update(
                        self.circuitbreakers@,
                        name@,
                        i as int,
                        (self.circuitbreakers@[i as int].0, cb),
                    );
                }
                self.circuitbreakers[i].1 = cb;
            },
            None => {
                proof {
                    lemma_find_none(self.circuitbreakers@, name@);
                }
            },
        }
    }

    /// Make sure a backoff entry exists for `name`; a fresh one starts at
    /// the initial timeout.
    pub fn exponential_backoff(&mut self, name: String)
        requires
            old(self).wf(),
        ensures
            final(self).wf(),
            final(self).spec_backoff(name@) == (match old(self).spec_backoff(name@) {
                Some(eb) => Some(eb),
                None => Some(ExponentialBackoff::spec_new()),
            }),
            forall|k: Seq<char>|
                k != name@ ==> final(self).spec_backoff(k) == old(self).spec_backoff(k),
            final(self).circuitbreakers@ == old(self).circuitbreakers@,
            final(self).throttlers@ == old(self).throttlers@,
    {
        match find_index(&self.backoffs, &name) {
            Some(i) => {
                proof {
                    lemma_find_at(self.backoffs@, name@, i as int);
                }
            },
            None => {
                proof {
                    lemma_find_none(self.backoffs@, name@);
                }
                let eb = ExponentialBackoff::new();
                proof {
                    lemma_find_push(self.backoffs@, name@, (name, eb));
                }
                self.backoffs.push((name, eb));
            },
        }
    }

    /// Advance `name`'s backoff schedule and return the new timeout. For a
    /// route with no backoff entry, return the fixed fallback timeout and
    /// change nothing.
    pub fn next_backoff(&mut self, name: String) -> (d: u64)
        requires
            old(self).wf(),
        ensures
            final(self).wf(),
            (match old(self).spec_backoff(name@) {
                Some(eb) => {
                    &&& d == eb.spec_next().current_timeout
                    &&& eb.current_timeout <= d <= MAX_TIMEOUT_MS
                    &&& final(self).spec_backoff(name@) == Some(eb.spec_next())
                },
                None => {
                    &&& d == FALLBACK_TIMEOUT_MS
                    &&& final(self).backoffs@ == old(self).backoffs@
                },
            }),
            forall|k: Seq<char>|
                k != name@ ==> final(self).spec_backoff(k) == old(self).spec_backoff(k),
            final(self).circuitbreakers@ == old(self).circuitbreakers@,
            final(self).throttlers@ == old(self).throttlers@,
    {
        match find_index(&self.backoffs, &name) {
            Some(i) => {
                proof {
                    lemma_find_at(self.backoffs@, name@, i as int);
                }
                let mut eb = self.backoffs[i].1;
                let d = eb.next();
                proof {
                    lemma_find_update(
                        self.backoffs@,
                        name@,
                        i as int,
                        (self.backoffs@[i as int].0, eb),
                    );
                }
                self.backoffs[i].1 = eb;
                d
            },
            None => {
                proof {
                    lemma_find_none(self.backoffs@, name@);
                }
                FALLBACK_TIMEOUT_MS
            },
        }
    }

    /// The timeout for the next upstream call to `name`, without advancing
    /// the schedule; the entry is created at the initial timeout on first
    /// reference.
    pub fn current_timeout(&mut self, name: String) -> (d: u64)
        requires
            old(self).wf(),
        ensures
            final(self).wf(),
            d == (match old(self).spec_backoff(name@) {
                Some(eb) => eb.current_timeout,
                None => INITIAL_TIMEOUT_MS,
            }),
            INITIAL_TIMEOUT_MS <= d <= MAX_TIMEOUT_MS,
            final(self).spec_backoff(name@) == (match old(self).spec_backoff(name@) {
                Some(eb) => Some(eb),
                None => Some(ExponentialBackoff::spec_new()),
            }),
            forall|k: Seq<char>|
                k != name@ ==> final(self).spec_backoff(k) == old(self).spec_backoff(k),
            final(self).circuitbreakers@ == old(self).circuitbreakers@,
            final(self).throttlers@ == old(self).throttlers@,
    {
        match find_index(&self.backoffs, &name) {
            Some(i) => {
                proof {
                    lemma_find_at(self.backoffs@, name@, i as int);
                }
                self.backoffs[i].1.current()
            },
            None => {
                proof {
                    lemma_find_none(self.backoffs@, name@);
                }
                let eb = ExponentialBackoff::new();
                let d = eb.current();
                proof {
                    lemma_find_push(self.backoffs@, name@, (name, eb));
                }
                self.backoffs.push((name, eb));
                d
            },
        }
    }

    /// Start `name`'s backoff schedule over. A route with no backoff entry
    /// is left as it is.
    pub fn reset_backoff(&mut self, name: String)
        requires
            old(self).wf(),
        ensures
            final(self).wf(),
            final(self).spec_backoff(name@) == (match old(self).spec_backoff(name@) {
                Some(eb) => Some(ExponentialBackoff::spec_new()),
                None => Option::<ExponentialBackoff>::None,
            }),
            forall|k: Seq<char>|
                k != name@ ==> final(self).spec_backoff(k) == old(self).spec_backoff(k),
            final(self).circuitbreakers@ == old(self).circuitbreakers@,
            final(self).throttlers@ == old(self).throttlers@,
    {
        match find_index(&self.backoffs, &name) {
            Some(i) => {
                proof {
                    lemma_find_at(self.backoffs@, name@, i as int);
                }
                let mut eb = self.backoffs[i].1;
                eb.reset();
                proof {
                    lemma_find_update(
                        self.backoffs@,
                        name@,
                        i as int,
                        (self.backoffs@[i as int].0, eb),
                    );
                }
                self.backoffs[i].1 = eb;
            },
            None => {
                proof {
                    lemma_find_none(self.backoffs@, name@);
                }
            },
        }
    }

    /// Make sure a throttler exists for `name` with the given limit and
    /// window; an existing one is kept as it is.
    pub fn ensure_throttler(&mut self, name: String, limit: u32, window_ms: i64)
        requires
            old(self).wf(),
        ensures
            final(self).wf(),
            final(self).spec_throttler(name@) is Some,
            (match old(self).spec_throttler(name@) {
                Some(t) => final(self).spec_throttler(name@) == Some(t),
                None => {
                    &&& final(self).spec_throttler(name@)->Some_0.max_requests == limit
                    &&& final(self).spec_throttler(name@)->Some_0.time_window == window_ms
                    &&& final(self).spec_throttler(name@)->Some_0.current_requests == 0
                },
            }),
            forall|k: Seq<char>|
                k != name@ ==> final(self).spec_throttler(k) == old(self).spec_throttler(k),
            final(self).circuitbreakers@ == old(self).circuitbreakers@,
            final(self).backoffs@ == old(self).backoffs@,
    {
        match find_index(&self.throttlers, &name) {
            Some(i) => {
                proof {
                    lemma_find_at(self.throttlers@, name@, i as int);
                }
            },
            None => {
                proof {
                    lemma_find_none(self.throttlers@, name@);
                }
                let now = now_millis();
                let t = Throttler::new(limit, window_ms, now);
                proof {
                    lemma_find_push(self.throttlers@, name@, (name, t));
                }
                self.throttlers.push((name, t));
            },
        }
    }

    /// Record one observation against `name`'s throttler and report whether
    /// the request is allowed. A route with no throttler is always allowed
    /// and nothing changes. Whatever the clock reads, the answer is exactly
    /// whether the window's observation count stayed within the limit.
    pub fn throttle(&mut self, name: String) -> (allowed: bool)
        requires
            old(self).wf(),
        ensures
            final(self).wf(),
            (match old(self).spec_throttler(name@) {
                Some(t) => {
                    &&& final(self).spec_throttler(name@) is Some
                    &&& final(self).spec_throttler(name@)->Some_0.max_requests == t.max_requests
                    &&& final(self).spec_throttler(name@)->Some_0.time_window == t.time_window
                    &&& allowed == (final(self).spec_throttler(name@)->Some_0.current_requests
                        <= t.max_requests)
                    &&& (final(self).spec_throttler(name@)->Some_0.current_requests == 1
                        || final(self).spec_throttler(name@)->Some_0.current_requests == (
                    if t.current_requests < u32::MAX {
                        t.current_requests + 1
                    } else {
                        u32::MAX as int
                    }))
                },
                None => {
                    &&& allowed == true
                    &&& final(self).throttlers@ == old(self).throttlers@
                },
            }),
            forall|k: Seq<char>|
                k != name@ ==> final(self).spec_throttler(k) == old(self).spec_throttler(k),
            final(self).circuitbreakers@ == old(self).circuitbreakers@,
            final(self).backoffs@ == old(self).backoffs@,
    {
        match find_index(&self.throttlers, &name) {
            Some(i) => {
                proof {
                    lemma_find_at(self.throttlers@, name@, i as int);
                }
                let now = now_millis();
                let mut t = self.throttlers[i].1;
                let allowed = t.check(now);
                proof {
                    lemma_find_update(
                        self.throttlers@,
                        name@,
                        i as int,
                        (self.throttlers@[i as int].0, t),
                    );
                }
                self.throttlers[i].1 = t;
                allowed
            },
            None => {
                proof {
                    lemma_find_none(self.throttlers@, name@);
                }
                true
            },
        }
    }

    /// The error count of `name`'s breaker, if one exists.
    pub fn cb_error_count(&self, name: &String) -> (r: Option<u16>)
        ensures
            r == (match self.spec_cb(name@) {
                Some(cb) => Some(cb.error_count),
                None => Option::<u16>::None,
            }),
    {
        match find_index(&self.circuitbreakers, name) {
            Some(i) => {
                proof {
                    lemma_find_at(self.circuitbreakers@, name@, i as int);
                }
                Some(self.circuitbreakers[i].1.error_count)
            },
            None => {
                proof {
                    lemma_find_none(self.circuitbreakers@, name@);
                }
                None
            },
        }
    }

    /// The attempt count of `name`'s backoff entry, if one exists.
    pub fn backoff_requests(&self, name: &String) -> (r: Option<i32>)
        ensures
            r == (match self.spec_backoff(name@) {
                Some(eb) => Some(eb.requests),
                None => Option::<i32>::None,
            }),
    {
        match find_index(&self.backoffs, name) {
            Some(i) => {
                proof {
                    lemma_find_at(self.backoffs@, name@, i as int);
                }
                Some(self.backoffs[i].1.requests)
            },
            None => {
                proof {
                    lemma_find_none(self.backoffs@, name@);
                }
                None
            },
        }
    }
}

/// Law: for a route whose backoff entry has been advanced `k` times, one
/// more `next_backoff` moves it to the `k + 1`-st schedule state and
/// returns its timeout, which never lies below the `k`-th value and never
/// above 60 s. With `lemma_backoff_schedule_monotone`, the sequence of
/// `next_backoff` return values for a route is monotonically
/// non-decreasing and bounded. The hypotheses are exactly what
/// `next_backoff` ensures for a route in the `k`-th state.
pub proof fn lemma_registry_backoff_schedule(
    before: StabilityPatterns,
    after: StabilityPatterns,
    route: Seq<char>,
    d: u64,
    k: nat,
)
    requires
        before.spec_backoff(route) == Some(backoff_state(k)),
        after.spec_backoff(route) == Some(backoff_state(k).spec_next()),
        d == backoff_state(k).spec_next().current_timeout,
    ensures
        after.spec_backoff(route) == Some(backoff_state(k + 1)),
        backoff_state(k).current_timeout <= d <= MAX_TIMEOUT_MS,
{
    lemma_backoff_schedule_monotone(k);
    lemma_next_monotone(backoff_state(k));
}

/// Law: after a circuit-breaker reset, the breaker for that route reports
/// closed, regardless of how often it was tripped before. The hypothesis is
/// exactly what `reset` ensures of the registry; the conclusion is what
/// `check_cb_status` and the forwarder gate read.
pub proof fn lemma_reset_cb_closes(
    before: StabilityPatterns,
    after: StabilityPatterns,
    route: Seq<char>,
)
    requires
        after.spec_cb(route) == (match before.spec_cb(route) {
            Some(cb) => Some(
                (CircuitBreaker {
                    error_count: 0,
                    max_trips: cb.max_trips,
                    last_error: cb.last_error,
                    created_at: cb.created_at,
                }),
            ),
            None => Option::<CircuitBreaker>::None,
        }),
    ensures
        after.spec_cb_closed(route),
{
}

/// Relies on chrono::Local::now for the wall-clock time in Unix-epoch
/// milliseconds. Nothing is assumed of the value: the clock may read
/// anything.
#[verifier::external_body]
fn now_millis() -> i64 {
    chrono::Local::now().timestamp_millis()
}

} // verus!
