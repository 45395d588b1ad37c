//! Backends: where the state of the keys is kept.
use dashmap::DashMap;
use std::time::Instant;
use vstd::prelude::*;

use crate::clock;
use crate::clock::{NANOS_PER_MILLI, SECS_END};
use crate::gcra;
use crate::metrics::RateLimitResult;
use crate::quota::Quota;
use crate::table;

verus! {

/// A store of rate limit state.
pub trait RateLimitBackend: Sized {
    /// The quotas that the backend can work with.
    spec fn accepts(quota: Quota) -> bool;

    /// What a check of `key` under `quota` does: the state of the backend
    /// before and after it, and its result.
    spec fn checked(
        before: Self,
        key: Seq<char>,
        quota: Quota,
        after: Self,
        result: RateLimitResult,
    ) -> bool;

    /// Checks if a request for `key` is allowed under the given `quota`.
    fn check(&mut self, key: &str, quota: &Quota) -> (r: RateLimitResult)
        requires
            Self::accepts(*quota),
        ensures
            Self::checked(*old(self), key@, *quota, *final(self), r),
    ;
}

/// A backend in memory: one arrival time per key, in milliseconds since the
/// backend was made.
pub struct InMemoryBackend {
    entries: DashMap<String, u64>,
    origin: Instant,
}

/// The spacing of requests in milliseconds that a quota asks for: at least one.
pub open spec fn spacing(quota: Quota) -> u64 {
    clock::whole_millis_from_one(quota.period())
}

/// The arrival time that counts for a key: a key without one starts at `now`,
/// with a full budget.
pub open spec fn arrival_of(arrivals: Map<Seq<char>, u64>, key: Seq<char>, now: u64) -> u64 {
    if arrivals.contains_key(key) {
        arrivals[key]
    } else {
        now
    }
}

/// The arrival times after a request for `key` at `now`: only that of the key
/// is touched.
pub open spec fn arrivals_after(
    arrivals: Map<Seq<char>, u64>,
    key: Seq<char>,
    quota: Quota,
    now: u64,
) -> Map<Seq<char>, u64> {
    arrivals.insert(
        key,
        gcra::advanced(
            now as int,
            arrival_of(arrivals, key, now) as int,
            spacing(quota) as int,
            quota.burst as int,
        ) as u64,
    )
}

/// Whether `r` is the result of a request for `key` at `now`, as far as it
/// follows from the arrival times.
pub open spec fn decided(
    arrivals: Map<Seq<char>, u64>,
    key: Seq<char>,
    quota: Quota,
    now: u64,
    r: RateLimitResult,
) -> bool {
    let (allowed, wait, remaining) = gcra::decision(
        now as int,
        arrival_of(arrivals, key, now) as int,
        spacing(quota) as int,
        quota.burst as int,
    );
    &&& r.allowed == allowed
    &&& r.remaining == remaining
    &&& r.limit == quota.burst
    &&& r.wait_nanos() == if allowed {
        None
    } else {
        Some((wait * NANOS_PER_MILLI) as nat)
    }
}

impl InMemoryBackend {
    /// The arrival time of each key that has been seen.
    pub closed spec fn arrivals(&self) -> Map<Seq<char>, u64> {
        table::arrival_times(self.entries)
    }

    /// The reading of the clock from which the milliseconds are counted.
    pub closed spec fn origin(&self) -> Instant {
        self.origin
    }

    /// The whole milliseconds from the origin to a reading of the clock.
    pub open spec fn millis_at(&self, reading: Instant) -> u64 {
        clock::whole_millis(clock::nanos_between(reading, self.origin()))
    }

    /// The nanoseconds from the origin to the reset of a request at `now`, when
    /// the next token becomes available: one interval on for an allowed request,
    /// and the end of the wait for a denied one.
    pub open spec fn reset_nanos(
        arrivals: Map<Seq<char>, u64>,
        key: Seq<char>,
        quota: Quota,
        now: u64,
    ) -> nat {
        let (allowed, wait, _) = gcra::decision(
            now as int,
            arrival_of(arrivals, key, now) as int,
            spacing(quota) as int,
            quota.burst as int,
        );
        let until = now + if allowed {
            spacing(quota) as int
        } else {
            wait
        };
        (gcra::lesser(until, u64::MAX as int) * NANOS_PER_MILLI) as nat
    }

    /// What a check does that reads `now` milliseconds off the clock.
    pub open spec fn checked_at(
        before: Self,
        key: Seq<char>,
        quota: Quota,
        now: u64,
        after: Self,
        r: RateLimitResult,
    ) -> bool {
        &&& after.origin() == before.origin()
        &&& after.arrivals() == arrivals_after(before.arrivals(), key, quota, now)
        &&& decided(before.arrivals(), key, quota, now, r)
        &&& clock::instant_plus(
            before.origin(),
            Self::reset_nanos(before.arrivals(), key, quota, now),
        ) is Some ==> clock::is_deadline(
            r.reset_at,
            before.origin(),
            Self::reset_nanos(before.arrivals(), key, quota, now),
        )
    }

    /// A backend that has seen no key.
    pub fn new() -> (r: Self)
        ensures
            r.arrivals() == Map::<Seq<char>, u64>::empty(),
    {
        InMemoryBackend { entries: table::new_arrival_times(), origin: Instant::now() }
    }

    /// Milliseconds since the backend was made: the whole ones from the origin
    /// to the reading that the clock gives.
    fn monotonic_ms(&self) -> (r: u64)
        ensures
            exists|reading: Instant| r == #[trigger] self.millis_at(reading),
    {
        let reading: Instant = Instant::now();
        let millis: u128 = reading.saturating_duration_since(self.origin).as_nanos()
            / NANOS_PER_MILLI;
        let r: u64 = (millis % SECS_END) as u64;
        assert(r == self.millis_at(reading));
        r
    }

    /// The reading of the clock at a number of milliseconds since the backend
    /// was made; the current reading where the clock does not reach that far.
    fn monotonic_deadline(&self, at_ms: u64) -> (r: Instant)
        ensures
            clock::instant_plus(self.origin(), (at_ms * NANOS_PER_MILLI) as nat) is Some
                ==> clock::is_deadline(r, self.origin(), (at_ms * NANOS_PER_MILLI) as nat),
    {
        match self.origin.checked_add(clock::span_of_millis(at_ms)) {
            Some(reading) => reading,
            None => Instant::now(),
        }
    }

    /// Checks a request at a given number of milliseconds since the backend
    /// was made.
    pub fn check_at(&mut self, key: &str, quota: &Quota, now_ms: u64) -> (r: RateLimitResult)
        ensures
            Self::checked_at(*old(self), key@, *quota, now_ms, *final(self), r),
    {
        let interval_ms: u64 = spacing_of(quota);
        let burst: u64 = quota.burst as u64;
        let mut tac_ms: u64 = match table::get_arrival(&self.entries, key) {
            Some(held) => held,
            None => {
                table::add_arrival(&mut self.entries, key.to_owned(), now_ms);
                now_ms
            },
        };
        let decided: (bool, u64, u64) = gcra::gcra_advance(
            &mut tac_ms,
            now_ms,
            interval_ms,
            burst,
        );
        table::set_arrival(&mut self.entries, key, tac_ms);
        assert(self.arrivals() =~= arrivals_after(old(self).arrivals(), key@, *quota, now_ms));
        let until_reset: u64 = if decided.0 {
            interval_ms
        } else {
            decided.1
        };
        let reset_at: Instant = self.monotonic_deadline(now_ms.saturating_add(until_reset));
        RateLimitResult {
            allowed: decided.0,
            remaining: decided.2,
            reset_at,
            limit: burst,
            retry_after: if decided.0 {
                None
            } else {
                Some(clock::span_of_millis(decided.1))
            },
        }
    }
}

/// The spacing of requests that a quota asks for.
fn spacing_of(quota: &Quota) -> (r: u64)
    ensures
        r == spacing(*quota),
{
    if quota.interval.as_nanos() < NANOS_PER_MILLI {
        1
    } else {
        quota.interval_millis()
    }
}

impl Default for InMemoryBackend {
    fn default() -> (r: Self)
        ensures
            r.arrivals() == Map::<Seq<char>, u64>::empty(),
    {
        Self::new()
    }
}

impl Clone for InMemoryBackend {
    fn clone(&self) -> (r: Self)
        ensures
            r.arrivals() == self.arrivals(),
            r.origin() == self.origin(),
    {
        InMemoryBackend { entries: table::copy_arrival_times(&self.entries), origin: self.origin }
    }
}

impl RateLimitBackend for InMemoryBackend {
    open spec fn accepts(quota: Quota) -> bool {
        true
    }

    open spec fn checked(
        before: Self,
        key: Seq<char>,
        quota: Quota,
        after: Self,
        result: RateLimitResult,
    ) -> bool {
        exists|reading: Instant|
            Self::checked_at(
                before,
                key,
                quota,
                #[trigger] before.millis_at(reading),
                after,
                result,
            )
    }

    fn check(&mut self, key: &str, quota: &Quota) -> (r: RateLimitResult) {
        let now_ms: u64 = self.monotonic_ms();
        self.check_at(key, quota, now_ms)
    }
}

/// A backend that allows every request with the quota's full budget.
///
/// For tests, and as a switch that turns limiting off: it enforces nothing.
#[derive(Debug, Clone, Copy)]
pub struct NoopBackend;

impl NoopBackend {
    /// What a check does that reads `now` off the clock.
    pub open spec fn checked_at(quota: Quota, now: Instant, r: RateLimitResult) -> bool {
        &&& r.allowed
        &&& r.remaining == if quota.burst == 0 {
            0
        } else {
            quota.burst - 1
        }
        &&& r.limit == quota.burst
        &&& r.retry_after is None
        &&& clock::is_deadline(r.reset_at, now, quota.period())
    }

    /// Checks a request at a given reading of the clock.
    pub fn check_at(&self, quota: &Quota, now: Instant) -> (r: RateLimitResult)
        ensures
            Self::checked_at(*quota, now, r),
    {
        let burst: u64 = quota.burst as u64;
        RateLimitResult {
            allowed: true,
            remaining: burst.saturating_sub(1),
            reset_at: clock::deadline_after(now, quota.interval),
            limit: burst,
            retry_after: None,
        }
    }
}

impl Default for NoopBackend {
    fn default() -> (r: Self) {
        NoopBackend
    }
}

impl RateLimitBackend for NoopBackend {
    open spec fn accepts(quota: Quota) -> bool {
        true
    }

    open spec fn checked(
        before: Self,
        key: Seq<char>,
        quota: Quota,
        after: Self,
        result: RateLimitResult,
    ) -> bool {
        exists|now: Instant| Self::checked_at(quota, now, result)
    }

    fn check(&mut self, key: &str, quota: &Quota) -> (r: RateLimitResult) {
        let now: Instant = Instant::now();
        self.check_at(quota, now)
    }
}

} // verus!
