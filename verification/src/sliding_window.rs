//! A backend that counts the requests in a sliding window of time.
use dashmap::DashMap;
use std::collections::VecDeque;
use std::time::{Duration, Instant};
use vstd::prelude::*;

use crate::backend::RateLimitBackend;
use crate::clock;
use crate::clock::{NANOS_PER_SEC, SECS_END};
use crate::gcra;
use crate::metrics::RateLimitResult;
use crate::quota::Quota;
use crate::table;

verus! {

/// A backend in memory that keeps the times of the allowed requests of each
/// key, and allows no more than a burst of them in a window.
///
/// Times are nanoseconds since the backend was made.
pub struct SlidingWindowBackend {
    entries: DashMap<String, VecDeque<u128>>,
    origin: Instant,
}

/// The nanoseconds that no span of time reaches.
pub open spec fn span_end() -> int {
    SECS_END * NANOS_PER_SEC
}

/// The length of the window of a quota, in nanoseconds.
pub open spec fn window_of(quota: Quota) -> int {
    quota.period() * quota.burst
}

/// The requests that still count at `now`: those that are not older than the
/// window, and whatever follows them.
pub open spec fn live(log: Seq<u128>, now: int, window: int) -> Seq<u128>
    decreases log.len(),
{
    if log.len() > 0 && log[0] + window < now {
        live(log.skip(1), now, window)
    } else {
        log
    }
}

/// Whether a request at `now` is within the limit.
pub open spec fn within_limit(log: Seq<u128>, now: int, window: int, limit: int) -> bool {
    live(log, now, window).len() < limit
}

/// The requests on record after one at `now`: an allowed one is added.
pub open spec fn log_after(log: Seq<u128>, now: u128, window: int, limit: int) -> Seq<u128> {
    if within_limit(log, now as int, window, limit) {
        live(log, now as int, window).push(now)
    } else {
        live(log, now as int, window)
    }
}

/// How long the oldest request that counts stays in the window.
pub open spec fn time_left(log: Seq<u128>, now: int, window: int) -> int {
    gcra::lesser(gcra::later(log[0] + window - now, 0), span_end() - 1)
}

impl SlidingWindowBackend {
    /// The times on record for each key that has been seen.
    pub closed spec fn logs(&self) -> Map<Seq<char>, Seq<u128>> {
        table::request_logs(self.entries)
    }

    /// The reading of the clock from which the times are counted.
    pub closed spec fn origin(&self) -> Instant {
        self.origin
    }

    /// The nanoseconds from the origin to a reading of the clock.
    pub open spec fn nanos_at(&self, reading: Instant) -> u128 {
        clock::nanos_between(reading, self.origin()) as u128
    }

    /// The times on record for a key.
    pub open spec fn log_of(&self, key: Seq<char>) -> Seq<u128> {
        if self.logs().contains_key(key) {
            self.logs()[key]
        } else {
            Seq::empty()
        }
    }

    /// What a check does that reads `now` nanoseconds off the clock.
    pub open spec fn checked_at(
        before: Self,
        key: Seq<char>,
        quota: Quota,
        now: u128,
        after: Self,
        r: RateLimitResult,
    ) -> bool {
        let window = window_of(quota);
        let limit = quota.burst as int;
        let log = before.log_of(key);
        let kept = live(log, now as int, window);
        let next = log_after(log, now, window, limit);
        let reset = window + if next.len() > 0 {
            next[0]
        } else {
            now
        };
        &&& after.origin() == before.origin()
        &&& after.logs() == before.logs().insert(key, next)
        &&& r.allowed == within_limit(log, now as int, window, limit)
        &&& r.remaining == if r.allowed {
            limit - kept.len() - 1
        } else {
            0
        }
        &&& r.limit == limit
        &&& r.wait_nanos() == if r.allowed || next.len() == 0 {
            None
        } else {
            Some(time_left(next, now as int, window) as nat)
        }
        &&& reset < span_end() && clock::instant_plus(before.origin(), reset as nat) is Some
            ==> clock::is_deadline(r.reset_at, before.origin(), reset as nat)
    }

    /// A backend that has seen no key.
    pub fn new() -> (r: Self)
        ensures
            r.logs() == Map::<Seq<char>, Seq<u128>>::empty(),
    {
        SlidingWindowBackend { entries: table::new_request_logs(), origin: Instant::now() }
    }

    /// The reading of the clock at a number of nanoseconds since the backend
    /// was made; the current reading where the clock does not reach that far.
    fn reading_at(&self, nanos: u128) -> (r: Instant)
        ensures
            nanos < span_end() && clock::instant_plus(self.origin(), nanos as nat) is Some
                ==> clock::is_deadline(r, self.origin(), nanos as nat),
    {
        if nanos < SECS_END * NANOS_PER_SEC {
            match self.origin.checked_add(clock::span_of(nanos)) {
                Some(reading) => reading,
                None => Instant::now(),
            }
        } else {
            Instant::now()
        }
    }

    /// Checks a request at a given time since the backend was made.
    pub fn check_at(&mut self, key: &str, quota: &Quota, now: Duration) -> (r: RateLimitResult)
        requires
            Self::accepts(*quota),
        ensures
            Self::checked_at(
                *old(self),
                key@,
                *quota,
                clock::duration_nanos(now) as u128,
                *final(self),
                r,
            ),
    {
        let period: u128 = quota.interval.as_nanos();
        let limit: u64 = quota.burst as u64;
        let window: u128 = period * (limit as u128);
        let now: u128 = now.as_nanos();
        let mut log: VecDeque<u128> = match table::take_log(&mut self.entries, key) {
            Some(held) => held,
            None => VecDeque::new(),
        };
        let ghost before = log@;
        assert(before =~= old(self).log_of(key@));
        while log.len() > 0 && window < now && log[0] < now - window
            invariant
                live(before, now as int, window as int) == live(log@, now as int, window as int),
            decreases log@.len(),
        {
            let ghost seen = log@;
            log.pop_front();
            assert(log@ =~= seen.skip(1));
        }
        assert(log@ == live(before, now as int, window as int));
        let count: u64 = log.len() as u64;
        let allowed: bool = count < limit;
        let remaining: u64 = if allowed {
            limit - count - 1
        } else {
            0
        };
        if allowed {
            log.push_back(now);
        }
        let mut reset: u128 = now + window;
        let mut retry_after: Option<Duration> = None;
        if log.len() > 0 {
            reset = log[0].saturating_add(window);
            if !allowed {
                let left: u128 = if reset <= now {
                    0
                } else if reset - now < SECS_END * NANOS_PER_SEC {
                    reset - now
                } else {
                    SECS_END * NANOS_PER_SEC - 1
                };
                retry_after = Some(clock::span_of(left));
            }
        }
        table::put_log(&mut self.entries, key.to_owned(), log);
        assert(self.logs() =~= old(self).logs().insert(
            key@,
            log_after(before, now, window as int, limit as int),
        ));
        RateLimitResult {
            allowed,
            remaining,
            reset_at: self.reading_at(reset),
            limit,
            retry_after,
        }
    }

    /// Checks a request under any quota; none, with nothing counted, where the
    /// window of the quota is longer than any span of time.
    pub fn try_check(&mut self, key: &str, quota: &Quota) -> (r: Option<RateLimitResult>)
        ensures
            match r {
                Some(result) => Self::accepts(*quota) && Self::checked(
                    *old(self),
                    key@,
                    *quota,
                    *final(self),
                    result,
                ),
                None => !Self::accepts(*quota) && *final(self) == *old(self),
            },
    {
        let period: u128 = quota.interval.as_nanos();
        assert(period * quota.burst <= SECS_END * NANOS_PER_SEC * u32::MAX) by (nonlinear_arith)
            requires
                period < SECS_END * NANOS_PER_SEC,
                quota.burst <= u32::MAX,
        ;
        if period * (quota.burst as u128) < SECS_END * NANOS_PER_SEC {
            Some(self.check(key, quota))
        } else {
            None
        }
    }
}

impl Default for SlidingWindowBackend {
    fn default() -> (r: Self)
        ensures
            r.logs() == Map::<Seq<char>, Seq<u128>>::empty(),
    {
        Self::new()
    }
}

impl Clone for SlidingWindowBackend {
    fn clone(&self) -> (r: Self)
        ensures
            r.logs() == self.logs(),
            r.origin() == self.origin(),
    {
        SlidingWindowBackend {
            entries: table::copy_request_logs(&self.entries),
            origin: self.origin,
        }
    }
}

impl RateLimitBackend for SlidingWindowBackend {
    open spec fn accepts(quota: Quota) -> bool {
        window_of(quota) < span_end()
    }

    open spec fn checked(
        before: Self,
        key: Seq<char>,
        quota: Quota,
        after: Self,
        result: RateLimitResult,
    ) -> bool {
        exists|reading: Instant|
            Self::checked_at(
                before,
                key,
                quota,
                #[trigger] before.nanos_at(reading),
                after,
                result,
            )
    }

    fn check(&mut self, key: &str, quota: &Quota) -> (r: RateLimitResult) {
        let reading: Instant = Instant::now();
        let now: Duration = reading.saturating_duration_since(self.origin);
        assert(clock::duration_nanos(now) as u128 == self.nanos_at(reading));
        self.check_at(key, quota, now)
    }
}

} // verus!
