//! What one check does, and what checks of the limiters add up to, in terms of
//! the quota, the clock and the result.
use vstd::prelude::*;

use crate::backend;
use crate::backend::{InMemoryBackend, NoopBackend, RateLimitBackend};
use crate::backend_laws;
use crate::clock;
use crate::gcra;
use crate::gcra_laws;
use crate::keyed::KeyedRateLimiter;
use crate::limiter::RateLimiter;
use crate::metrics::RateLimitResult;
use crate::quota::Quota;
use crate::sliding_laws;
use crate::sliding_window;
use crate::sliding_window::SlidingWindowBackend;
use std::time::Instant;

verus! {

/// The spacing of requests is the interval of the quota in whole milliseconds,
/// and one where the interval is shorter than that.
pub proof fn law_spacing_is_the_interval(quota: Quota)
    requires
        clock::duration_nanos(quota.interval) < 0x1_0000_0000_0000_0000 * 1_000_000,
    ensures
        ({
            let p = clock::duration_nanos(quota.interval);
            let s = backend::spacing(quota);
            &&& p >= 1_000_000 ==> s * 1_000_000 <= p < (s + 1) * 1_000_000
            &&& p < 1_000_000 ==> s == 1
        }),
{
    let p = clock::duration_nanos(quota.interval);
    assert(p / 1_000_000 < 0x1_0000_0000_0000_0000);
}

/// A check in memory, in full: with `s` the interval in milliseconds and `tac`
/// the stored time of the key (the clock for a key not seen before), the request
/// is allowed where `max(tac, now) + s` is at most `burst` intervals ahead of
/// the clock. Then that time is stored, the intervals ahead are told, and the
/// reset is one interval on; otherwise what is missing is told as the wait, and
/// the reset is its end. No other key is touched.
pub proof fn law_in_memory_check_in_full(
    before: InMemoryBackend,
    key: Seq<char>,
    quota: Quota,
    now: u64,
    after: InMemoryBackend,
    r: RateLimitResult,
)
    requires
        InMemoryBackend::checked_at(before, key, quota, now, after, r),
        clock::duration_nanos(quota.interval) < 0x1_0000_0000_0000_0000 * 1_000_000,
    ensures
        ({
            let p = clock::duration_nanos(quota.interval) as int;
            let s: int = if p < 1_000_000 {
                1
            } else {
                p / 1_000_000
            };
            let tac = if before.arrivals().contains_key(key) {
                before.arrivals()[key]
            } else {
                now
            };
            let full: int = s + if tac >= now {
                tac
            } else {
                now
            };
            let missing: int = full - now - s * quota.burst;
            let wait: int = if missing <= 0xffff_ffff_ffff_ffff {
                missing
            } else {
                0xffff_ffff_ffff_ffff
            };
            let until: int = now + if missing <= 0 {
                s
            } else {
                wait
            };
            let reset: nat = if until <= 0xffff_ffff_ffff_ffff {
                (until * 1_000_000) as nat
            } else {
                0xffff_ffff_ffff_ffff * 1_000_000
            };
            &&& r.allowed <==> missing <= 0
            &&& r.limit == quota.burst
            &&& r.remaining == if missing <= 0 {
                (full - now) / s
            } else {
                0
            }
            &&& match r.retry_after {
                None => missing <= 0,
                Some(span) => missing > 0 && clock::duration_nanos(span) == wait * 1_000_000,
            }
            &&& after.arrivals().contains_key(key)
            &&& after.arrivals()[key] == if missing > 0 {
                tac as int
            } else if full <= 0xffff_ffff_ffff_ffff {
                full
            } else {
                0xffff_ffff_ffff_ffffint
            }
            &&& forall|other: Seq<char>|
                other != key ==> (#[trigger] after.arrivals().contains_key(other)
                    == before.arrivals().contains_key(other)) && (
                before.arrivals().contains_key(other) ==> after.arrivals()[other]
                    == before.arrivals()[other])
            &&& after.origin() == before.origin()
            &&& clock::instant_plus(before.origin(), reset) matches Some(t) ==> r.reset_at == t
                && clock::nanos_between(t, before.origin()) == reset
        }),
{
    let p = clock::duration_nanos(quota.interval) as int;
    let tac = if before.arrivals().contains_key(key) {
        before.arrivals()[key]
    } else {
        now
    };
    law_spacing_is_the_interval(quota);
    let s = backend::spacing(quota);
    assert(s == if p < 1_000_000 {
        1
    } else {
        p / 1_000_000
    });
    gcra_laws::law_step_in_full(now, tac, s, quota.burst as u64);
}

/// A check in memory is one at some reading of the clock, in whole milliseconds
/// from the origin, of exactly the key and the quota given.
pub proof fn law_in_memory_check_is_at_a_reading(
    before: InMemoryBackend,
    key: Seq<char>,
    quota: Quota,
    after: InMemoryBackend,
    r: RateLimitResult,
)
    requires
        InMemoryBackend::checked(before, key, quota, after, r),
    ensures
        exists|reading: Instant, now: u64|
            {
                let nanos = #[trigger] clock::nanos_between(reading, before.origin());
                &&& #[trigger] InMemoryBackend::checked_at(before, key, quota, now, after, r)
                &&& nanos < 0x1_0000_0000_0000_0000 * 1_000_000 ==> now * 1_000_000 <= nanos < (now
                    + 1) * 1_000_000
            },
{
    let reading = choose|reading: Instant|
        InMemoryBackend::checked_at(
            before,
            key,
            quota,
            #[trigger] before.millis_at(reading),
            after,
            r,
        );
    let nanos = clock::nanos_between(reading, before.origin());
    assert(nanos < 0x1_0000_0000_0000_0000 * 1_000_000 ==> nanos / 1_000_000
        < 0x1_0000_0000_0000_0000);
}

/// A check against a sliding window is one at some reading of the clock, in
/// nanoseconds from the origin, of exactly the key and the quota given.
pub proof fn law_window_check_is_at_a_reading(
    before: SlidingWindowBackend,
    key: Seq<char>,
    quota: Quota,
    after: SlidingWindowBackend,
    r: RateLimitResult,
)
    requires
        SlidingWindowBackend::checked(before, key, quota, after, r),
    ensures
        exists|reading: Instant, now: u128|
            {
                let nanos = #[trigger] clock::nanos_between(reading, before.origin());
                &&& #[trigger] SlidingWindowBackend::checked_at(before, key, quota, now, after, r)
                &&& nanos <= u128::MAX ==> now == nanos
            },
{
    let reading = choose|reading: Instant|
        SlidingWindowBackend::checked_at(
            before,
            key,
            quota,
            #[trigger] before.nanos_at(reading),
            after,
            r,
        );
    assert(clock::nanos_between(reading, before.origin()) >= 0);
}

/// A check against a sliding window, in full. The window is the interval times
/// the burst. With `gone` the requests at the front of the key's record that are
/// older than the window, the others count: the request is allowed while they
/// are fewer than the burst, and is then put on record; what remains of the burst
/// is told. A denied one is told to wait until the oldest that counts is a window
/// old. The reset is when the oldest on record is. No other key is touched.
pub proof fn law_window_check_in_full(
    before: SlidingWindowBackend,
    key: Seq<char>,
    quota: Quota,
    now: u128,
    after: SlidingWindowBackend,
    r: RateLimitResult,
    gone: int,
)
    requires
        SlidingWindowBackend::checked_at(before, key, quota, now, after, r),
        0 <= gone <= before.log_of(key).len(),
        forall|i: int|
            0 <= i < gone ==> (#[trigger] before.log_of(key)[i]) + clock::duration_nanos(
                quota.interval,
            ) * quota.burst < now,
        gone < before.log_of(key).len() ==> before.log_of(key)[gone] + clock::duration_nanos(
            quota.interval,
        ) * quota.burst >= now,
    ensures
        ({
            let window: int = clock::duration_nanos(quota.interval) * quota.burst;
            let log = before.log_of(key);
            let counted: int = log.len() - gone;
            let end: int = 0x1_0000_0000_0000_0000int * 1_000_000_000;
            let oldest: int = if counted > 0 {
                log[gone] as int
            } else {
                now as int
            };
            &&& r.allowed <==> counted < quota.burst
            &&& r.limit == quota.burst
            &&& r.remaining == if counted < quota.burst {
                quota.burst - counted - 1
            } else {
                0
            }
            &&& r.retry_after is Some <==> counted >= quota.burst && counted > 0
            &&& r.retry_after matches Some(span) ==> clock::duration_nanos(span) == if oldest
                + window - now < end {
                oldest + window - now
            } else {
                end - 1
            }
            &&& after.log_of(key) == if counted < quota.burst {
                log.skip(gone).push(now)
            } else {
                log.skip(gone)
            }
            &&& forall|other: Seq<char>|
                other != key ==> #[trigger] after.log_of(other) == before.log_of(other)
            &&& after.origin() == before.origin()
            &&& oldest + window < end ==> (clock::instant_plus(
                before.origin(),
                (oldest + window) as nat,
            ) matches Some(t) ==> r.reset_at == t && clock::nanos_between(t, before.origin())
                == oldest + window)
        }),
{
    let window: int = clock::duration_nanos(quota.interval) * quota.burst;
    sliding_laws::lemma_live_is(before.log_of(key), now as int, window, gone);
    assert(window >= 0) by (nonlinear_arith)
        requires
            window == clock::duration_nanos(quota.interval) * quota.burst,
            clock::duration_nanos(quota.interval) >= 0,
            quota.burst >= 0,
    ;
    let log = before.log_of(key);
    if log.len() - gone > 0 {
        assert(log.skip(gone)[0] == log[gone]);
        assert(log.skip(gone).push(now)[0] == log[gone]);
    } else {
        assert(log.skip(gone).push(now)[0] == now);
    }
}

/// A request is allowed exactly while fewer than `burst` requests of its key were
/// allowed within the last window, of `interval * burst`, and tells how many
/// more could be. `past` counts the allowed requests that are older than that.
pub proof fn law_window_counts_what_was_allowed(
    states: Seq<SlidingWindowBackend>,
    requests: Seq<(Seq<char>, Quota, u128)>,
    results: Seq<RateLimitResult>,
    quota: Quota,
    key: Seq<char>,
    now: u128,
    after: SlidingWindowBackend,
    r: RateLimitResult,
    past: int,
)
    requires
        backend_laws::slid_through(states, requests, results),
        forall|i: int|
            0 <= i < requests.len() && (#[trigger] requests[i]).0 == key ==> requests[i].1 == quota,
        states[0].log_of(key).len() == 0,
        sliding_laws::in_order(backend_laws::moments_of(requests, key).push(now)),
        SlidingWindowBackend::checked_at(states.last(), key, quota, now, after, r),
        0 <= past <= backend_laws::allowed_moments(requests, results, key).len(),
        forall|i: int|
            0 <= i < backend_laws::allowed_moments(requests, results, key).len() ==> (i < past
                <==> (#[trigger] backend_laws::allowed_moments(requests, results, key)[i])
                + clock::duration_nanos(quota.interval) * quota.burst < now),
    ensures
        ({
            let counted = backend_laws::allowed_moments(requests, results, key).len() - past;
            &&& r.allowed <==> counted < quota.burst
            &&& r.allowed ==> r.remaining == quota.burst - counted - 1
        }),
{
    let window: int = clock::duration_nanos(quota.interval) * quota.burst;
    let all = backend_laws::allowed_moments(requests, results, key);
    assert(window >= 0) by (nonlinear_arith)
        requires
            window == clock::duration_nanos(quota.interval) * quota.burst,
            clock::duration_nanos(quota.interval) >= 0,
            quota.burst >= 0,
    ;
    let log = states.last().log_of(key);
    backend_laws::lemma_window_is_tracked(states, requests, results, quota, key);
    sliding_laws::law_count_is_of_the_window(
        backend_laws::moments_of(requests, key),
        now,
        window,
        quota.burst as int,
    );
    let counted = sliding_window::live(log, now as int, window);
    let gone = all.len() - counted.len();
    if gone < past {
        assert(all[gone] + window < now);
    } else if past < gone {
        assert(all[past] + window < now);
    }
}

/// The limit is enforced for each key, in terms of the interval: over a stretch
/// of time no more than `burst` requests of a key are allowed beyond one for
/// every whole interval of milliseconds elapsed, whatever the requests for other
/// keys in between.
///
/// The stored time of the key has not reached the largest one at a request.
pub proof fn law_each_key_keeps_its_interval(
    states: Seq<InMemoryBackend>,
    requests: Seq<(Seq<char>, Quota, u64)>,
    results: Seq<RateLimitResult>,
    quota: Quota,
    key: Seq<char>,
)
    requires
        backend_laws::went_through(states, requests, results),
        forall|i: int|
            0 <= i < requests.len() && (#[trigger] requests[i]).0 == key ==> requests[i].1 == quota,
        backend_laws::times_of(requests, key).len() > 0,
        gcra_laws::in_time_order(backend_laws::times_of(requests, key)),
        forall|i: int|
            0 <= i < requests.len() && (#[trigger] states[i]).arrivals().contains_key(key)
                ==> states[i].arrivals()[key] < u64::MAX,
        1_000_000 <= clock::duration_nanos(quota.interval) < 0x1_0000_0000_0000_0000 * 1_000_000,
    ensures
        ({
            let times = backend_laws::times_of(requests, key);
            let stretch: int = times.last() - times[0];
            let allowed = backend_laws::allowed_for(requests, results, key);
            let ms: int = clock::duration_nanos(quota.interval) as int / 1_000_000;
            allowed <= quota.burst + stretch / ms
        }),
{
    law_spacing_is_the_interval(quota);
    backend_laws::law_each_key_keeps_its_rate(states, requests, results, quota, key);
}

/// A check by a limiter is one check by its backend, of exactly the key given
/// and under the limiter's quota.
pub proof fn law_limiter_check_is_one_backend_check<B: RateLimitBackend>(
    before: RateLimiter<B>,
    key: Seq<char>,
    after: RateLimiter<B>,
    r: RateLimitResult,
)
    requires
        RateLimiter::checked(before, key, after, r),
    ensures
        B::checked(before.backend(), key, before.quota(), after.backend(), r),
        after.quota() == before.quota(),
{
}

/// A check by a keyed limiter is one check by its backend, of exactly the key
/// given, under the key's own quota where one was set and the default where none
/// was.
pub proof fn law_keyed_check_is_one_backend_check<B: RateLimitBackend>(
    before: KeyedRateLimiter<B>,
    key: Seq<char>,
    after: KeyedRateLimiter<B>,
    r: RateLimitResult,
)
    requires
        KeyedRateLimiter::checked(before, key, after, r),
    ensures
        before.overrides().contains_key(key) ==> B::checked(
            before.backend(),
            key,
            before.overrides()[key],
            after.backend(),
            r,
        ),
        !before.overrides().contains_key(key) ==> B::checked(
            before.backend(),
            key,
            before.default_quota(),
            after.backend(),
            r,
        ),
        after.overrides() == before.overrides(),
        after.default_quota() == before.default_quota(),
{
}

/// A check by a limiter leaves every other key its state.
pub proof fn law_limiter_isolates_keys(
    before: RateLimiter<InMemoryBackend>,
    key: Seq<char>,
    after: RateLimiter<InMemoryBackend>,
    r: RateLimitResult,
    other: Seq<char>,
)
    requires
        RateLimiter::checked(before, key, after, r),
        other != key,
    ensures
        after.backend().arrivals().contains_key(other)
            == before.backend().arrivals().contains_key(other),
        after.backend().arrivals().contains_key(other) ==> after.backend().arrivals()[other]
            == before.backend().arrivals()[other],
        after.backend().arrivals().contains_key(key),
{
}

/// A check by a limiter over sliding windows leaves every other key its record.
pub proof fn law_limiter_isolates_windows(
    before: RateLimiter<SlidingWindowBackend>,
    key: Seq<char>,
    after: RateLimiter<SlidingWindowBackend>,
    r: RateLimitResult,
    other: Seq<char>,
)
    requires
        RateLimiter::checked(before, key, after, r),
        other != key,
    ensures
        after.backend().log_of(other) == before.backend().log_of(other),
{
}

/// One check moves the stored time of its key by one interval at the most, from
/// the stored time or the clock, whichever is later; a denied one leaves it.
pub proof fn law_keyed_check_counts_one_request(
    before: KeyedRateLimiter<InMemoryBackend>,
    key: Seq<char>,
    after: KeyedRateLimiter<InMemoryBackend>,
    r: RateLimitResult,
)
    requires
        KeyedRateLimiter::checked(before, key, after, r),
        before.backend().arrivals().contains_key(key),
        1_000_000 <= clock::duration_nanos(before.quota_of(key).interval) < 0x1_0000_0000_0000_0000
            * 1_000_000,
    ensures
        ({
            let tac = before.backend().arrivals()[key];
            let next = after.backend().arrivals()[key];
            let ms: int = clock::duration_nanos(before.quota_of(key).interval) as int / 1_000_000;
            &&& tac <= next
            &&& !r.allowed ==> next == tac
            &&& exists|now: u64|
                #[trigger] InMemoryBackend::checked_at(
                    before.backend(),
                    key,
                    before.quota_of(key),
                    now,
                    after.backend(),
                    r,
                ) && (next <= tac + ms || next <= now + ms)
        }),
{
    let b = before.backend();
    let a = after.backend();
    let quota = before.quota_of(key);
    let reading = choose|reading: Instant|
        InMemoryBackend::checked_at(b, key, quota, #[trigger] b.millis_at(reading), a, r);
    let now = b.millis_at(reading);
    assert(InMemoryBackend::checked_at(b, key, quota, now, a, r));
    law_in_memory_check_in_full(b, key, quota, now, a, r);
}

proof fn lemma_still_clock(
    states: Seq<InMemoryBackend>,
    results: Seq<RateLimitResult>,
    quota: Quota,
    key: Seq<char>,
    now: u64,
    n: int,
)
    requires
        states.len() == results.len() + 1,
        0 <= n <= results.len(),
        forall|i: int|
            0 <= i < results.len() ==> #[trigger] InMemoryBackend::checked_at(
                states[i],
                key,
                quota,
                now,
                states[i + 1],
                results[i],
            ),
        !states[0].arrivals().contains_key(key),
        clock::duration_nanos(quota.interval) < 0x1_0000_0000_0000_0000 * 1_000_000,
        now + backend::spacing(quota) * quota.burst <= u64::MAX,
    ensures
        n > 0 ==> states[n].arrivals().contains_key(key),
        n > 0 ==> states[n].arrivals()[key] == now + backend::spacing(quota) * gcra::lesser(
            n,
            quota.burst as int,
        ),
        n == 0 ==> !states[n].arrivals().contains_key(key),
        n > 0 ==> (results[n - 1].allowed <==> n <= quota.burst),
        n > 0 && results[n - 1].allowed ==> results[n - 1].remaining == n,
    decreases n,
{
    if n > 0 {
        let m = n - 1;
        lemma_still_clock(states, results, quota, key, now, m);
        let b = states[m];
        assert(InMemoryBackend::checked_at(b, key, quota, now, states[m + 1], results[m]));
        law_in_memory_check_in_full(b, key, quota, now, states[n], results[m]);
        law_spacing_is_the_interval(quota);
        let s = backend::spacing(quota) as int;
        let burst = quota.burst as int;
        let used = gcra::lesser(m, burst);
        assert(s >= 1);
        assert(s * used + s == s * (used + 1)) by (nonlinear_arith);
        assert(used + 1 <= burst ==> s * (used + 1) <= s * burst) by (nonlinear_arith)
            requires
                s >= 1,
        ;
        assert(used + 1 > burst ==> s * (used + 1) > s * burst) by (nonlinear_arith)
            requires
                s >= 1,
        ;
        assert((s * (used + 1)) / s == used + 1) by (nonlinear_arith)
            requires
                s >= 1,
        ;
        assert(s * 0 == 0) by (nonlinear_arith);
        assert(s * used >= 0) by (nonlinear_arith)
            requires
                s >= 1,
                used >= 0,
        ;
    }
}

/// A run of checks of one key by a limiter is a run by its backend, each at some
/// moment, of exactly the key given. Where the key is new and the moments are
/// one and the same, it is served exactly its burst: the first `burst` checks
/// are allowed, each telling one more, and every later one is denied.
///
/// The times that are stored fit the clock.
pub proof fn law_limiter_serves_the_burst(
    limiters: Seq<RateLimiter<InMemoryBackend>>,
    results: Seq<RateLimitResult>,
    key: Seq<char>,
) -> (moments: Seq<u64>)
    requires
        limiters.len() == results.len() + 1,
        forall|j: int|
            0 <= j < results.len() ==> #[trigger] RateLimiter::checked(
                limiters[j],
                key,
                limiters[j + 1],
                results[j],
            ),
    ensures
        moments.len() == results.len(),
        forall|j: int|
            0 <= j < results.len() ==> #[trigger] InMemoryBackend::checked_at(
                limiters[j].backend(),
                key,
                limiters[0].quota(),
                moments[j],
                limiters[j + 1].backend(),
                results[j],
            ),
        ({
            let quota = limiters[0].quota();
            let p = clock::duration_nanos(quota.interval);
            &&& forall|j: int| 0 <= j < moments.len() ==> #[trigger] moments[j] == moments[0]
            &&& !limiters[0].backend().arrivals().contains_key(key)
            &&& 1_000_000 <= p < 0x1_0000_0000_0000_0000 * 1_000_000
            &&& moments[0] * 1_000_000 + p * quota.burst <= 0xffff_ffff_ffff_ffff * 1_000_000
        }) ==> forall|i: int|
            #![trigger results[i]]
            0 <= i < results.len() ==> {
                &&& results[i].allowed <==> i < limiters[0].quota().burst
                &&& results[i].allowed ==> results[i].remaining == i + 1
                &&& results[i].limit == limiters[0].quota().burst
            },
{
    let quota = limiters[0].quota();
    let states = Seq::new(limiters.len(), |j: int| limiters[j].backend());
    assert forall|j: int| 0 <= j < results.len() implies #[trigger] InMemoryBackend::checked(
        states[j],
        key,
        quota,
        states[j + 1],
        results[j],
    ) by {
        lemma_quota_stays(limiters, results, key, j);
        assert(RateLimiter::checked(limiters[j], key, limiters[j + 1], results[j]));
    }
    let moments = lemma_moments(states, results, quota, key);
    assert forall|j: int| 0 <= j < results.len() implies #[trigger] InMemoryBackend::checked_at(
        limiters[j].backend(),
        key,
        quota,
        moments[j],
        limiters[j + 1].backend(),
        results[j],
    ) by {
        assert(InMemoryBackend::checked_at(
            states[j],
            key,
            quota,
            moments[j],
            states[j + 1],
            results[j],
        ));
    }
    moments
}

/// The first check of a key that a limiter has not seen is allowed, whatever the
/// clock, if the burst is not zero; the time it stores is one interval on from
/// the moment of the check.
pub proof fn law_new_key_is_allowed(
    before: RateLimiter<InMemoryBackend>,
    key: Seq<char>,
    after: RateLimiter<InMemoryBackend>,
    r: RateLimitResult,
) -> (now: u64)
    requires
        RateLimiter::checked(before, key, after, r),
        !before.backend().arrivals().contains_key(key),
        1_000_000 <= clock::duration_nanos(before.quota().interval) < 0x1_0000_0000_0000_0000
            * 1_000_000,
    ensures
        r.allowed <==> before.quota().burst >= 1,
        r.allowed ==> r.remaining == 1,
        after.backend().arrivals().contains_key(key),
        r.allowed ==> ({
            let next = after.backend().arrivals()[key];
            let p = clock::duration_nanos(before.quota().interval);
            ||| next == 0xffff_ffff_ffff_ffff
            ||| (next - now) * 1_000_000 <= p < (next - now + 1) * 1_000_000
        }),
{
    lemma_new_key(before.backend(), key, before.quota(), after.backend(), r)
}

/// The first check of a key that a keyed limiter has not seen is allowed, whatever
/// the clock, if the burst of its quota is not zero; the time it stores is one
/// interval on from the moment of the check.
pub proof fn law_new_key_is_allowed_its_own_quota(
    before: KeyedRateLimiter<InMemoryBackend>,
    key: Seq<char>,
    after: KeyedRateLimiter<InMemoryBackend>,
    r: RateLimitResult,
    quota: Quota,
) -> (now: u64)
    requires
        KeyedRateLimiter::checked(before, key, after, r),
        !before.backend().arrivals().contains_key(key),
        quota == if before.overrides().contains_key(key) {
            before.overrides()[key]
        } else {
            before.default_quota()
        },
        1_000_000 <= clock::duration_nanos(quota.interval) < 0x1_0000_0000_0000_0000 * 1_000_000,
    ensures
        r.allowed <==> quota.burst >= 1,
        r.allowed ==> r.remaining == 1,
        after.backend().arrivals().contains_key(key),
        r.allowed ==> ({
            let next = after.backend().arrivals()[key];
            let p = clock::duration_nanos(quota.interval);
            ||| next == 0xffff_ffff_ffff_ffff
            ||| (next - now) * 1_000_000 <= p < (next - now + 1) * 1_000_000
        }),
{
    lemma_new_key(before.backend(), key, quota, after.backend(), r)
}

proof fn lemma_new_key(
    before: InMemoryBackend,
    key: Seq<char>,
    quota: Quota,
    after: InMemoryBackend,
    r: RateLimitResult,
) -> (now: u64)
    requires
        InMemoryBackend::checked(before, key, quota, after, r),
        !before.arrivals().contains_key(key),
        1_000_000 <= clock::duration_nanos(quota.interval) < 0x1_0000_0000_0000_0000 * 1_000_000,
    ensures
        r.allowed <==> quota.burst >= 1,
        r.allowed ==> r.remaining == 1,
        after.arrivals().contains_key(key),
        r.allowed ==> ({
            let next = after.arrivals()[key];
            let p = clock::duration_nanos(quota.interval);
            ||| next == 0xffff_ffff_ffff_ffff
            ||| (next - now) * 1_000_000 <= p < (next - now + 1) * 1_000_000
        }),
{
    let reading = choose|reading: Instant|
        InMemoryBackend::checked_at(
            before,
            key,
            quota,
            #[trigger] before.millis_at(reading),
            after,
            r,
        );
    let now = before.millis_at(reading);
    assert(InMemoryBackend::checked_at(before, key, quota, now, after, r));
    law_in_memory_check_in_full(before, key, quota, now, after, r);
    let s: int = clock::duration_nanos(quota.interval) as int / 1_000_000;
    let b = quota.burst as int;
    assert(s - s * b <= 0 <==> b >= 1) by (nonlinear_arith)
        requires
            s >= 1,
            b >= 0,
    ;
    assert(s / s == 1) by (nonlinear_arith)
        requires
            s >= 1,
    ;
    now
}

proof fn lemma_moments(
    states: Seq<InMemoryBackend>,
    results: Seq<RateLimitResult>,
    quota: Quota,
    key: Seq<char>,
) -> (moments: Seq<u64>)
    requires
        states.len() == results.len() + 1,
        forall|j: int|
            0 <= j < results.len() ==> #[trigger] InMemoryBackend::checked(
                states[j],
                key,
                quota,
                states[j + 1],
                results[j],
            ),
    ensures
        moments.len() == results.len(),
        forall|j: int|
            0 <= j < results.len() ==> #[trigger] InMemoryBackend::checked_at(
                states[j],
                key,
                quota,
                moments[j],
                states[j + 1],
                results[j],
            ),
        ({
            let p = clock::duration_nanos(quota.interval);
            &&& forall|j: int| 0 <= j < moments.len() ==> #[trigger] moments[j] == moments[0]
            &&& !states[0].arrivals().contains_key(key)
            &&& 1_000_000 <= p < 0x1_0000_0000_0000_0000 * 1_000_000
            &&& moments[0] * 1_000_000 + p * quota.burst <= 0xffff_ffff_ffff_ffff * 1_000_000
        }) ==> forall|i: int|
            #![trigger results[i]]
            0 <= i < results.len() ==> {
                &&& results[i].allowed <==> i < quota.burst
                &&& results[i].allowed ==> results[i].remaining == i + 1
                &&& results[i].limit == quota.burst
            },
{
    let moments = Seq::new(
        results.len(),
        |j: int|
            choose|now: u64|
                #[trigger] InMemoryBackend::checked_at(
                    states[j],
                    key,
                    quota,
                    now,
                    states[j + 1],
                    results[j],
                ),
    );
    assert forall|j: int| 0 <= j < results.len() implies #[trigger] InMemoryBackend::checked_at(
        states[j],
        key,
        quota,
        moments[j],
        states[j + 1],
        results[j],
    ) by {
        assert(InMemoryBackend::checked(states[j], key, quota, states[j + 1], results[j]));
    }
    let p = clock::duration_nanos(quota.interval);
    if {
        &&& forall|j: int| 0 <= j < moments.len() ==> #[trigger] moments[j] == moments[0]
        &&& !states[0].arrivals().contains_key(key)
        &&& 1_000_000 <= p < 0x1_0000_0000_0000_0000 * 1_000_000
        &&& moments[0] * 1_000_000 + p * quota.burst <= 0xffff_ffff_ffff_ffff * 1_000_000
    } {
        let now = moments[0];
        lemma_burst_fits(quota, now);
        assert forall|j: int|
            0 <= j < results.len() implies #[trigger] InMemoryBackend::checked_at(
            states[j],
            key,
            quota,
            now,
            states[j + 1],
            results[j],
        ) by {
            assert(moments[j] == now);
            assert(InMemoryBackend::checked_at(
                states[j],
                key,
                quota,
                moments[j],
                states[j + 1],
                results[j],
            ));
        }
        assert forall|i: int|
            #![trigger results[i]]
            0 <= i < results.len() implies {
            &&& results[i].allowed <==> i < quota.burst
            &&& results[i].allowed ==> results[i].remaining == i + 1
            &&& results[i].limit == quota.burst
        } by {
            lemma_still_clock(states, results, quota, key, now, i + 1);
            assert(InMemoryBackend::checked_at(
                states[i],
                key,
                quota,
                now,
                states[i + 1],
                results[i],
            ));
        }
    }
    moments
}

proof fn lemma_burst_fits(quota: Quota, now: u64)
    requires
        1_000_000 <= clock::duration_nanos(quota.interval) < 0x1_0000_0000_0000_0000 * 1_000_000,
        now * 1_000_000 + clock::duration_nanos(quota.interval) * quota.burst
            <= 0xffff_ffff_ffff_ffff * 1_000_000,
    ensures
        now + backend::spacing(quota) * quota.burst <= u64::MAX,
{
    law_spacing_is_the_interval(quota);
    let s = backend::spacing(quota) as int;
    let p = clock::duration_nanos(quota.interval) as int;
    let b = quota.burst as int;
    assert((s * b) * 1_000_000 <= p * b) by (nonlinear_arith)
        requires
            s * 1_000_000 <= p,
            b >= 0,
    ;
}

proof fn lemma_quota_stays(
    limiters: Seq<RateLimiter<InMemoryBackend>>,
    results: Seq<RateLimitResult>,
    key: Seq<char>,
    n: int,
)
    requires
        limiters.len() == results.len() + 1,
        0 <= n <= results.len(),
        forall|j: int|
            0 <= j < results.len() ==> #[trigger] RateLimiter::checked(
                limiters[j],
                key,
                limiters[j + 1],
                results[j],
            ),
    ensures
        limiters[n].quota() == limiters[0].quota(),
    decreases n,
{
    if n > 0 {
        lemma_quota_stays(limiters, results, key, n - 1);
        assert(RateLimiter::checked(limiters[n - 1], key, limiters[n - 1 + 1], results[n - 1]));
    }
}

proof fn lemma_keyed_quota_stays(
    limiters: Seq<KeyedRateLimiter<InMemoryBackend>>,
    results: Seq<RateLimitResult>,
    key: Seq<char>,
    n: int,
)
    requires
        limiters.len() == results.len() + 1,
        0 <= n <= results.len(),
        forall|j: int|
            0 <= j < results.len() ==> #[trigger] KeyedRateLimiter::checked(
                limiters[j],
                key,
                limiters[j + 1],
                results[j],
            ),
    ensures
        limiters[n].overrides() == limiters[0].overrides(),
        limiters[n].default_quota() == limiters[0].default_quota(),
    decreases n,
{
    if n > 0 {
        lemma_keyed_quota_stays(limiters, results, key, n - 1);
        assert(KeyedRateLimiter::checked(
            limiters[n - 1],
            key,
            limiters[n - 1 + 1],
            results[n - 1],
        ));
    }
}

/// A run of checks of one key by a keyed limiter is a run by its backend, each at
/// some moment, of exactly the key given, under the key's own quota or else the
/// default one. Where the key is new and the moments are one and the same, it is
/// served exactly the burst of that quota: the first `burst` checks are allowed,
/// each telling one more, and every later one is denied.
///
/// The times that are stored fit the clock.
pub proof fn law_keyed_limiter_serves_the_burst(
    limiters: Seq<KeyedRateLimiter<InMemoryBackend>>,
    results: Seq<RateLimitResult>,
    quota: Quota,
    key: Seq<char>,
) -> (moments: Seq<u64>)
    requires
        limiters.len() == results.len() + 1,
        forall|j: int|
            0 <= j < results.len() ==> #[trigger] KeyedRateLimiter::checked(
                limiters[j],
                key,
                limiters[j + 1],
                results[j],
            ),
        quota == if limiters[0].overrides().contains_key(key) {
            limiters[0].overrides()[key]
        } else {
            limiters[0].default_quota()
        },
    ensures
        moments.len() == results.len(),
        forall|j: int|
            0 <= j < results.len() ==> #[trigger] InMemoryBackend::checked_at(
                limiters[j].backend(),
                key,
                quota,
                moments[j],
                limiters[j + 1].backend(),
                results[j],
            ),
        ({
            let p = clock::duration_nanos(quota.interval);
            &&& forall|j: int| 0 <= j < moments.len() ==> #[trigger] moments[j] == moments[0]
            &&& !limiters[0].backend().arrivals().contains_key(key)
            &&& 1_000_000 <= p < 0x1_0000_0000_0000_0000 * 1_000_000
            &&& moments[0] * 1_000_000 + p * quota.burst <= 0xffff_ffff_ffff_ffff * 1_000_000
        }) ==> forall|i: int|
            #![trigger results[i]]
            0 <= i < results.len() ==> {
                &&& results[i].allowed <==> i < quota.burst
                &&& results[i].allowed ==> results[i].remaining == i + 1
                &&& results[i].limit == quota.burst
            },
{
    let states = Seq::new(limiters.len(), |j: int| limiters[j].backend());
    assert forall|j: int| 0 <= j < results.len() implies #[trigger] InMemoryBackend::checked(
        states[j],
        key,
        quota,
        states[j + 1],
        results[j],
    ) by {
        lemma_keyed_quota_stays(limiters, results, key, j);
        assert(KeyedRateLimiter::checked(limiters[j], key, limiters[j + 1], results[j]));
    }
    let moments = lemma_moments(states, results, quota, key);
    assert forall|j: int| 0 <= j < results.len() implies #[trigger] InMemoryBackend::checked_at(
        limiters[j].backend(),
        key,
        quota,
        moments[j],
        limiters[j + 1].backend(),
        results[j],
    ) by {
        assert(InMemoryBackend::checked_at(
            states[j],
            key,
            quota,
            moments[j],
            states[j + 1],
            results[j],
        ));
    }
    moments
}

/// The backend that limits nothing allows every request with the full budget,
/// less the request itself, and resets one interval after the clock.
pub proof fn law_noop_check_in_full(quota: Quota, now: Instant, r: RateLimitResult)
    requires
        NoopBackend::checked_at(quota, now, r),
    ensures
        r.allowed,
        r.limit == quota.burst,
        quota.burst > 0 ==> r.remaining == quota.burst - 1,
        quota.burst == 0 ==> r.remaining == 0,
        r.retry_after is None,
        clock::instant_plus(now, clock::duration_nanos(quota.interval)) matches Some(t)
            ==> r.reset_at == t && clock::nanos_between(t, now) == clock::duration_nanos(
            quota.interval,
        ),
{
}

/// Every quota can be checked in memory, and against a sliding window every one
/// whose interval times burst is a span of time.
pub proof fn law_quotas_that_are_accepted(quota: Quota)
    ensures
        InMemoryBackend::accepts(quota),
        NoopBackend::accepts(quota),
        SlidingWindowBackend::accepts(quota) <==> clock::duration_nanos(quota.interval)
            * quota.burst < 0x1_0000_0000_0000_0000 * 1_000_000_000,
{
}

/// A check that limits nothing is one at some reading of the clock.
pub proof fn law_noop_check_is_at_a_reading(
    before: NoopBackend,
    key: Seq<char>,
    quota: Quota,
    after: NoopBackend,
    r: RateLimitResult,
)
    requires
        NoopBackend::checked(before, key, quota, after, r),
    ensures
        exists|now: Instant| NoopBackend::checked_at(quota, now, r),
{
}

} // verus!
