//! What the backends in memory promise over many checks.
use vstd::prelude::*;

use crate::backend;
use crate::backend::InMemoryBackend;
use crate::clock;
use crate::clock::NANOS_PER_MILLI;
use crate::gcra;
use crate::gcra_laws;
use crate::keyed::KeyedRateLimiter;
use crate::metrics::RateLimitResult;
use crate::quota::Quota;
use crate::sliding_laws;
use crate::sliding_window;
use crate::sliding_window::SlidingWindowBackend;

verus! {

/// A check touches no other key.
pub proof fn law_other_keys_are_untouched(
    before: InMemoryBackend,
    key: Seq<char>,
    quota: Quota,
    now: u64,
    after: InMemoryBackend,
    r: RateLimitResult,
    other: Seq<char>,
)
    requires
        InMemoryBackend::checked_at(before, key, quota, now, after, r),
        other != key,
    ensures
        after.arrivals().contains_key(other) == before.arrivals().contains_key(other),
        after.arrivals().contains_key(other) ==> after.arrivals()[other]
            == before.arrivals()[other],
{
}

/// The outcome for a key depends on that key's own state and on nothing else
/// that a backend holds.
pub proof fn law_outcome_is_of_the_key_alone(
    one: InMemoryBackend,
    two: InMemoryBackend,
    key: Seq<char>,
    quota: Quota,
    now: u64,
    after_one: InMemoryBackend,
    after_two: InMemoryBackend,
    r_one: RateLimitResult,
    r_two: RateLimitResult,
)
    requires
        InMemoryBackend::checked_at(one, key, quota, now, after_one, r_one),
        InMemoryBackend::checked_at(two, key, quota, now, after_two, r_two),
        one.arrivals().contains_key(key) == two.arrivals().contains_key(key),
        one.arrivals().contains_key(key) ==> one.arrivals()[key] == two.arrivals()[key],
    ensures
        r_one.allowed == r_two.allowed,
        r_one.remaining == r_two.remaining,
        r_one.limit == r_two.limit,
        r_one.wait_nanos() == r_two.wait_nanos(),
        after_one.arrivals()[key] == after_two.arrivals()[key],
{
}

/// A key that has not been seen starts with its whole budget: its first request
/// is allowed under every quota with a burst.
pub proof fn law_unseen_key_is_allowed(
    before: InMemoryBackend,
    key: Seq<char>,
    quota: Quota,
    now: u64,
    after: InMemoryBackend,
    r: RateLimitResult,
)
    requires
        InMemoryBackend::checked_at(before, key, quota, now, after, r),
        !before.arrivals().contains_key(key),
        quota.burst >= 1,
    ensures
        r.allowed,
        r.remaining == 1,
        r.retry_after is None,
{
    let e = gcra::emission(backend::spacing(quota) as int);
    assert(e * (quota.burst as int) >= e) by (nonlinear_arith)
        requires
            e >= 1,
            quota.burst >= 1,
    ;
    assert(e / e == 1) by (nonlinear_arith)
        requires
            e >= 1,
    ;
}

/// Whether a backend went through `states` with those requests, each a key, the
/// quota that it is checked under, and a time.
pub open spec fn went_through(
    states: Seq<InMemoryBackend>,
    requests: Seq<(Seq<char>, Quota, u64)>,
    results: Seq<RateLimitResult>,
) -> bool {
    &&& states.len() == requests.len() + 1
    &&& results.len() == requests.len()
    &&& forall|i: int|
        0 <= i < requests.len() ==> #[trigger] InMemoryBackend::checked_at(
            states[i],
            requests[i].0,
            requests[i].1,
            requests[i].2,
            states[i + 1],
            results[i],
        )
}

/// The times of the requests for one key.
pub open spec fn times_of(requests: Seq<(Seq<char>, Quota, u64)>, key: Seq<char>) -> Seq<u64>
    decreases requests.len(),
{
    if requests.len() == 0 {
        Seq::empty()
    } else if requests.last().0 == key {
        times_of(requests.drop_last(), key).push(requests.last().2)
    } else {
        times_of(requests.drop_last(), key)
    }
}

/// How many of the requests for one key were allowed.
pub open spec fn allowed_for(
    requests: Seq<(Seq<char>, Quota, u64)>,
    results: Seq<RateLimitResult>,
    key: Seq<char>,
) -> nat
    decreases requests.len(),
{
    if requests.len() == 0 {
        0
    } else {
        let before = allowed_for(requests.drop_last(), results.drop_last(), key);
        if requests.last().0 == key && results.last().allowed {
            before + 1
        } else {
            before
        }
    }
}

/// The arrival time from which the requests for a key are counted.
spec fn start_of(first: InMemoryBackend, times: Seq<u64>, key: Seq<char>) -> u64 {
    if first.arrivals().contains_key(key) {
        first.arrivals()[key]
    } else {
        times[0]
    }
}

proof fn lemma_times_keep_their_start(requests: Seq<(Seq<char>, Quota, u64)>, key: Seq<char>)
    requires
        requests.len() > 0,
        times_of(requests.drop_last(), key).len() > 0,
    ensures
        times_of(requests, key).len() > 0,
        times_of(requests, key)[0] == times_of(requests.drop_last(), key)[0],
{
}

proof fn lemma_prefix(
    states: Seq<InMemoryBackend>,
    requests: Seq<(Seq<char>, Quota, u64)>,
    results: Seq<RateLimitResult>,
)
    requires
        went_through(states, requests, results),
        requests.len() > 0,
    ensures
        went_through(states.drop_last(), requests.drop_last(), results.drop_last()),
{
    let earlier = requests.drop_last();
    let past = states.drop_last();
    let told = results.drop_last();
    assert forall|i: int|
        0 <= i < earlier.len() implies #[trigger] InMemoryBackend::checked_at(
        past[i],
        earlier[i].0,
        earlier[i].1,
        earlier[i].2,
        past[i + 1],
        told[i],
    ) by {
        assert(InMemoryBackend::checked_at(
            states[i],
            requests[i].0,
            requests[i].1,
            requests[i].2,
            states[i + 1],
            results[i],
        ));
    }
}

proof fn lemma_key_is_tracked(
    states: Seq<InMemoryBackend>,
    requests: Seq<(Seq<char>, Quota, u64)>,
    results: Seq<RateLimitResult>,
    quota: Quota,
    key: Seq<char>,
)
    requires
        went_through(states, requests, results),
        forall|i: int|
            0 <= i < requests.len() && (#[trigger] requests[i]).0 == key ==> requests[i].1 == quota,
    ensures
        ({
            let times = times_of(requests, key);
            let tac = start_of(states[0], times, key) as int;
            let interval = backend::spacing(quota) as int;
            let burst = quota.burst as int;
            let last = states.last().arrivals();
            &&& last.contains_key(key) <==> states[0].arrivals().contains_key(key) || times.len()
                > 0
            &&& last.contains_key(key) ==> last[key] == gcra_laws::tac_after(
                tac,
                times,
                interval,
                burst,
            )
            &&& times.len() > 0 ==> allowed_for(requests, results, key) == gcra_laws::admitted(
                tac,
                times,
                interval,
                burst,
            )
            &&& times.len() == 0 ==> allowed_for(requests, results, key) == 0
        }),
    decreases requests.len(),
{
    if requests.len() > 0 {
        let n = requests.len() - 1;
        let earlier = requests.drop_last();
        let past = states.drop_last();
        let told = results.drop_last();
        lemma_prefix(states, requests, results);
        lemma_key_is_tracked(past, earlier, told, quota, key);
        assert(InMemoryBackend::checked_at(
            states[n],
            requests[n].0,
            requests[n].1,
            requests[n].2,
            states[n + 1],
            results[n],
        ));
        if times_of(earlier, key).len() > 0 {
            lemma_times_keep_their_start(requests, key);
        }
        let times = times_of(requests, key);
        let tac = start_of(states[0], times, key);
        let interval = backend::spacing(quota);
        if requests.last().0 == key {
            let now = times.last();
            assert(times.drop_last() =~= times_of(earlier, key));
            let held = gcra_laws::tac_after(
                tac as int,
                times.drop_last(),
                interval as int,
                quota.burst as int,
            );
            assert(held == backend::arrival_of(states[n].arrivals(), key, now));
            assert(results.last().allowed == gcra::conforms(
                now as int,
                held,
                interval as int,
                quota.burst as int,
            ));
            assert(times.drop_last().len() == 0 ==> gcra_laws::admitted(
                tac as int,
                times.drop_last(),
                interval as int,
                quota.burst as int,
            ) == 0);
            gcra_laws::law_arrival_time_is_bounded(
                now,
                held as u64,
                interval,
                quota.burst as u64,
            );
        }
    }
}

proof fn lemma_stored_before_the_last(
    states: Seq<InMemoryBackend>,
    requests: Seq<(Seq<char>, Quota, u64)>,
    results: Seq<RateLimitResult>,
    quota: Quota,
    key: Seq<char>,
)
    requires
        went_through(states, requests, results),
        forall|i: int|
            0 <= i < requests.len() && (#[trigger] requests[i]).0 == key ==> requests[i].1 == quota,
        times_of(requests, key).len() > 1,
        forall|i: int|
            0 <= i < requests.len() && (#[trigger] states[i]).arrivals().contains_key(key)
                ==> states[i].arrivals()[key] < u64::MAX,
    ensures
        gcra_laws::tac_after(
            start_of(states[0], times_of(requests, key), key) as int,
            times_of(requests, key).drop_last(),
            backend::spacing(quota) as int,
            quota.burst as int,
        ) < u64::MAX,
    decreases requests.len(),
{
    let n = requests.len() - 1;
    let earlier = requests.drop_last();
    let past = states.drop_last();
    let told = results.drop_last();
    lemma_prefix(states, requests, results);
    lemma_times_keep_their_start(requests, key);
    if requests.last().0 == key {
        lemma_key_is_tracked(past, earlier, told, quota, key);
        assert(times_of(requests, key).drop_last() =~= times_of(earlier, key));
        assert(past.last() == states[n]);
    } else {
        assert forall|i: int|
            0 <= i < earlier.len() && (#[trigger] past[i]).arrivals().contains_key(
                key,
            ) implies past[i].arrivals()[key] < u64::MAX by {
            assert(past[i] == states[i]);
        }
        lemma_stored_before_the_last(past, earlier, told, quota, key);
    }
}

/// The limit is enforced for each key, whatever the requests for other keys in
/// between, under whatever quotas: over a stretch of time no more than `burst`
/// requests of a key are allowed beyond one per interval elapsed.
///
/// The stored time of the key has not reached the largest one at a request.
pub proof fn law_each_key_keeps_its_rate(
    states: Seq<InMemoryBackend>,
    requests: Seq<(Seq<char>, Quota, u64)>,
    results: Seq<RateLimitResult>,
    quota: Quota,
    key: Seq<char>,
)
    requires
        went_through(states, requests, results),
        forall|i: int|
            0 <= i < requests.len() && (#[trigger] requests[i]).0 == key ==> requests[i].1 == quota,
        times_of(requests, key).len() > 0,
        gcra_laws::in_time_order(times_of(requests, key)),
        forall|i: int|
            0 <= i < requests.len() && (#[trigger] states[i]).arrivals().contains_key(key)
                ==> states[i].arrivals()[key] < u64::MAX,
    ensures
        allowed_for(requests, results, key) <= quota.burst + (times_of(requests, key).last()
            - times_of(requests, key)[0]) / gcra::emission(backend::spacing(quota) as int),
{
    let times = times_of(requests, key);
    lemma_key_is_tracked(states, requests, results, quota, key);
    if times.len() > 1 {
        lemma_stored_before_the_last(states, requests, results, quota, key);
    }
    gcra_laws::law_rate_is_enforced(
        start_of(states[0], times, key),
        times,
        backend::spacing(quota),
        quota.burst as u64,
    );
}

/// The limit is enforced for each key of a keyed limiter, with its own quota or
/// the default one, whatever the requests for other keys and the changes of
/// their quotas in between. `limiters` is the limiter as each request finds it,
/// and as the last one leaves it.
///
/// The stored time of the key has not reached the largest one at a request.
pub proof fn law_keyed_limiter_keeps_each_rate(
    limiters: Seq<KeyedRateLimiter<InMemoryBackend>>,
    requests: Seq<(Seq<char>, Quota, u64)>,
    results: Seq<RateLimitResult>,
    quota: Quota,
    key: Seq<char>,
)
    requires
        went_through(
            Seq::new(limiters.len(), |i: int| limiters[i].backend()),
            requests,
            results,
        ),
        forall|i: int|
            0 <= i < requests.len() ==> (#[trigger] requests[i]).1 == limiters[i].quota_of(
                requests[i].0,
            ),
        forall|i: int|
            0 <= i < requests.len() ==> (#[trigger] limiters[i]).quota_of(key) == quota,
        times_of(requests, key).len() > 0,
        gcra_laws::in_time_order(times_of(requests, key)),
        forall|i: int|
            0 <= i < requests.len() && (#[trigger] limiters[i]).backend().arrivals().contains_key(
                key,
            ) ==> limiters[i].backend().arrivals()[key] < u64::MAX,
    ensures
        allowed_for(requests, results, key) <= quota.burst + (times_of(requests, key).last()
            - times_of(requests, key)[0]) / gcra::emission(backend::spacing(quota) as int),
{
    let states = Seq::new(limiters.len(), |i: int| limiters[i].backend());
    assert forall|i: int|
        0 <= i < requests.len() && (#[trigger] requests[i]).0 == key implies requests[i].1
        == quota by {
        assert(limiters[i].quota_of(key) == quota);
    }
    assert forall|i: int|
        0 <= i < requests.len() && (#[trigger] states[i]).arrivals().contains_key(
            key,
        ) implies states[i].arrivals()[key] < u64::MAX by {
        assert(states[i] == limiters[i].backend());
    }
    law_each_key_keeps_its_rate(states, requests, results, quota, key);
}

/// The reset of a denied request is when the next token becomes available: the
/// same request is denied before it and allowed from it on. Holds for every
/// quota with a burst.
pub proof fn law_reset_of_a_denial_is_the_next_token(
    before: InMemoryBackend,
    key: Seq<char>,
    quota: Quota,
    now: u64,
    after: InMemoryBackend,
    r: RateLimitResult,
    later: u64,
)
    requires
        InMemoryBackend::checked_at(before, key, quota, now, after, r),
        !r.allowed,
        quota.burst >= 1,
        now <= later,
    ensures
        gcra::conforms(
            later as int,
            after.arrivals()[key] as int,
            backend::spacing(quota) as int,
            quota.burst as int,
        ) <==> later * NANOS_PER_MILLI >= InMemoryBackend::reset_nanos(
            before.arrivals(),
            key,
            quota,
            now,
        ),
{
    gcra_laws::law_retry_after_is_exact(
        now,
        backend::arrival_of(before.arrivals(), key, now),
        backend::spacing(quota),
        quota.burst as u64,
        (later - now) as u64,
    );
}

/// A check against a sliding window touches no other key.
pub proof fn law_other_windows_are_untouched(
    before: SlidingWindowBackend,
    key: Seq<char>,
    quota: Quota,
    now: u128,
    after: SlidingWindowBackend,
    r: RateLimitResult,
    other: Seq<char>,
)
    requires
        SlidingWindowBackend::checked_at(before, key, quota, now, after, r),
        other != key,
    ensures
        after.log_of(other) == before.log_of(other),
{
}

/// Whether a backend went through `states` with those requests, each a key, the
/// quota that it is checked under, and a time.
pub open spec fn slid_through(
    states: Seq<SlidingWindowBackend>,
    requests: Seq<(Seq<char>, Quota, u128)>,
    results: Seq<RateLimitResult>,
) -> bool {
    &&& states.len() == requests.len() + 1
    &&& results.len() == requests.len()
    &&& forall|i: int|
        0 <= i < requests.len() ==> #[trigger] SlidingWindowBackend::checked_at(
            states[i],
            requests[i].0,
            requests[i].1,
            requests[i].2,
            states[i + 1],
            results[i],
        )
}

/// The times of the requests for one key.
pub open spec fn moments_of(requests: Seq<(Seq<char>, Quota, u128)>, key: Seq<char>) -> Seq<u128>
    decreases requests.len(),
{
    if requests.len() == 0 {
        Seq::empty()
    } else if requests.last().0 == key {
        moments_of(requests.drop_last(), key).push(requests.last().2)
    } else {
        moments_of(requests.drop_last(), key)
    }
}

/// The times of the requests for one key that were allowed.
pub open spec fn allowed_moments(
    requests: Seq<(Seq<char>, Quota, u128)>,
    results: Seq<RateLimitResult>,
    key: Seq<char>,
) -> Seq<u128>
    decreases requests.len(),
{
    if requests.len() == 0 {
        Seq::empty()
    } else {
        let before = allowed_moments(requests.drop_last(), results.drop_last(), key);
        if requests.last().0 == key && results.last().allowed {
            before.push(requests.last().2)
        } else {
            before
        }
    }
}

/// The record of a key, and which of its requests were allowed, are those of the
/// key's own requests.
pub proof fn lemma_window_is_tracked(
    states: Seq<SlidingWindowBackend>,
    requests: Seq<(Seq<char>, Quota, u128)>,
    results: Seq<RateLimitResult>,
    quota: Quota,
    key: Seq<char>,
)
    requires
        slid_through(states, requests, results),
        forall|i: int|
            0 <= i < requests.len() && (#[trigger] requests[i]).0 == key ==> requests[i].1 == quota,
        states[0].log_of(key).len() == 0,
    ensures
        ({
            let times = moments_of(requests, key);
            let window = sliding_window::window_of(quota);
            let limit = quota.burst as int;
            &&& states.last().log_of(key) == sliding_laws::log_over(times, window, limit)
            &&& allowed_moments(requests, results, key) == sliding_laws::allowed_times(
                times,
                window,
                limit,
            )
        }),
    decreases requests.len(),
{
    let window = sliding_window::window_of(quota);
    let limit = quota.burst as int;
    if requests.len() > 0 {
        let n = requests.len() - 1;
        let earlier = requests.drop_last();
        let past = states.drop_last();
        let told = results.drop_last();
        assert(slid_through(past, earlier, told)) by {
            assert forall|i: int|
                0 <= i < earlier.len() implies #[trigger] SlidingWindowBackend::checked_at(
                past[i],
                earlier[i].0,
                earlier[i].1,
                earlier[i].2,
                past[i + 1],
                told[i],
            ) by {
                assert(SlidingWindowBackend::checked_at(
                    states[i],
                    requests[i].0,
                    requests[i].1,
                    requests[i].2,
                    states[i + 1],
                    results[i],
                ));
            }
        }
        lemma_window_is_tracked(past, earlier, told, quota, key);
        assert(SlidingWindowBackend::checked_at(
            states[n],
            requests[n].0,
            requests[n].1,
            requests[n].2,
            states[n + 1],
            results[n],
        ));
        let times = moments_of(requests, key);
        if requests.last().0 == key {
            assert(times.drop_last() =~= moments_of(earlier, key));
        } else {
            law_other_windows_are_untouched(
                states[n],
                requests[n].0,
                requests[n].1,
                requests[n].2,
                states[n + 1],
                results[n],
                key,
            );
        }
    } else {
        assert(states.last().log_of(key) =~= Seq::<u128>::empty());
    }
}

/// No window of a key ever holds more than the burst, whatever the requests for
/// other keys in between, under whatever quotas: of any `burst + 1` allowed requests of a key in a
/// row, the last comes more than a window after the first, that is more than the
/// interval times the burst.
pub proof fn law_each_key_keeps_its_window(
    states: Seq<SlidingWindowBackend>,
    requests: Seq<(Seq<char>, Quota, u128)>,
    results: Seq<RateLimitResult>,
    quota: Quota,
    key: Seq<char>,
    first: int,
    last: int,
)
    requires
        slid_through(states, requests, results),
        forall|i: int|
            0 <= i < requests.len() && (#[trigger] requests[i]).0 == key ==> requests[i].1 == quota,
        states[0].log_of(key).len() == 0,
        sliding_laws::in_order(moments_of(requests, key)),
        0 <= first,
        first + quota.burst <= last < allowed_moments(requests, results, key).len(),
    ensures
        allowed_moments(requests, results, key)[first] + clock::duration_nanos(quota.interval)
            * quota.burst < allowed_moments(requests, results, key)[last],
{
    lemma_window_is_tracked(states, requests, results, quota, key);
    assert(sliding_window::window_of(quota) >= 0) by (nonlinear_arith)
        requires
            sliding_window::window_of(quota) == quota.period() * quota.burst,
            quota.period() >= 0,
            quota.burst >= 0,
    ;
    sliding_laws::law_window_is_never_exceeded(
        moments_of(requests, key),
        sliding_window::window_of(quota),
        quota.burst as int,
        first,
        last,
    );
}

/// A check of one key by a keyed limiter leaves every other key its state and
/// its quota.
pub proof fn law_keyed_limiter_isolates_keys(
    before: KeyedRateLimiter<InMemoryBackend>,
    key: Seq<char>,
    after: KeyedRateLimiter<InMemoryBackend>,
    r: RateLimitResult,
    other: Seq<char>,
)
    requires
        KeyedRateLimiter::checked(before, key, after, r),
        other != key,
    ensures
        after.quota_of(other) == before.quota_of(other),
        after.backend().arrivals().contains_key(other)
            == before.backend().arrivals().contains_key(other),
        after.backend().arrivals().contains_key(other) ==> after.backend().arrivals()[other]
            == before.backend().arrivals()[other],
{
}

} // verus!
