//! What a sequence of checks against a sliding window adds up to.
use vstd::prelude::*;

use crate::gcra;
use crate::sliding_window;

verus! {

/// The requests on record after requests at the given times, for a key that
/// starts with none.
pub open spec fn log_over(times: Seq<u128>, window: int, limit: int) -> Seq<u128>
    decreases times.len(),
{
    if times.len() == 0 {
        Seq::empty()
    } else {
        sliding_window::log_after(
            log_over(times.drop_last(), window, limit),
            times.last(),
            window,
            limit,
        )
    }
}

/// Which of the requests at the given times are allowed.
pub open spec fn allowed_times(times: Seq<u128>, window: int, limit: int) -> Seq<u128>
    decreases times.len(),
{
    if times.len() == 0 {
        Seq::empty()
    } else {
        let before = allowed_times(times.drop_last(), window, limit);
        if sliding_window::within_limit(
            log_over(times.drop_last(), window, limit),
            times.last() as int,
            window,
            limit,
        ) {
            before.push(times.last())
        } else {
            before
        }
    }
}

/// Whether no time comes before the one in front of it.
pub open spec fn in_order(times: Seq<u128>) -> bool {
    forall|i: int, j: int| 0 <= i <= j < times.len() ==> times[i] <= times[j]
}

/// How many requests at the front of a record no longer count at `now`.
pub open spec fn expired(log: Seq<u128>, now: int, window: int) -> int {
    log.len() - sliding_window::live(log, now, window).len()
}

proof fn lemma_live(log: Seq<u128>, now: int, window: int)
    ensures
        0 <= expired(log, now, window) <= log.len(),
        sliding_window::live(log, now, window) == log.skip(expired(log, now, window)),
        forall|i: int| 0 <= i < expired(log, now, window) ==> log[i] + window < now,
        expired(log, now, window) < log.len() ==> log[expired(log, now, window)] + window >= now,
    decreases log.len(),
{
    if log.len() > 0 && log[0] + window < now {
        let rest = log.skip(1);
        lemma_live(rest, now, window);
        let m = expired(log, now, window);
        assert(m == expired(rest, now, window) + 1);
        assert(log.skip(m) =~= rest.skip(m - 1));
        assert forall|i: int| 0 <= i < m implies log[i] + window < now by {
            if i > 0 {
                assert(rest[i - 1] == log[i]);
            }
        }
    } else {
        assert(log.skip(0) =~= log);
    }
}

/// What still counts is what follows the requests at the front that are past.
pub proof fn lemma_live_is(log: Seq<u128>, now: int, window: int, gone: int)
    requires
        0 <= gone <= log.len(),
        forall|i: int| 0 <= i < gone ==> (#[trigger] log[i]) + window < now,
        gone < log.len() ==> log[gone] + window >= now,
    ensures
        sliding_window::live(log, now, window) == log.skip(gone),
{
    lemma_live(log, now, window);
    let m = expired(log, now, window);
    if m < gone {
        assert(log[m] + window < now);
    } else if gone < m {
        assert(log[gone] + window < now);
    }
}

/// The record is the tail of the allowed requests, and what it lacks is past.
spec fn tail_of_allowed(times: Seq<u128>, window: int, limit: int) -> bool {
    let all = allowed_times(times, window, limit);
    let log = log_over(times, window, limit);
    let gone = all.len() - log.len();
    &&& 0 <= gone
    &&& log == all.skip(gone)
    &&& in_order(all)
    &&& forall|i: int| 0 <= i < gone ==> all[i] + window < times.last()
    &&& forall|i: int| 0 <= i < all.len() ==> all[i] <= times.last()
}

proof fn lemma_tail(times: Seq<u128>, window: int, limit: int)
    requires
        in_order(times),
        times.len() > 0,
        0 <= window,
    ensures
        tail_of_allowed(times, window, limit),
        forall|i: int, j: int|
            0 <= i && i + limit <= j < allowed_times(times, window, limit).len() && limit >= 0
                ==> allowed_times(times, window, limit)[i] + window < allowed_times(
                times,
                window,
                limit,
            )[j],
    decreases times.len(),
{
    let earlier = times.drop_last();
    let now = times.last();
    let before = allowed_times(earlier, window, limit);
    let held = log_over(earlier, window, limit);
    let all = allowed_times(times, window, limit);
    let log = log_over(times, window, limit);
    let kept = sliding_window::live(held, now as int, window);
    let m = expired(held, now as int, window);
    lemma_live(held, now as int, window);
    let gone = if earlier.len() == 0 {
        0
    } else {
        before.len() - held.len()
    };
    if earlier.len() > 0 {
        assert(in_order(earlier));
        lemma_tail(earlier, window, limit);
        assert(earlier.last() <= now);
    } else {
        assert(before.skip(0) =~= held);
    }
    assert(kept =~= before.skip(gone + m));
    assert forall|i: int| 0 <= i < gone + m implies before[i] + window < now by {
        if i >= gone {
            assert(held[i - gone] == before[i]);
        }
    }
    if kept.len() < limit {
        assert(log =~= all.skip(gone + m));
        assert forall|i: int, j: int| 0 <= i && i + limit <= j < all.len() implies all[i] + window
            < all[j] by {
            if j == all.len() - 1 {
                assert(i < gone + m);
                assert(before[i] + window < now);
            }
        }
    } else {
        assert(log =~= all.skip(gone + m));
    }
    assert(all.len() - log.len() == gone + m);
}

/// No window holds more than `limit` allowed requests: of any `limit + 1` of
/// them in a row, the last comes more than a window after the first.
pub proof fn law_window_is_never_exceeded(
    times: Seq<u128>,
    window: int,
    limit: int,
    first: int,
    last: int,
)
    requires
        in_order(times),
        0 <= window,
        0 <= limit,
        0 <= first,
        first + limit <= last < allowed_times(times, window, limit).len(),
    ensures
        allowed_times(times, window, limit)[first] + window < allowed_times(
            times,
            window,
            limit,
        )[last],
{
    if times.len() > 0 {
        lemma_tail(times, window, limit);
    }
}

/// What is counted at `now` is every allowed request that is at most a window
/// old, and nothing else.
pub proof fn law_count_is_of_the_window(times: Seq<u128>, now: u128, window: int, limit: int)
    requires
        in_order(times.push(now)),
        0 <= window,
    ensures
        ({
            let all = allowed_times(times, window, limit);
            let counted = sliding_window::live(
                log_over(times, window, limit),
                now as int,
                window,
            );
            let past = all.len() - counted.len();
            &&& 0 <= past
            &&& counted == all.skip(past)
            &&& forall|i: int| 0 <= i < all.len() ==> (i < past <==> all[i] + window < now)
        }),
{
    let all = allowed_times(times, window, limit);
    let log = log_over(times, window, limit);
    lemma_live(log, now as int, window);
    let m = expired(log, now as int, window);
    if times.len() > 0 {
        assert forall|i: int, j: int| 0 <= i <= j < times.len() implies times[i] <= times[j] by {
            assert(times.push(now)[i] <= times.push(now)[j]);
        }
        lemma_tail(times, window, limit);
        assert(times.push(now)[times.len() - 1] <= times.push(now)[times.len() as int]);
        let gone = all.len() - log.len();
        assert(log.skip(m) =~= all.skip(gone + m));
        assert forall|i: int| 0 <= i < all.len() implies (i < gone + m <==> all[i] + window < now)
            by {
            if i < gone {
            } else if i < gone + m {
                assert(log[i - gone] == all[i]);
            } else {
                assert(log[m] == all[gone + m]);
                assert(all[gone + m] <= all[i]);
            }
        }
    } else {
        assert(all.skip(0) =~= log.skip(0));
    }
}

/// A full window turns requests away until its oldest request is more than a
/// window old, and takes one more from then on. The reported wait is the time
/// at which the oldest request is exactly a window old.
pub proof fn law_denied_until_the_oldest_leaves(
    log: Seq<u128>,
    now: int,
    window: int,
    limit: int,
    delay: int,
)
    requires
        log.len() == limit,
        1 <= limit,
        0 <= window,
        0 <= delay,
        sliding_window::live(log, now, window) == log,
    ensures
        sliding_window::within_limit(log, now + delay, window, limit) <==> delay > log[0] + window
            - now,
{
    lemma_live(log, now + delay, window);
}

/// No reported wait is longer than the window.
pub proof fn law_wait_is_at_most_the_window(log: Seq<u128>, now: int, window: int)
    requires
        0 < log.len(),
        log[0] <= now,
        0 <= window,
    ensures
        0 <= sliding_window::time_left(log, now, window) <= window,
{
}

/// Requests that all come within one window are allowed up to the limit, and
/// no further.
pub proof fn law_one_window_admits_exactly(times: Seq<u128>, window: int, limit: int)
    requires
        in_order(times),
        0 <= limit,
        times.len() > 0 ==> times.last() <= times[0] + window,
    ensures
        allowed_times(times, window, limit).len() == gcra::lesser(times.len() as int, limit),
        log_over(times, window, limit) == allowed_times(times, window, limit),
    decreases times.len(),
{
    if times.len() > 0 {
        let earlier = times.drop_last();
        assert(in_order(earlier));
        law_one_window_admits_exactly(earlier, window, limit);
        let held = log_over(earlier, window, limit);
        if held.len() > 0 {
            lemma_no_sooner(earlier, window, limit);
        }
        assert(sliding_window::live(held, times.last() as int, window) == held);
    }
}

proof fn lemma_no_sooner(times: Seq<u128>, window: int, limit: int)
    requires
        in_order(times),
        allowed_times(times, window, limit).len() > 0,
    ensures
        times.len() > 0,
        times[0] <= allowed_times(times, window, limit)[0],
    decreases times.len(),
{
    let earlier = times.drop_last();
    if allowed_times(earlier, window, limit).len() > 0 {
        assert(in_order(earlier));
        lemma_no_sooner(earlier, window, limit);
    }
}

} // verus!
