//! The step of the SQLite backend: from the row of a key to the row that
//! replaces it, and the result.
//!
//! A row holds when the key's last request was allowed, in milliseconds, and
//! how many requests were left then.
use std::time::{Duration, Instant};
use vstd::prelude::*;

use crate::clock;
use crate::clock::NANOS_PER_MILLI;
use crate::gcra;
use crate::metrics::RateLimitResult;
use crate::quota::Quota;

verus! {

/// The stored state of a key.
#[derive(Debug, Clone, Copy, PartialEq, Eq, Structural)]
pub struct StoredKey {
    /// When the last request was allowed, in milliseconds of the system clock.
    pub last_emission_ms: u64,
    /// How many requests were left then.
    pub remaining: u32,
}

/// The state that counts for a key: one without a row starts with a full burst.
pub open spec fn row_or_full(row: Option<StoredKey>, burst: u32, now_ms: u64) -> StoredKey {
    match row {
        Some(held) => held,
        None => (StoredKey { last_emission_ms: now_ms, remaining: burst }),
    }
}

/// The milliseconds since the last allowed request; none where the clock has
/// gone back.
pub open spec fn elapsed_ms(held: StoredKey, now_ms: int) -> int {
    gcra::later(now_ms - held.last_emission_ms, 0)
}

/// The requests at hand: those left, and one for each interval elapsed, up to
/// the burst.
pub open spec fn at_hand(held: StoredKey, interval_ms: int, burst: int, now_ms: int) -> int {
    let replenished = elapsed_ms(held, now_ms) / interval_ms;
    if replenished > 0 {
        gcra::lesser(held.remaining + replenished, burst)
    } else {
        held.remaining as int
    }
}

/// The milliseconds until the next request is replenished.
pub open spec fn next_token_ms(held: StoredKey, interval_ms: int, now_ms: int) -> int {
    interval_ms - elapsed_ms(held, now_ms) % interval_ms
}

/// The row after a request at `now_ms`: an allowed one takes one of those at
/// hand, and a denied one leaves the time as it is.
pub open spec fn row_after(
    held: StoredKey,
    interval_ms: int,
    burst: int,
    now_ms: u64,
) -> StoredKey {
    let available = at_hand(held, interval_ms, burst, now_ms as int);
    if available > 0 {
        StoredKey { last_emission_ms: now_ms, remaining: (available - 1) as u32 }
    } else {
        StoredKey { last_emission_ms: held.last_emission_ms, remaining: 0 }
    }
}

/// What a check of a key comes to: the row that replaces `row`, and the result.
pub open spec fn row_checked(
    row: Option<StoredKey>,
    quota: Quota,
    now_ms: u64,
    now: Instant,
    next: StoredKey,
    result: RateLimitResult,
) -> bool {
    let held = row_or_full(row, quota.burst, now_ms);
    let interval_ms = quota.period_millis() as int;
    let burst = quota.burst as int;
    let wait = next_token_ms(held, interval_ms, now_ms as int);
    &&& next == row_after(held, interval_ms, burst, now_ms)
    &&& result.allowed == (at_hand(held, interval_ms, burst, now_ms as int) > 0)
    &&& result.remaining == next.remaining
    &&& result.limit == burst
    &&& result.wait_nanos() == if result.allowed {
        None
    } else {
        Some((wait * NANOS_PER_MILLI) as nat)
    }
    &&& clock::is_deadline(
        result.reset_at,
        now,
        if result.allowed {
            quota.period()
        } else {
            (wait * NANOS_PER_MILLI) as nat
        },
    )
}

/// One check of a key.
///
/// `row` is what the database holds for the key, `now_ms` the system clock and
/// `now` the monotonic clock. The row that comes back replaces the one held.
/// The interval of the quota has to be a millisecond at least.
pub fn check_row(row: Option<StoredKey>, quota: &Quota, now_ms: u64, now: Instant) -> (r: (
    StoredKey,
    RateLimitResult,
))
    requires
        quota.period_millis() > 0,
    ensures
        row_checked(row, *quota, now_ms, now, r.0, r.1),
{
    let interval_ms: u64 = quota.interval_millis();
    let burst: u32 = quota.burst;
    let held: StoredKey = match row {
        Some(held) => held,
        None => StoredKey { last_emission_ms: now_ms, remaining: burst },
    };
    let elapsed: u64 = now_ms.saturating_sub(held.last_emission_ms);
    let replenished: u64 = elapsed / interval_ms;
    let available: u32 = if replenished == 0 {
        held.remaining
    } else if held.remaining >= burst || replenished >= (burst - held.remaining) as u64 {
        burst
    } else {
        held.remaining + replenished as u32
    };
    let wait: Duration = clock::span_of_millis(interval_ms - elapsed % interval_ms);
    if available > 0 {
        (
            StoredKey { last_emission_ms: now_ms, remaining: available - 1 },
            RateLimitResult {
                allowed: true,
                remaining: (available - 1) as u64,
                reset_at: clock::deadline_after(now, quota.interval),
                limit: burst as u64,
                retry_after: None,
            },
        )
    } else {
        (
            StoredKey { last_emission_ms: held.last_emission_ms, remaining: 0 },
            RateLimitResult {
                allowed: false,
                remaining: 0,
                reset_at: clock::deadline_after(now, wait),
                limit: burst as u64,
                retry_after: Some(wait),
            },
        )
    }
}

/// One check of a key under any quota; none where its interval is below a
/// millisecond.
pub fn try_check_row(
    row: Option<StoredKey>,
    quota: &Quota,
    now_ms: u64,
    now: Instant,
) -> (r: Option<(StoredKey, RateLimitResult)>)
    ensures
        match r {
            Some((next, result)) => quota.period_millis() > 0 && row_checked(
                row,
                *quota,
                now_ms,
                now,
                next,
                result,
            ),
            None => quota.period_millis() == 0,
        },
{
    if quota.interval_millis() > 0 {
        Some(check_row(row, quota, now_ms, now))
    } else {
        None
    }
}

/// The row after requests at the given times, in order.
pub open spec fn row_over(
    start: StoredKey,
    times: Seq<u64>,
    interval_ms: int,
    burst: int,
) -> StoredKey
    decreases times.len(),
{
    if times.len() == 0 {
        start
    } else {
        row_after(
            row_over(start, times.drop_last(), interval_ms, burst),
            interval_ms,
            burst,
            times.last(),
        )
    }
}

/// How many of the requests at the given times are allowed.
pub open spec fn allowed_over(
    start: StoredKey,
    times: Seq<u64>,
    interval_ms: int,
    burst: int,
) -> nat
    decreases times.len(),
{
    if times.len() == 0 {
        0
    } else {
        let before = row_over(start, times.drop_last(), interval_ms, burst);
        let counted: nat = if at_hand(before, interval_ms, burst, times.last() as int) > 0 {
            1
        } else {
            0
        };
        allowed_over(start, times.drop_last(), interval_ms, burst) + counted
    }
}

/// A row never holds more than the burst.
pub proof fn law_row_stays_within_the_burst(
    held: StoredKey,
    interval_ms: int,
    burst: u32,
    now_ms: u64,
)
    requires
        held.remaining <= burst,
        interval_ms > 0,
    ensures
        0 <= at_hand(held, interval_ms, burst as int, now_ms as int) <= burst,
        row_after(held, interval_ms, burst as int, now_ms).remaining <= burst,
{
}

/// The reported wait is exact: after a denied request, the same request made
/// that much later is allowed, and made any earlier it is denied. Holds for
/// every quota with a burst, on a clock that has not gone back.
pub proof fn law_row_wait_is_exact(
    held: StoredKey,
    interval_ms: u64,
    burst: u32,
    now_ms: u64,
    delay: u64,
)
    requires
        burst >= 1,
        interval_ms > 0,
        held.last_emission_ms <= now_ms,
        now_ms + delay <= u64::MAX,
        at_hand(held, interval_ms as int, burst as int, now_ms as int) == 0,
    ensures
        ({
            let denied = row_after(held, interval_ms as int, burst as int, now_ms);
            at_hand(denied, interval_ms as int, burst as int, now_ms + delay) > 0 <==> delay
                >= next_token_ms(held, interval_ms as int, now_ms as int)
        }),
{
    let i = interval_ms as int;
    let e = elapsed_ms(held, now_ms as int);
    let f = e + delay;
    assert(e / i == 0);
    assert(e < i) by (nonlinear_arith)
        requires
            e / i == 0,
            i > 0,
            e >= 0,
    ;
    assert(e % i == e) by (nonlinear_arith)
        requires
            0 <= e < i,
    ;
    assert(f / i > 0 <==> f >= i) by (nonlinear_arith)
        requires
            i > 0,
            f >= 0,
    ;
}

/// A full burst is exactly `burst` requests: of requests for a new key made at
/// one moment the first `burst` are allowed, with one less left each time, and
/// every later one is denied.
pub proof fn law_row_burst_admits_exactly(now_ms: u64, interval_ms: int, burst: u32, n: nat)
    requires
        interval_ms > 0,
    ensures
        ({
            let start = row_or_full(None, burst, now_ms);
            let times = Seq::new(n, |i: int| now_ms);
            &&& row_over(start, times, interval_ms, burst as int) == (StoredKey {
                last_emission_ms: now_ms,
                remaining: (burst - gcra::lesser(n as int, burst as int)) as u32,
            })
            &&& allowed_over(start, times, interval_ms, burst as int) == gcra::lesser(
                n as int,
                burst as int,
            )
        }),
    decreases n,
{
    assert(0int / interval_ms == 0) by (nonlinear_arith)
        requires
            interval_ms > 0,
    ;
    if n > 0 {
        let m = (n - 1) as nat;
        law_row_burst_admits_exactly(now_ms, interval_ms, burst, m);
        assert(Seq::new(n, |i: int| now_ms).drop_last() =~= Seq::new(m, |i: int| now_ms));
    }
}

proof fn lemma_row_budget(start: StoredKey, times: Seq<u64>, interval_ms: int, burst: u32)
    requires
        interval_ms > 0,
        start.remaining <= burst,
        forall|i: int, j: int| 0 <= i <= j < times.len() ==> times[i] <= times[j],
        times.len() > 0 ==> start.last_emission_ms <= times[0],
    ensures
        ({
            let row = row_over(start, times, interval_ms, burst as int);
            let k = allowed_over(start, times, interval_ms, burst as int);
            &&& row.remaining <= burst
            &&& start.last_emission_ms <= row.last_emission_ms
            &&& times.len() > 0 ==> row.last_emission_ms <= times.last()
            &&& times.len() == 0 ==> row == start
            &&& (row.remaining + k - start.remaining) * interval_ms <= row.last_emission_ms
                - start.last_emission_ms
        }),
    decreases times.len(),
{
    if times.len() > 0 {
        let prior = times.drop_last();
        let now = times.last() as int;
        lemma_row_budget(start, prior, interval_ms, burst);
        let row = row_over(start, prior, interval_ms, burst as int);
        let k = allowed_over(start, prior, interval_ms, burst as int);
        if prior.len() > 0 {
            assert(prior.last() == times[times.len() - 2]);
        }
        assert(row.last_emission_ms <= now);
        let e = elapsed_ms(row, now);
        let gained = e / interval_ms;
        let available = at_hand(row, interval_ms, burst as int, now);
        let spent = row.remaining + k - start.remaining;
        assert(gained * interval_ms <= e && gained >= 0) by (nonlinear_arith)
            requires
                gained == e / interval_ms,
                e >= 0,
                interval_ms > 0,
        ;
        assert(0 <= available <= row.remaining + gained);
        assert((available + k - start.remaining) * interval_ms <= spent * interval_ms + gained
            * interval_ms) by (nonlinear_arith)
            requires
                available + k - start.remaining <= spent + gained,
                interval_ms > 0,
        ;
        if available == 0 {
            assert((k - start.remaining) * interval_ms <= spent * interval_ms) by (nonlinear_arith)
                requires
                    k - start.remaining <= spent,
                    interval_ms > 0,
            ;
        }
    } else {
        assert(0 * interval_ms == 0);
    }
}

/// The limit is enforced: however the requests of a key are spaced, no more of
/// them are allowed than were left at the start and one per interval elapsed
/// since. Holds on a clock that does not go back.
pub proof fn law_row_rate_is_enforced(
    start: StoredKey,
    times: Seq<u64>,
    interval_ms: int,
    burst: u32,
)
    requires
        interval_ms > 0,
        start.remaining <= burst,
        times.len() > 0,
        start.last_emission_ms <= times[0],
        forall|i: int, j: int| 0 <= i <= j < times.len() ==> times[i] <= times[j],
    ensures
        allowed_over(start, times, interval_ms, burst as int) <= start.remaining + (times.last()
            - start.last_emission_ms) / interval_ms,
{
    lemma_row_budget(start, times, interval_ms, burst);
    let row = row_over(start, times, interval_ms, burst as int);
    let k = allowed_over(start, times, interval_ms, burst as int) as int;
    let d = k - start.remaining;
    let stretch = times.last() - start.last_emission_ms;
    assert((row.remaining + k - start.remaining) * interval_ms >= d * interval_ms)
        by (nonlinear_arith)
        requires
            row.remaining + k - start.remaining >= d,
            interval_ms > 0,
    ;
    assert(d <= stretch / interval_ms) by (nonlinear_arith)
        requires
            d * interval_ms <= stretch,
            interval_ms > 0,
    ;
}

/// A row fills up one token per interval elapsed until it is full.
pub proof fn law_row_fills_one_token_per_interval(
    held: StoredKey,
    interval_ms: int,
    burst: u32,
    now_ms: u64,
)
    requires
        interval_ms > 0,
        held.remaining <= burst,
        held.last_emission_ms <= now_ms,
    ensures
        ({
            let filled: int = held.remaining + (now_ms - held.last_emission_ms) / interval_ms;
            at_hand(held, interval_ms, burst as int, now_ms as int) == if filled <= burst {
                filled
            } else {
                burst as int
            }
        }),
{
    assert((now_ms - held.last_emission_ms) / interval_ms >= 0) by (nonlinear_arith)
        requires
            interval_ms > 0,
            now_ms >= held.last_emission_ms,
    ;
}

/// A check of a row, in full: with `ms` the interval in milliseconds, a key
/// without a row starts with a full burst, and one with a row gains a token for
/// each whole interval since its last allowed request, up to the burst. The
/// request is allowed while there is a token, takes one, and sets the time;
/// otherwise the row stays, and the rest of the interval under way is told as
/// the wait. The reset is an interval on, or the end of the wait.
pub proof fn law_row_check_in_full(
    row: Option<StoredKey>,
    quota: Quota,
    now_ms: u64,
    now: Instant,
    next: StoredKey,
    result: RateLimitResult,
)
    requires
        row_checked(row, quota, now_ms, now, next, result),
        1_000_000 <= clock::duration_nanos(quota.interval) < 0x1_0000_0000_0000_0000 * 1_000_000,
    ensures
        ({
            let p = clock::duration_nanos(quota.interval) as int;
            let ms: int = p / 1_000_000;
            let last: u64 = match row {
                Some(held) => held.last_emission_ms,
                None => now_ms,
            };
            let left: int = match row {
                Some(held) => held.remaining as int,
                None => quota.burst as int,
            };
            let elapsed: int = if now_ms >= last {
                now_ms - last
            } else {
                0
            };
            let gained: int = elapsed / ms;
            let tokens: int = if gained == 0 {
                left
            } else if left + gained <= quota.burst {
                left + gained
            } else {
                quota.burst as int
            };
            let wait: int = ms - elapsed % ms;
            let reset: nat = if tokens > 0 {
                p as nat
            } else {
                (wait * 1_000_000) as nat
            };
            &&& result.allowed <==> tokens > 0
            &&& result.limit == quota.burst
            &&& next.remaining == if tokens > 0 {
                tokens - 1
            } else {
                0
            }
            &&& result.remaining == next.remaining
            &&& next.last_emission_ms == if tokens > 0 {
                now_ms
            } else {
                last
            }
            &&& match result.retry_after {
                None => tokens > 0,
                Some(span) => tokens <= 0 && clock::duration_nanos(span) == wait * 1_000_000,
            }
            &&& clock::instant_plus(now, reset) matches Some(t) ==> result.reset_at == t
                && clock::nanos_between(t, now) == reset
        }),
{
    crate::quota::law_millis_are_whole(quota);
    let ms = quota.period_millis() as int;
    let held = row_or_full(row, quota.burst, now_ms);
    let elapsed = elapsed_ms(held, now_ms as int);
    assert(ms == clock::duration_nanos(quota.interval) as int / 1_000_000);
    assert(elapsed / ms >= 0) by (nonlinear_arith)
        requires
            elapsed >= 0,
            ms > 0,
    ;
    assert(0 <= elapsed % ms < ms) by (nonlinear_arith)
        requires
            ms > 0,
    ;
}

/// A key that was idle for `burst` intervals is full again: of requests made at
/// that moment the first `burst` are allowed, and every later one is denied.
pub proof fn law_idle_row_admits_the_burst(
    start: StoredKey,
    now_ms: u64,
    interval_ms: int,
    burst: u32,
    n: nat,
)
    requires
        interval_ms > 0,
        start.remaining <= burst,
        start.last_emission_ms + interval_ms * burst <= now_ms,
    ensures
        ({
            let times = Seq::new(n, |i: int| now_ms);
            allowed_over(start, times, interval_ms, burst as int) == if n <= burst {
                n as int
            } else {
                burst as int
            }
        }),
{
    lemma_idle_row(start, now_ms, interval_ms, burst, n);
}

proof fn lemma_idle_row(start: StoredKey, now_ms: u64, interval_ms: int, burst: u32, n: nat)
    requires
        interval_ms > 0,
        start.remaining <= burst,
        start.last_emission_ms + interval_ms * burst <= now_ms,
    ensures
        ({
            let times = Seq::new(n, |i: int| now_ms);
            let row = row_over(start, times, interval_ms, burst as int);
            &&& n == 0 ==> row == start
            &&& n > 0 ==> row.remaining == burst - gcra::lesser(n as int, burst as int)
            &&& n > 0 && burst > 0 ==> row.last_emission_ms == now_ms
            &&& burst == 0 ==> row.remaining == 0
            &&& allowed_over(start, times, interval_ms, burst as int) == gcra::lesser(
                n as int,
                burst as int,
            )
        }),
    decreases n,
{
    let times = Seq::new(n, |i: int| now_ms);
    assert(0int / interval_ms == 0) by (nonlinear_arith)
        requires
            interval_ms > 0,
    ;
    if n > 0 {
        let m = (n - 1) as nat;
        lemma_idle_row(start, now_ms, interval_ms, burst, m);
        assert(times.drop_last() =~= Seq::new(m, |i: int| now_ms));
        let elapsed = now_ms - start.last_emission_ms;
        assert(elapsed >= 0 && elapsed / interval_ms >= burst) by (nonlinear_arith)
            requires
                elapsed >= interval_ms * burst,
                interval_ms > 0,
                burst >= 0,
        ;
    }
}

} // verus!
