//! The decision core of the Generic Cell Rate Algorithm.
//!
//! A key's whole state is one number, its *theoretical arrival time* (TAC):
//! the moment at which the key's bucket has drained. The functions here are
//! total and touch neither a clock nor storage, so every backend shares them.
use vstd::prelude::*;

verus! {

/// The larger of two times.
pub open spec fn later(a: int, b: int) -> int {
    if a >= b {
        a
    } else {
        b
    }
}

/// The smaller of two amounts.
pub open spec fn lesser(a: int, b: int) -> int {
    if a <= b {
        a
    } else {
        b
    }
}

/// The spacing of conforming requests that a configured interval stands for:
/// an interval below one millisecond counts as one millisecond.
pub open spec fn emission(interval: int) -> int {
    later(interval, 1)
}

/// The theoretical arrival time of a key once a request at `now` is counted.
pub open spec fn next_arrival(now: int, tac: int, interval: int) -> int {
    later(tac, now) + emission(interval)
}

/// Whether a request at `now` conforms: counting it, the bucket is at most
/// `burst` intervals ahead of the clock.
pub open spec fn conforms(now: int, tac: int, interval: int, burst: int) -> bool {
    next_arrival(now, tac, interval) <= now + emission(interval) * burst
}

/// How far a request at `now` is ahead of the moment at which it would conform.
pub open spec fn wait_for(now: int, tac: int, interval: int, burst: int) -> int {
    next_arrival(now, tac, interval) - now - emission(interval) * burst
}

/// The intervals in use once a request at `now` is counted, at most `burst`.
pub open spec fn intervals_in_use(now: int, tac: int, interval: int, burst: int) -> int {
    lesser((next_arrival(now, tac, interval) - now) / emission(interval), burst)
}

/// The whole decision: allowed, milliseconds to wait, reported remaining.
pub open spec fn decision(now: int, tac: int, interval: int, burst: int) -> (bool, int, int) {
    if conforms(now, tac, interval, burst) {
        (true, 0, intervals_in_use(now, tac, interval, burst))
    } else {
        (false, lesser(wait_for(now, tac, interval, burst), u64::MAX as int), 0)
    }
}

/// The stored arrival time after a request at `now`: it moves only when the
/// request conforms, and stops at the largest stored time.
pub open spec fn advanced(now: int, tac: int, interval: int, burst: int) -> int {
    if conforms(now, tac, interval, burst) {
        lesser(next_arrival(now, tac, interval), u64::MAX as int)
    } else {
        tac
    }
}

proof fn lemma_burst_width(interval: int, burst: int)
    by (nonlinear_arith)
    requires
        1 <= interval <= u64::MAX,
        0 <= burst <= u64::MAX,
    ensures
        0 <= interval * burst,
        interval * burst <= 0xffff_ffff_ffff_ffff * 0xffff_ffff_ffff_ffff,
        burst >= 1 ==> interval <= interval * burst,
{
}

/// Decides whether a request conforms.
///
/// Returns `(allowed, retry_after_ms, remaining)`: whether the request
/// conforms, how many milliseconds are missing until it would, and the number
/// of intervals in use (never more than `burst_ms`, and `0` on denial).
///
/// Every combination of inputs is handled. `emission_interval_ms == 0` counts
/// as one millisecond; `burst_ms` is a number of requests, and with `0`
/// nothing conforms.
pub fn gcra_decide(
    now_ms: u64,
    tac_ms: u64,
    emission_interval_ms: u64,
    burst_ms: u64,
) -> (r: (bool, u64, u64))
    ensures
        (r.0, r.1 as int, r.2 as int) == decision(
            now_ms as int,
            tac_ms as int,
            emission_interval_ms as int,
            burst_ms as int,
        ),
        r.0 <==> r.1 == 0,
        r.2 <= burst_ms,
        r.0 ==> r.2 >= 1,
        !r.0 ==> r.1 >= 1 && r.2 == 0,
{
    let step: u64 = if emission_interval_ms == 0 {
        1
    } else {
        emission_interval_ms
    };
    let start: u64 = if tac_ms >= now_ms {
        tac_ms
    } else {
        now_ms
    };
    proof {
        lemma_burst_width(step as int, burst_ms as int);
    }
    let interval: u128 = step as u128;
    let now: u128 = now_ms as u128;
    let new_tat: u128 = start as u128 + interval;
    let width: u128 = interval * (burst_ms as u128);
    if new_tat <= now + width {
        let used: u128 = (new_tat - now) / interval;
        proof {
            assert(used >= 1) by (nonlinear_arith)
                requires
                    interval >= 1,
                    new_tat - now >= interval,
                    used == (new_tat - now) / (interval as int),
            ;
            assert(burst_ms >= 1) by (nonlinear_arith)
                requires
                    width == interval * burst_ms,
                    new_tat <= now + width,
                    new_tat >= now + interval,
                    interval >= 1,
            ;
        }
        let remaining: u64 = if used <= burst_ms as u128 {
            used as u64
        } else {
            burst_ms
        };
        (true, 0, remaining)
    } else {
        let missing: u128 = new_tat - now - width;
        let retry_after: u64 = if missing <= u64::MAX as u128 {
            missing as u64
        } else {
            u64::MAX
        };
        (false, retry_after, 0)
    }
}

/// One step for a stored arrival time: decides, and moves the stored time on
/// when the request conforms.
pub fn gcra_advance(tac_ms: &mut u64, now_ms: u64, interval_ms: u64, burst: u64) -> (r: (
    bool,
    u64,
    u64,
))
    ensures
        (r.0, r.1 as int, r.2 as int) == decision(
            now_ms as int,
            *old(tac_ms) as int,
            interval_ms as int,
            burst as int,
        ),
        *final(tac_ms) == advanced(
            now_ms as int,
            *old(tac_ms) as int,
            interval_ms as int,
            burst as int,
        ),
{
    let decided: (bool, u64, u64) = gcra_decide(now_ms, *tac_ms, interval_ms, burst);
    if decided.0 {
        let start: u64 = if *tac_ms >= now_ms {
            *tac_ms
        } else {
            now_ms
        };
        let step: u64 = if interval_ms == 0 {
            1
        } else {
            interval_ms
        };
        *tac_ms = start.saturating_add(step);
    }
    decided
}

} // verus!
