//! The exchange with the GCRA script of the Redis backend: what is sent to it,
//! and what its reply means.
use std::time::{Duration, Instant};
use vstd::prelude::*;

use crate::clock;
use crate::clock::NANOS_PER_MILLI;
use crate::error::RateLimitError;
use crate::metrics::RateLimitResult;
use crate::quota::Quota;

verus! {

/// The arguments of the script. Times are in milliseconds.
#[derive(Debug, Clone, Copy, PartialEq, Eq, Structural)]
pub struct ScriptArgs {
    /// The spacing of conforming requests.
    pub emission: u64,
    /// How many requests may come at once.
    pub burst: u32,
    /// What one request counts for.
    pub cost: u32,
    /// The system clock.
    pub now_ms: u64,
    /// How long the server keeps the key.
    pub ttl_ms: u64,
}

/// The arguments for one request under a quota.
pub open spec fn args_of(quota: Quota, now_ms: u64) -> ScriptArgs {
    ScriptArgs {
        emission: quota.period_millis(),
        burst: quota.burst,
        cost: 1,
        now_ms,
        ttl_ms: (quota.period_millis() * quota.burst) as u64,
    }
}

/// The arguments for one request under a quota: a key is kept for as long as a
/// full burst takes to drain.
pub fn script_args(quota: &Quota, now_ms: u64) -> (r: ScriptArgs)
    requires
        quota.period_millis() * quota.burst <= u64::MAX,
    ensures
        r == args_of(*quota, now_ms),
{
    let emission: u64 = quota.interval_millis();
    ScriptArgs {
        emission,
        burst: quota.burst,
        cost: 1,
        now_ms,
        ttl_ms: emission * quota.burst as u64,
    }
}

/// The arguments for one request under any quota; none where the time that a
/// full burst takes to drain does not fit.
pub fn try_script_args(quota: &Quota, now_ms: u64) -> (r: Option<ScriptArgs>)
    ensures
        match r {
            Some(args) => quota.period_millis() * quota.burst <= u64::MAX && args == args_of(
                *quota,
                now_ms,
            ),
            None => quota.period_millis() * quota.burst > u64::MAX,
        },
{
    match quota.interval_millis().checked_mul(quota.burst as u64) {
        Some(_) => Some(script_args(quota, now_ms)),
        None => None,
    }
}

/// What the script said of a request.
#[derive(Debug, Clone, Copy, PartialEq, Eq, Structural)]
pub struct ScriptVerdict {
    /// Whether the request is allowed.
    pub allowed: bool,
    /// The reported count.
    pub remaining: u32,
    /// The milliseconds to wait; zero for an allowed request.
    pub retry_after_ms: u64,
}

/// The verdict in a reply: three numbers, of which the first is zero for a
/// denied request, in the widths that the others are kept in.
pub open spec fn verdict_of(reply: Seq<i64>) -> ScriptVerdict {
    ScriptVerdict {
        allowed: reply[0] != 0,
        remaining: reply[1] as u32,
        retry_after_ms: reply[2] as u64,
    }
}

/// Reads a reply of the script.
pub fn read_reply(reply: &Vec<i64>) -> (r: ScriptVerdict)
    requires
        reply.len() >= 3,
    ensures
        r == verdict_of(reply@),
{
    ScriptVerdict {
        allowed: reply[0] != 0,
        remaining: reply[1] as u32,
        retry_after_ms: reply[2] as u64,
    }
}

/// The result of a check that the script decided.
pub open spec fn decided_by(
    quota: Quota,
    verdict: ScriptVerdict,
    now: Instant,
    r: RateLimitResult,
) -> bool {
    let wait = (verdict.retry_after_ms * NANOS_PER_MILLI) as nat;
    &&& r.allowed == verdict.allowed
    &&& r.remaining == verdict.remaining
    &&& r.limit == quota.burst
    &&& r.wait_nanos() == if verdict.allowed {
        None
    } else {
        Some(wait)
    }
    &&& clock::is_deadline(
        r.reset_at,
        now,
        if verdict.retry_after_ms > 0 {
            wait
        } else {
            quota.period()
        },
    )
}

/// The result of a check that the server could not decide: it fails open.
pub open spec fn failed_open(quota: Quota, now: Instant, r: RateLimitResult) -> bool {
    &&& r.allowed
    &&& r.remaining == 0
    &&& r.limit == quota.burst
    &&& r.retry_after is None
    &&& clock::is_deadline(r.reset_at, now, quota.period())
}

/// The result of a check, from the reply of the script or the failure to get
/// one.
pub fn checked_result(
    quota: &Quota,
    reply: &Result<Vec<i64>, RateLimitError>,
    now: Instant,
) -> (r: RateLimitResult)
    requires
        reply matches Ok(numbers) ==> numbers.len() >= 3,
    ensures
        match reply {
            Ok(numbers) => decided_by(*quota, verdict_of(numbers@), now, r),
            Err(_) => failed_open(*quota, now, r),
        },
{
    match reply {
        Ok(numbers) => {
            let verdict: ScriptVerdict = read_reply(numbers);
            let wait: Duration = clock::span_of_millis(verdict.retry_after_ms);
            let reset_at: Instant = if verdict.retry_after_ms > 0 {
                clock::deadline_after(now, wait)
            } else {
                clock::deadline_after(now, quota.interval)
            };
            RateLimitResult {
                allowed: verdict.allowed,
                remaining: verdict.remaining as u64,
                reset_at,
                limit: quota.burst as u64,
                retry_after: if verdict.allowed {
                    None
                } else {
                    Some(wait)
                },
            }
        },
        Err(_) => RateLimitResult {
            allowed: true,
            remaining: 0,
            reset_at: clock::deadline_after(now, quota.interval),
            limit: quota.burst as u64,
            retry_after: None,
        },
    }
}

/// What a reply means: the first number says whether the request is allowed, the
/// second is the count, and the third is the wait in milliseconds, told to a
/// denied request. The reset is the end of a wait, and an interval on without
/// one.
pub proof fn law_reply_in_full(quota: Quota, reply: Seq<i64>, now: Instant, r: RateLimitResult)
    requires
        reply.len() >= 3,
        decided_by(quota, verdict_of(reply), now, r),
        0 <= reply[1] < 0x1_0000_0000,
        0 <= reply[2],
    ensures
        r.allowed <==> reply[0] != 0,
        r.remaining == reply[1],
        r.limit == quota.burst,
        match r.retry_after {
            None => reply[0] != 0,
            Some(span) => reply[0] == 0 && clock::duration_nanos(span) == reply[2] * 1_000_000,
        },
        ({
            let reset: nat = if reply[2] > 0 {
                (reply[2] * 1_000_000) as nat
            } else {
                clock::duration_nanos(quota.interval)
            };
            clock::instant_plus(now, reset) matches Some(t) ==> r.reset_at == t
                && clock::nanos_between(t, now) == reset
        }),
{
}

/// Without a reply a request is allowed, with nothing left, and the reset is an
/// interval on.
pub proof fn law_failure_in_full(quota: Quota, now: Instant, r: RateLimitResult)
    requires
        failed_open(quota, now, r),
    ensures
        r.allowed,
        r.remaining == 0,
        r.limit == quota.burst,
        r.retry_after is None,
        clock::instant_plus(now, clock::duration_nanos(quota.interval)) matches Some(t)
            ==> r.reset_at == t && clock::nanos_between(t, now) == clock::duration_nanos(
            quota.interval,
        ),
{
}

/// What is sent for one request: the interval in whole milliseconds, the burst,
/// a cost of one, the clock, and as the time to keep the key what a full burst
/// takes to drain.
pub proof fn law_arguments_in_full(quota: Quota, now_ms: u64)
    requires
        clock::duration_nanos(quota.interval) < 0x1_0000_0000_0000_0000 * 1_000_000,
        clock::duration_nanos(quota.interval) * quota.burst < 0x1_0000_0000_0000_0000 * 1_000_000,
    ensures
        ({
            let args = args_of(quota, now_ms);
            let p = clock::duration_nanos(quota.interval);
            &&& args.emission * 1_000_000 <= p < (args.emission + 1) * 1_000_000
            &&& args.burst == quota.burst
            &&& args.cost == 1
            &&& args.now_ms == now_ms
            &&& args.ttl_ms == args.emission * quota.burst
        }),
{
    crate::quota::law_millis_are_whole(quota);
    let e = quota.period_millis() as int;
    let p = clock::duration_nanos(quota.interval) as int;
    let b = quota.burst as int;
    assert((e * b) * 1_000_000 <= p * b && e * b >= 0) by (nonlinear_arith)
        requires
            e * 1_000_000 <= p,
            e >= 0,
            b >= 0,
    ;
}

} // verus!
