//! The outcome of a check, and how it is told to clients.
use std::time::{Duration, Instant};
use vstd::prelude::*;

use crate::clock;
use crate::clock::NANOS_PER_SEC;
use crate::text;

verus! {

/// Result of a rate limit check.
#[derive(Debug)]
pub struct RateLimitResult {
    /// Whether the request was allowed.
    pub allowed: bool,
    /// Remaining requests in the current window.
    pub remaining: u64,
    /// When the next token becomes available.
    pub reset_at: Instant,
    /// The total rate limit for this window.
    pub limit: u64,
    /// When to retry if the request was rejected.
    pub retry_after: Option<Duration>,
}

impl Clone for RateLimitResult {
    fn clone(&self) -> (r: Self)
        ensures
            r == *self,
    {
        RateLimitResult {
            allowed: self.allowed,
            remaining: self.remaining,
            reset_at: self.reset_at,
            limit: self.limit,
            retry_after: self.retry_after,
        }
    }
}

/// The decimal text of a number.
pub fn decimal_text(n: u64) -> (r: String)
    ensures
        r@ == text::decimal(n as nat),
{
    let mut out: String = String::new();
    text::push_numeral(&mut out, n, 10);
    assert(out@ =~= text::decimal(n as nat));
    out
}

impl RateLimitResult {
    /// How long to wait before a retry, in nanoseconds.
    pub open spec fn wait_nanos(&self) -> Option<nat> {
        match self.retry_after {
            Some(span) => Some(clock::duration_nanos(span)),
            None => None,
        }
    }

    /// The whole seconds from `now` until the reset; none once it has passed.
    pub open spec fn reset_secs(&self, now: Instant) -> nat {
        clock::nanos_between(self.reset_at, now) / (NANOS_PER_SEC as nat)
    }

    /// The headers that tell a client about this result at `now`.
    pub open spec fn told_by(&self, now: Instant, headers: Seq<(&str, String)>) -> bool {
        &&& headers.len() == 3
        &&& headers[0].0@ == "X-RateLimit-Limit"@
        &&& headers[0].1@ == text::decimal(self.limit as nat)
        &&& headers[1].0@ == "X-RateLimit-Remaining"@
        &&& headers[1].1@ == text::decimal(self.remaining as nat)
        &&& headers[2].0@ == "X-RateLimit-Reset"@
        &&& headers[2].1@ == text::decimal(self.reset_secs(now))
    }

    /// The whole seconds from `now` until the reset.
    pub fn secs_to_reset(&self, now: Instant) -> (r: u64)
        ensures
            r == self.reset_secs(now),
    {
        let left: u128 = self.reset_at.saturating_duration_since(now).as_nanos();
        (left / NANOS_PER_SEC) as u64
    }

    /// The headers of [`headers`](RateLimitResult::headers) as of a given clock
    /// reading.
    pub fn headers_at(&self, now: Instant) -> (r: Vec<(&'static str, String)>)
        ensures
            self.told_by(now, r@),
    {
        let mut out: Vec<(&'static str, String)> = Vec::new();
        out.push(("X-RateLimit-Limit", decimal_text(self.limit)));
        out.push(("X-RateLimit-Remaining", decimal_text(self.remaining)));
        out.push(("X-RateLimit-Reset", decimal_text(self.secs_to_reset(now))));
        out
    }

    /// Standard rate limit headers, as name and value: `X-RateLimit-Limit`,
    /// `X-RateLimit-Remaining` and `X-RateLimit-Reset`, the last in seconds
    /// from now.
    pub fn headers(&self) -> (r: Vec<(&'static str, String)>)
        ensures
            exists|now: Instant| self.told_by(now, r@),
    {
        let now: Instant = Instant::now();
        self.headers_at(now)
    }
}

/// A reset is told in the whole seconds of the span that it is away: one that is
/// `nanos` nanoseconds after `now` is told at `now` as that many nanoseconds, in
/// whole seconds. Holds as long as the clock reaches that far.
pub proof fn law_reset_is_told_in_whole_seconds(
    result: RateLimitResult,
    now: Instant,
    nanos: nat,
    headers: Seq<(&str, String)>,
)
    requires
        clock::is_deadline(result.reset_at, now, nanos),
        clock::instant_plus(now, nanos) is Some,
        result.told_by(now, headers),
    ensures
        headers[2].0@ == "X-RateLimit-Reset"@,
        headers[2].1@ == text::decimal(nanos / (NANOS_PER_SEC as nat)),
{
}

/// The three headers tell the limit, what remains and the whole seconds until
/// the reset, in decimal.
pub proof fn law_headers_in_full(
    result: RateLimitResult,
    now: Instant,
    headers: Seq<(&str, String)>,
)
    requires
        result.told_by(now, headers),
    ensures
        headers.len() == 3,
        headers[0].0@ == "X-RateLimit-Limit"@,
        text::number(headers[0].1@, 10) == result.limit,
        headers[0].1@ == text::numeral(result.limit as nat, 10),
        headers[1].0@ == "X-RateLimit-Remaining"@,
        text::number(headers[1].1@, 10) == result.remaining,
        headers[1].1@ == text::numeral(result.remaining as nat, 10),
        headers[2].0@ == "X-RateLimit-Reset"@,
        text::number(headers[2].1@, 10) == clock::nanos_between(result.reset_at, now)
            / 1_000_000_000,
        headers[2].1@ == text::numeral(
            clock::nanos_between(result.reset_at, now) / 1_000_000_000,
            10,
        ),
{
    text::lemma_numeral(result.limit as nat, 10);
    text::lemma_numeral(result.remaining as nat, 10);
    text::lemma_numeral(result.reset_secs(now), 10);
}

} // verus!
