//! Quotas: how often, and how many at once.
use std::time::Duration;
use vstd::prelude::*;

use crate::clock;
use crate::clock::{NANOS_PER_MILLI, NANOS_PER_SEC, SECS_END};

verus! {

/// A rate limit quota: a minimum interval between requests, and a burst.
#[derive(Debug, Clone, Copy)]
pub struct Quota {
    /// Minimum interval between allowed requests.
    pub interval: Duration,
    /// Maximum burst size.
    pub burst: u32,
}

/// A quotient rounded to the nearest whole number, to the even one where two
/// are equally near.
pub open spec fn nearest(num: nat, den: nat) -> nat {
    let q = num / den;
    let r = num % den;
    if 2 * r > den || (2 * r == den && q % 2 == 1) {
        q + 1
    } else {
        q
    }
}

/// The number of binary places at which a quotient has 53 significant bits,
/// counting up from `places`.
pub open spec fn binary_places(num: nat, den: nat, places: nat) -> nat
    decreases 96 - places,
{
    if places >= 96 || num * vstd::arithmetic::power2::pow2(places) >= den
        * vstd::arithmetic::power2::pow2(52) {
        places
    } else {
        binary_places(num, den, places + 1)
    }
}

/// The interval in nanoseconds of `n` requests per `unit` seconds: the
/// quotient in double precision (53 significant bits), to the nearest
/// nanosecond.
pub open spec fn interval_nanos(unit: nat, n: nat) -> nat {
    let places = binary_places(unit, n, 0);
    let scale = vstd::arithmetic::power2::pow2(places);
    nearest(nearest(unit * scale, n) * (NANOS_PER_SEC as nat), scale)
}

/// Divides and rounds to the nearest whole number.
fn divide_nearest(num: u128, den: u128) -> (r: u128)
    requires
        0 < den < 0x1000_0000_0000_0000_0000_0000,
        num < 0x1000_0000_0000_0000_0000_0000_0000_0000,
    ensures
        r == nearest(num as nat, den as nat),
        r <= num / den + 1,
{
    let q: u128 = num / den;
    let r: u128 = num % den;
    proof {
        vstd::arithmetic::div_mod::lemma_mod_bound(num as int, den as int);
        assert(q <= num) by (nonlinear_arith)
            requires
                q == num / den,
                den > 0,
        ;
    }
    if 2 * r > den || (2 * r == den && q % 2 == 1) {
        q + 1
    } else {
        q
    }
}

proof fn lemma_places_step(num: nat, den: nat, places: nat)
    requires
        places < 96,
        num * vstd::arithmetic::power2::pow2(places) < den * vstd::arithmetic::power2::pow2(52),
    ensures
        binary_places(num, den, places) == binary_places(num, den, places + 1),
{
}

proof fn lemma_few_places(places: nat)
    requires
        vstd::arithmetic::power2::pow2(places) < 0x10_0000_0000_0000_0000_0000,
    ensures
        places < 84,
{
    assert(vstd::arithmetic::power2::pow2(84) == 0x10_0000_0000_0000_0000_0000) by {
        vstd::arithmetic::power2::lemma2_to64();
        vstd::arithmetic::power2::lemma2_to64_rest();
        vstd::arithmetic::power2::lemma_pow2_adds(64, 20);
    }
    if places > 84 {
        vstd::arithmetic::power2::lemma_pow2_strictly_increases(84, places);
    }
}

/// The interval of `n` requests per `unit` seconds.
fn interval_of(unit: u32, n: u32) -> (r: Duration)
    requires
        1 <= unit <= 3600,
        n >= 1,
    ensures
        clock::duration_nanos(r) == interval_nanos(unit as nat, n as nat),
{
    let goal: u128 = n as u128 * 0x10_0000_0000_0000;
    proof {
        vstd::arithmetic::power2::lemma2_to64();
        vstd::arithmetic::power2::lemma2_to64_rest();
    }
    let mut scaled: u128 = unit as u128;
    let mut scale: u128 = 1;
    let ghost mut places: nat = 0;
    while scaled < goal
        invariant
            1 <= unit <= 3600,
            n >= 1,
            goal == n * 0x10_0000_0000_0000,
            0x10_0000_0000_0000 == vstd::arithmetic::power2::pow2(52),
            scale == vstd::arithmetic::power2::pow2(places),
            scaled == unit * scale,
            1 <= scale <= scaled < 2 * goal,
            binary_places(unit as nat, n as nat, 0) == binary_places(
                unit as nat,
                n as nat,
                places,
            ),
        decreases 2 * goal - scaled,
    {
        proof {
            lemma_few_places(places);
            lemma_places_step(unit as nat, n as nat, places);
            vstd::arithmetic::power2::lemma_pow2_unfold(places + 1);
            assert(unit * (2 * scale) == 2 * (unit * scale)) by (nonlinear_arith);
            places = places + 1;
        }
        scaled = scaled * 2;
        scale = scale * 2;
    }
    proof {
        assert(scaled / (n as u128) < 0x20_0000_0000_0000) by (nonlinear_arith)
            requires
                scaled < 2 * (n * 0x10_0000_0000_0000),
                n >= 1,
        ;
    }
    let significant: u128 = divide_nearest(scaled, n as u128);
    let nanos: u128 = divide_nearest(significant * NANOS_PER_SEC, scale);
    proof {
        assert(nanos <= significant * NANOS_PER_SEC + 1) by (nonlinear_arith)
            requires
                nanos <= (significant * NANOS_PER_SEC) / (scale as int) + 1,
                scale >= 1,
        ;
    }
    clock::span_of(nanos)
}

proof fn lemma_nearest_is_near(num: nat, den: nat)
    requires
        den > 0,
    ensures
        -(den as int) <= 2 * (nearest(num, den) * den - num) <= den,
{
    vstd::arithmetic::div_mod::lemma_fundamental_div_mod(num as int, den as int);
    vstd::arithmetic::div_mod::lemma_mod_bound(num as int, den as int);
    let q = num as int / den as int;
    assert((q + 1) * den == q * den + den) by (nonlinear_arith);
    assert(q * den == den * q) by (nonlinear_arith);
}

proof fn lemma_places_reach(num: nat, den: nat, places: nat)
    requires
        num >= 1,
        den < 0x1_0000_0000,
        places <= 96,
    ensures
        num * vstd::arithmetic::power2::pow2(binary_places(num, den, places)) >= den
            * vstd::arithmetic::power2::pow2(52),
    decreases 96 - places,
{
    if places < 96 && num * vstd::arithmetic::power2::pow2(places) < den
        * vstd::arithmetic::power2::pow2(52) {
        lemma_places_reach(num, den, places + 1);
    } else if places == 96 {
        vstd::arithmetic::power2::lemma2_to64();
        vstd::arithmetic::power2::lemma2_to64_rest();
        vstd::arithmetic::power2::lemma_pow2_adds(64, 32);
        let top = vstd::arithmetic::power2::pow2(96);
        assert(num * top >= top) by (nonlinear_arith)
            requires
                num >= 1,
        ;
    }
}

/// An interval is right to the nanosecond: no whole number of nanoseconds is
/// nearer to `unit` seconds divided by `n`. Below two requests per nanosecond
/// it is not zero.
pub proof fn law_interval_is_nearest(unit: u32, n: u32)
    requires
        1 <= unit <= 3600,
        n >= 1,
    ensures
        ({
            let nanos = interval_nanos(unit as nat, n as nat);
            &&& -(n as int) <= 2 * (nanos * n - unit * NANOS_PER_SEC) <= n
            &&& n < 2 * unit * NANOS_PER_SEC ==> nanos >= 1
        }),
{
    let places = binary_places(unit as nat, n as nat, 0);
    let scale = vstd::arithmetic::power2::pow2(places);
    vstd::arithmetic::power2::lemma_pow2_pos(places);
    lemma_places_reach(unit as nat, n as nat, 0);
    vstd::arithmetic::power2::lemma2_to64();
    vstd::arithmetic::power2::lemma2_to64_rest();
    let bits = nearest(unit as nat * scale, n as nat);
    let nanos = interval_nanos(unit as nat, n as nat);
    lemma_nearest_is_near(unit as nat * scale, n as nat);
    lemma_nearest_is_near(bits * (NANOS_PER_SEC as nat), scale);
    let first = 2 * (bits * n - unit * scale);
    let second = 2 * (nanos * scale - bits * 1_000_000_000);
    let s = scale as int;
    let exact = 2 * (nanos * n - unit * 1_000_000_000);
    assert(exact * s == second * n + first * 1_000_000_000) by (nonlinear_arith)
        requires
            first == 2 * (bits * n - unit * s),
            second == 2 * (nanos * s - bits * 1_000_000_000),
            exact == 2 * (nanos * n - unit * 1_000_000_000),
    ;
    assert(n * 1_000_000_000 < s) by (nonlinear_arith)
        requires
            unit * s >= n * 0x10_0000_0000_0000,
            unit <= 3600,
            s > 0,
            n >= 1,
    ;
    assert(-(n * s) <= second * n <= n * s) by (nonlinear_arith)
        requires
            -s <= second <= s,
            n >= 1,
    ;
    assert(-(n as int) <= exact <= n) by (nonlinear_arith)
        requires
            exact * s == second * n + first * 1_000_000_000,
            -(n * s) <= second * n <= n * s,
            -(n as int) <= first <= n,
            n * 1_000_000_000 < s,
            n >= 1,
    ;
}

impl Quota {
    /// The minimum interval between requests.
    pub open spec fn span(&self) -> Duration {
        self.interval
    }

    /// The minimum interval between requests, in nanoseconds.
    pub open spec fn period(&self) -> nat {
        clock::duration_nanos(self.span())
    }

    /// The minimum interval between requests, in whole milliseconds of the
    /// width that the clock is kept in.
    pub open spec fn period_millis(&self) -> u64 {
        clock::whole_millis(self.period())
    }

    /// Allows `n` requests per second.
    pub fn per_second(n: u32) -> (r: Self)
        requires
            n >= 1,
        ensures
            r.burst == n,
            r.period() == interval_nanos(1, n as nat),
            -(n as int) <= 2 * (clock::duration_nanos(r.interval) * n - 1_000_000_000) <= n,
    {
        proof {
            law_interval_is_nearest(1, n);
        }
        Self { interval: interval_of(1, n), burst: n }
    }

    /// Allows `n` requests per minute.
    pub fn per_minute(n: u32) -> (r: Self)
        requires
            n >= 1,
        ensures
            r.burst == n,
            r.period() == interval_nanos(60, n as nat),
            -(n as int) <= 2 * (clock::duration_nanos(r.interval) * n - 60_000_000_000) <= n,
    {
        proof {
            law_interval_is_nearest(60, n);
        }
        Self { interval: interval_of(60, n), burst: n }
    }

    /// Allows `n` requests per hour.
    pub fn per_hour(n: u32) -> (r: Self)
        requires
            n >= 1,
        ensures
            r.burst == n,
            r.period() == interval_nanos(3600, n as nat),
            -(n as int) <= 2 * (clock::duration_nanos(r.interval) * n - 3600_000_000_000) <= n,
    {
        proof {
            law_interval_is_nearest(3600, n);
        }
        Self { interval: interval_of(3600, n), burst: n }
    }

    /// Overrides the burst capacity.
    pub fn allow_burst(self, burst: u32) -> (r: Self)
        ensures
            r.burst == burst,
            r.interval == self.interval,
            r.span() == self.span(),
    {
        Self { interval: self.interval, burst }
    }

    /// A quota with this minimum interval between requests and this many in
    /// rapid succession.
    pub fn from_parts(interval: Duration, burst: u32) -> (r: Self)
        ensures
            r.span() == interval,
            r.interval == interval,
            r.burst == burst,
    {
        Self { interval, burst }
    }

    /// The minimum interval between requests.
    pub fn interval(&self) -> (r: Duration)
        ensures
            r == self.span(),
            r == self.interval,
    {
        self.interval
    }

    /// The minimum interval in whole milliseconds.
    pub fn interval_millis(&self) -> (r: u64)
        ensures
            r == self.period_millis(),
            clock::duration_nanos(self.interval) < 0x1_0000_0000_0000_0000 * 1_000_000 ==> r
                * 1_000_000 <= clock::duration_nanos(self.interval) < (r + 1) * 1_000_000,
    {
        proof {
            if clock::duration_nanos(self.interval) < 0x1_0000_0000_0000_0000 * 1_000_000 {
                law_millis_are_whole(*self);
            }
        }
        let millis: u128 = self.interval.as_nanos() / NANOS_PER_MILLI;
        (millis % SECS_END) as u64
    }
}

/// The milliseconds of an interval are the whole ones in it, as long as they fit
/// the clock.
pub proof fn law_millis_are_whole(quota: Quota)
    requires
        clock::duration_nanos(quota.interval) < 0x1_0000_0000_0000_0000 * 1_000_000,
    ensures
        quota.period_millis() * 1_000_000 <= clock::duration_nanos(quota.interval) < (
        quota.period_millis() + 1) * 1_000_000,
{
    let p = clock::duration_nanos(quota.interval);
    assert(p / 1_000_000 < 0x1_0000_0000_0000_0000);
}

} // verus!
