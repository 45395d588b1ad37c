//! What the decision core promises over many requests.
use vstd::prelude::*;

use crate::gcra;

verus! {

/// The stored arrival time after one request at each of `times`, in order.
pub open spec fn tac_after(tac: int, times: Seq<u64>, interval: int, burst: int) -> int
    decreases times.len(),
{
    if times.len() == 0 {
        tac
    } else {
        gcra::advanced(
            times.last() as int,
            tac_after(tac, times.drop_last(), interval, burst),
            interval,
            burst,
        )
    }
}

/// How many of the requests made at `times`, in order, are allowed.
pub open spec fn admitted(tac: int, times: Seq<u64>, interval: int, burst: int) -> nat
    decreases times.len(),
{
    if times.len() == 0 {
        0
    } else {
        let before = tac_after(tac, times.drop_last(), interval, burst);
        let counted: nat = if gcra::conforms(times.last() as int, before, interval, burst) {
            1
        } else {
            0
        };
        admitted(tac, times.drop_last(), interval, burst) + counted
    }
}

/// A clock that does not run backwards.
pub open spec fn in_time_order(times: Seq<u64>) -> bool {
    forall|i: int, j: int| 0 <= i <= j < times.len() ==> times[i] <= times[j]
}

/// The same moment, `n` times over.
pub open spec fn all_at(now: u64, n: nat) -> Seq<u64> {
    Seq::new(n, |i: int| now)
}

/// A decision is consistent: a request is allowed exactly when nothing is left
/// to wait for; an allowed request reports between one and `burst` intervals
/// in use, a denied one reports none.
pub proof fn law_decision_is_consistent(now: u64, tac: u64, interval: u64, burst: u64)
    ensures
        ({
            let (allowed, wait, remaining) = gcra::decision(
                now as int,
                tac as int,
                interval as int,
                burst as int,
            );
            &&& allowed <==> wait == 0
            &&& 0 <= wait <= u64::MAX
            &&& 0 <= remaining <= burst
            &&& allowed ==> remaining >= 1
            &&& !allowed ==> wait >= 1 && remaining == 0
        }),
{
    let e = gcra::emission(interval as int);
    let used = gcra::next_arrival(now as int, tac as int, interval as int) - now;
    assert(used >= e >= 1);
    assert(used / e >= 1) by (nonlinear_arith)
        requires
            used >= e >= 1,
    ;
    if burst == 0 {
        assert(e * (burst as int) == 0) by (nonlinear_arith)
            requires
                burst == 0,
        ;
    }
}

/// The decision is that of the textbook: with `new_tat` the arrival time once the
/// request is counted and `allow_at` that time less a full burst, a request is
/// allowed from `allow_at` on and otherwise waits for it. The count is then
/// within the burst by itself.
pub proof fn law_decision_is_the_textbook(now: u64, tac: u64, interval: u64, burst: u64)
    requires
        interval >= 1,
    ensures
        ({
            let new_tat = gcra::later(tac as int, now as int) + interval;
            let allow_at = new_tat - interval * burst;
            gcra::decision(now as int, tac as int, interval as int, burst as int) == if now
                >= allow_at {
                (true, 0int, (new_tat - now) / (interval as int))
            } else {
                (false, gcra::lesser(allow_at - now, u64::MAX as int), 0int)
            }
        }),
{
    let used = gcra::later(tac as int, now as int) + interval - now;
    if used <= interval * burst {
        assert(used / (interval as int) <= burst) by (nonlinear_arith)
            requires
                used <= interval * burst,
                interval >= 1,
        ;
    }
}

/// What is left in the bucket of a key at `now`, where a full one holds `burst`
/// intervals and a request takes one.
pub open spec fn level(now: int, tac: int, interval: int, burst: int) -> int {
    gcra::emission(interval) * burst - gcra::later(tac - now, 0)
}

/// A key is a token bucket: a request is allowed where the bucket holds an
/// interval's worth, an allowed request takes that much and a denied one
/// nothing, and the bucket fills up with time until it is full.
///
/// The time that an allowed request stores is not beyond the largest one.
pub proof fn law_key_is_a_token_bucket(now: u64, tac: u64, interval: u64, burst: u64, delay: u64)
    requires
        gcra::conforms(now as int, tac as int, interval as int, burst as int)
            ==> gcra::next_arrival(now as int, tac as int, interval as int) <= u64::MAX,
    ensures
        ({
            let e = gcra::emission(interval as int);
            let held = level(now as int, tac as int, interval as int, burst as int);
            let after = gcra::advanced(now as int, tac as int, interval as int, burst as int);
            let allowed = gcra::conforms(now as int, tac as int, interval as int, burst as int);
            &&& allowed <==> held >= e
            &&& level(now as int, after, interval as int, burst as int) == if allowed {
                held - e
            } else {
                held
            }
            &&& level(now + delay, tac as int, interval as int, burst as int) == gcra::lesser(
                held + delay,
                e * burst,
            )
        }),
{
}

/// With no burst at all nothing conforms, whatever the time.
pub proof fn law_zero_burst_never_conforms(now: u64, tac: u64, interval: u64)
    ensures
        !gcra::conforms(now as int, tac as int, interval as int, 0),
{
    assert(gcra::emission(interval as int) * 0 == 0) by (nonlinear_arith);
}

/// The reported wait is exact: the same request made that much later conforms,
/// and made any earlier it does not. Holds for every quota with a burst.
pub proof fn law_retry_after_is_exact(now: u64, tac: u64, interval: u64, burst: u64, delay: u64)
    requires
        burst >= 1,
        !gcra::conforms(now as int, tac as int, interval as int, burst as int),
        now + delay <= u64::MAX,
    ensures
        gcra::conforms(now + delay, tac as int, interval as int, burst as int) <==> delay
            >= gcra::decision(now as int, tac as int, interval as int, burst as int).1,
        now + gcra::decision(now as int, tac as int, interval as int, burst as int).1 <= tac,
{
    let e = gcra::emission(interval as int);
    assert(e * (burst as int) >= e) by (nonlinear_arith)
        requires
            e >= 1,
            burst >= 1,
    ;
}

/// The arrival time never runs more than `burst` intervals ahead of the clock
/// on account of an allowed request, and never moves back.
pub proof fn law_arrival_time_is_bounded(now: u64, tac: u64, interval: u64, burst: u64)
    ensures
        tac <= gcra::advanced(now as int, tac as int, interval as int, burst as int) <= gcra::later(
            tac as int,
            now + gcra::emission(interval as int) * burst,
        ),
{
    assert(gcra::emission(interval as int) * (burst as int) >= 0) by (nonlinear_arith)
        requires
            gcra::emission(interval as int) >= 1,
            burst >= 0,
    ;
}

/// One interval of real time restores one request: a key whose arrival time is
/// at most `burst` intervals ahead conforms again one interval later.
pub proof fn law_one_interval_restores_one_request(
    now: u64,
    tac: u64,
    interval: u64,
    burst: u64,
)
    requires
        burst >= 1,
        tac <= now + gcra::emission(interval as int) * burst,
    ensures
        gcra::conforms(
            now + gcra::emission(interval as int),
            tac as int,
            interval as int,
            burst as int,
        ),
{
    let e = gcra::emission(interval as int);
    assert(e * (burst as int) >= e) by (nonlinear_arith)
        requires
            e >= 1,
            burst >= 1,
    ;
}

proof fn lemma_tac_never_moves_back(tac: u64, times: Seq<u64>, interval: u64, burst: u64)
    ensures
        tac <= tac_after(tac as int, times, interval as int, burst as int) <= u64::MAX,
        times.len() > 0 ==> tac_after(
            tac as int,
            times.drop_last(),
            interval as int,
            burst as int,
        ) <= tac_after(tac as int, times, interval as int, burst as int),
    decreases times.len(),
{
    if times.len() > 0 {
        lemma_tac_never_moves_back(tac, times.drop_last(), interval, burst);
        let before = tac_after(tac as int, times.drop_last(), interval as int, burst as int);
        law_arrival_time_is_bounded(times.last(), before as u64, interval, burst);
    }
}

proof fn lemma_admitted_bounds(tac: u64, times: Seq<u64>, interval: u64, burst: u64)
    requires
        times.len() > 0,
        in_time_order(times),
        tac_after(tac as int, times, interval as int, burst as int) < u64::MAX,
    ensures
        ({
            let e = gcra::emission(interval as int);
            let k = admitted(tac as int, times, interval as int, burst as int);
            let after = tac_after(tac as int, times, interval as int, burst as int);
            k > 0 ==> times[0] + k * e <= after <= times.last() + e * burst
        }),
    decreases times.len(),
{
    let e = gcra::emission(interval as int);
    let prior = times.drop_last();
    let now = times.last() as int;
    let k0 = admitted(tac as int, prior, interval as int, burst as int);
    lemma_tac_never_moves_back(tac, times, interval, burst);
    if prior.len() > 0 {
        assert(prior.last() <= times.last());
        lemma_admitted_bounds(tac, prior, interval, burst);
        assert(prior[0] == times[0]);
    }
    assert(times[0] <= now);
    assert((k0 + 1) * e == k0 * e + e) by (nonlinear_arith);
    assert(k0 == 0 ==> k0 * e == 0);
}

/// The limit is enforced: however the requests of a key are spaced, and
/// whatever its earlier history, over a stretch of time no more than `burst`
/// of them are allowed beyond one per interval elapsed.
///
/// The stored time has not reached the largest one before the last request.
pub proof fn law_rate_is_enforced(tac: u64, times: Seq<u64>, interval: u64, burst: u64)
    requires
        times.len() > 0,
        in_time_order(times),
        times.len() > 1 ==> tac_after(
            tac as int,
            times.drop_last(),
            interval as int,
            burst as int,
        ) < u64::MAX,
    ensures
        admitted(tac as int, times, interval as int, burst as int) <= burst + (times.last()
            - times[0]) / gcra::emission(interval as int),
{
    let e = gcra::emission(interval as int);
    let prior = times.drop_last();
    let k0 = admitted(tac as int, prior, interval as int, burst as int) as int;
    let k = admitted(tac as int, times, interval as int, burst as int) as int;
    let stretch = times.last() - times[0];
    assert(times[0] <= times.last());
    if prior.len() > 0 {
        lemma_admitted_bounds(tac, prior, interval, burst);
        assert(prior[0] == times[0]);
        assert(prior.last() <= times.last());
    }
    assert((k0 + 1) * e == k0 * e + e) by (nonlinear_arith);
    assert(k0 == 0 ==> k0 * e == 0);
    if k == 0 {
        assert(stretch / e >= 0) by (nonlinear_arith)
            requires
                stretch >= 0,
                e >= 1,
        ;
    } else {
        assert(k <= burst + stretch / e) by (nonlinear_arith)
            requires
                k * e <= stretch + e * burst,
                stretch >= 0,
                e >= 1,
        ;
    }
}

/// A full budget is exactly `burst` requests: for a key whose bucket has
/// drained, of requests made at one moment the first `burst` are allowed, with
/// a count that goes up by one each time, and every later one is denied.
pub proof fn law_burst_admits_exactly(tac: u64, now: u64, interval: u64, burst: u64, n: nat)
    requires
        tac <= now,
        now + gcra::lesser(n as int, burst as int) * gcra::emission(interval as int) <= u64::MAX,
    ensures
        ({
            let before = tac_after(tac as int, all_at(now, n), interval as int, burst as int);
            let next = gcra::decision(now as int, before, interval as int, burst as int);
            &&& admitted(tac as int, all_at(now, n), interval as int, burst as int) == gcra::lesser(
                n as int,
                burst as int,
            )
            &&& next.0 <==> n < burst
            &&& n < burst ==> next.2 == n + 1
        }),
    decreases n,
{
    lemma_burst_state(tac, now, interval, burst, n);
    let e = gcra::emission(interval as int);
    let before = tac_after(tac as int, all_at(now, n), interval as int, burst as int);
    let used = if n < burst {
        n as int
    } else {
        burst as int
    };
    assert(gcra::later(before, now as int) == now + used * e);
    assert((used + 1) * e == used * e + e) by (nonlinear_arith);
    assert(used + 1 <= burst ==> (used + 1) * e <= e * burst) by (nonlinear_arith)
        requires
            e >= 1,
    ;
    assert(used == burst ==> used * e == e * burst) by (nonlinear_arith);
    assert(((used + 1) * e) / e == used + 1) by (nonlinear_arith)
        requires
            e >= 1,
    ;
}

proof fn lemma_burst_state(tac: u64, now: u64, interval: u64, burst: u64, n: nat)
    requires
        tac <= now,
        now + gcra::lesser(n as int, burst as int) * gcra::emission(interval as int) <= u64::MAX,
    ensures
        gcra::later(
            tac_after(tac as int, all_at(now, n), interval as int, burst as int),
            now as int,
        ) == now + gcra::lesser(n as int, burst as int) * gcra::emission(interval as int),
        admitted(tac as int, all_at(now, n), interval as int, burst as int) == gcra::lesser(
            n as int,
            burst as int,
        ),
    decreases n,
{
    let e = gcra::emission(interval as int);
    if n > 0 {
        let m = (n - 1) as nat;
        assert(all_at(now, n).drop_last() =~= all_at(now, m));
        let fewer = gcra::lesser(m as int, burst as int);
        let more = gcra::lesser(n as int, burst as int);
        assert(fewer * e <= more * e) by (nonlinear_arith)
            requires
                fewer <= more,
                e >= 1,
        ;
        lemma_burst_state(tac, now, interval, burst, m);
        let used = gcra::lesser(m as int, burst as int);
        assert((used + 1) * e == used * e + e) by (nonlinear_arith);
        assert(used + 1 <= burst ==> (used + 1) * e <= e * burst) by (nonlinear_arith)
            requires
                e >= 1,
        ;
        assert(used == burst ==> used * e == e * burst) by (nonlinear_arith);
        assert(used * e >= 0) by (nonlinear_arith)
            requires
                e >= 1,
                used >= 0,
        ;
    } else {
        assert(0 * e == 0);
    }
}

/// One step of a key, for every input: with `full` the arrival time once the
/// request is counted, a request is allowed where `full` is at most `burst`
/// spacings ahead of the clock. It then tells the spacings ahead and stores
/// `full`; a denied one tells what is missing and stores nothing. A spacing of
/// zero counts as one, and what does not fit stops at the largest number.
pub proof fn law_step_in_full(now: u64, tac: u64, interval: u64, burst: u64)
    ensures
        ({
            let s: int = if interval == 0 {
                1
            } else {
                interval as int
            };
            let full: int = s + if tac >= now {
                tac
            } else {
                now
            };
            let missing: int = full - now - s * burst;
            &&& gcra::decision(now as int, tac as int, interval as int, burst as int) == if missing
                <= 0 {
                (true, 0int, (full - now) / s)
            } else if missing <= 0xffff_ffff_ffff_ffff {
                (false, missing, 0int)
            } else {
                (false, 0xffff_ffff_ffff_ffffint, 0int)
            }
            &&& gcra::advanced(now as int, tac as int, interval as int, burst as int) == if missing
                > 0 {
                tac as int
            } else if full <= 0xffff_ffff_ffff_ffff {
                full
            } else {
                0xffff_ffff_ffff_ffffint
            }
        }),
{
    let s: int = if interval == 0 {
        1
    } else {
        interval as int
    };
    let full: int = s + if tac >= now {
        tac
    } else {
        now
    };
    assert(s == gcra::emission(interval as int));
    if full - now <= s * burst {
        assert((full - now) / s <= burst) by (nonlinear_arith)
            requires
                full - now <= s * burst,
                s >= 1,
        ;
    }
}

} // verus!
