//! The decision core.

use throttle_kit::gcra::gcra_advance;
use throttle_kit::gcra_decide;

#[test]
fn gcra_decide_fresh_key_allows_with_one_interval_budget() {
    // Fresh key (tac == now): the request itself is conforming, and
    // exactly one further interval of budget is visible.
    let (allowed, retry_after, remaining) = gcra_decide(1_000, 1_000, 100, 10);
    assert!(allowed);
    assert_eq!(retry_after, 0);
    assert_eq!(remaining, 1);
}

#[test]
fn gcra_decide_burst_rapid_requests_then_deny() {
    // burst = 3: two more rapid requests conform after the first, the
    // fourth is denied with a positive retry_after and zero remaining.
    let (a1, r1, rem1) = gcra_decide(0, 0, 100, 3);
    assert!(a1 && r1 == 0 && rem1 == 1);
    let (a2, r2, rem2) = gcra_decide(0, 100, 100, 3);
    assert!(a2 && r2 == 0 && rem2 == 2);
    let (a3, r3, rem3) = gcra_decide(0, 200, 100, 3);
    assert!(a3 && r3 == 0 && rem3 == 3);
    let (a4, r4, rem4) = gcra_decide(0, 300, 100, 3);
    assert!(!a4 && r4 > 0 && rem4 == 0);
}

#[test]
fn gcra_decide_zero_burst_never_allows() {
    let (allowed, retry_after, remaining) = gcra_decide(1_000, 1_000, 100, 0);
    assert!(!allowed);
    assert!(retry_after >= 1);
    assert_eq!(remaining, 0);
}

#[test]
fn gcra_decide_zero_emission_is_clamped() {
    // Sub-millisecond quota: emission is clamped to 1 ms, no panic.
    let (allowed, retry_after, _remaining) = gcra_decide(5, 5, 0, 1);
    assert!(allowed);
    assert_eq!(retry_after, 0);
}

#[test]
fn gcra_decide_deny_with_now_greater_than_zero() {
    // new_tat = max(1300, 1000) + 100 = 1400, and the request conforms
    // only while new_tat <= now + emission * burst (1400 <= 1300 fails),
    // so retry_after must be exactly new_tat - now - emission * burst.
    let (allowed, retry_after, remaining) = gcra_decide(1_000, 1_300, 100, 3);
    assert!(!allowed);
    assert_eq!(retry_after, 100);
    assert_eq!(remaining, 0);
}

#[test]
fn gcra_decide_extreme_inputs_no_overflow() {
    // All-u64 extremes: must not overflow or panic.
    let (allowed, retry_after, remaining) = gcra_decide(0, u64::MAX, u64::MAX, u64::MAX);
    assert!(allowed);
    assert_eq!(retry_after, 0);
    assert_eq!(remaining, 2);

    // now == tac == u64::MAX, emission 1 ms, burst 2: conforms with
    // exactly one 1-ms interval of budget visible.
    let (allowed2, retry_after2, remaining2) = gcra_decide(u64::MAX, u64::MAX, 1, 2);
    assert!(allowed2);
    assert_eq!(retry_after2, 0);
    assert_eq!(remaining2, 1);
}

#[test]
fn decisions_match_the_textbook_on_small_inputs() {
    for now in 0..=16u64 {
        for tac in 0..=16u64 {
            for emission in 1..=4u64 {
                for burst in 0..=3u64 {
                    let new_tat = (tac as i64).max(now as i64) + emission as i64;
                    let allow_at = new_tat - (emission * burst) as i64;
                    let (allowed, wait, remaining) = gcra_decide(now, tac, emission, burst);
                    assert_eq!(allowed, now as i64 >= allow_at);
                    if allowed {
                        let visible = ((new_tat - now as i64) / emission as i64) as u64;
                        assert_eq!(remaining, visible.min(burst));
                        assert_eq!(wait, 0);
                    } else {
                        assert_eq!(wait, (allow_at - now as i64) as u64);
                        assert_eq!(remaining, 0);
                    }
                }
            }
        }
    }
}

#[test]
fn waits_that_do_not_fit_are_cut_off() {
    let (allowed, wait, remaining) = gcra_decide(0, u64::MAX, u64::MAX, 0);
    assert!(!allowed);
    assert_eq!(wait, u64::MAX);
    assert_eq!(remaining, 0);
}

#[test]
fn only_a_conforming_request_moves_the_arrival_time() {
    let mut tac: u64 = 0;
    assert_eq!(gcra_advance(&mut tac, 0, 100, 2), (true, 0, 1));
    assert_eq!(tac, 100);
    assert_eq!(gcra_advance(&mut tac, 0, 100, 2), (true, 0, 2));
    assert_eq!(tac, 200);
    assert_eq!(gcra_advance(&mut tac, 0, 100, 2), (false, 100, 0));
    assert_eq!(tac, 200);
    // An interval below a millisecond moves it by one.
    let mut fine: u64 = 7;
    assert_eq!(gcra_advance(&mut fine, 7, 0, 5), (true, 0, 1));
    assert_eq!(fine, 8);
    // It stops at the largest time.
    let mut last: u64 = u64::MAX;
    assert_eq!(gcra_advance(&mut last, u64::MAX, 10, 5), (true, 0, 1));
    assert_eq!(last, u64::MAX);
}

#[test]
fn the_reported_wait_is_exact() {
    let (now, tac, interval, burst) = (1_000u64, 1_950u64, 100u64, 5u64);
    let (allowed, wait, _) = gcra_decide(now, tac, interval, burst);
    assert!(!allowed);
    assert_eq!(wait, 550);
    assert!(!gcra_decide(now + wait - 1, tac, interval, burst).0);
    assert!(gcra_decide(now + wait, tac, interval, burst).0);
}

#[test]
fn the_rate_is_enforced_over_a_stretch_of_time() {
    // One request per millisecond for a second, ten per second, burst of four.
    let mut tac: u64 = 0;
    let mut allowed: u64 = 0;
    for now in 0..=1_000u64 {
        if gcra_advance(&mut tac, now, 100, 4).0 {
            allowed += 1;
        }
    }
    assert_eq!(allowed, 4 + 1_000 / 100);
}
