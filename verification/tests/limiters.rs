//! Limiters over a backend.

use std::time::Duration;

use throttle_kit::{InMemoryBackend, KeyedRateLimiter, NoopBackend, Quota, RateLimiter};

fn backend() -> InMemoryBackend {
    InMemoryBackend::new()
}

fn sleep(span: Duration) {
    tokio::runtime::Builder::new_current_thread()
        .enable_time()
        .build()
        .unwrap()
        .block_on(async move { tokio::time::sleep(span).await });
}

#[test]
fn first_request_is_allowed() {
    let mut limiter = RateLimiter::new(Quota::per_second(10), backend());
    let result = limiter.check("user-1");
    assert!(result.allowed);
    // The number of conforming requests visible right now, which is 1 for a
    // fresh key.
    assert_eq!(result.remaining, 1);
    assert_eq!(result.limit, 10);
    assert!(result.retry_after.is_none());
}

#[test]
fn rate_limit_exhaustion() {
    let mut limiter = RateLimiter::new(Quota::per_second(2), backend());
    let r1 = limiter.check("user-1");
    assert!(r1.allowed);
    let r2 = limiter.check("user-1");
    assert!(r2.allowed);
    let r3 = limiter.check("user-1");
    assert!(!r3.allowed);
    assert!(r3.retry_after.is_some());
}

#[test]
fn keyed_limiter_default_quota() {
    let mut limiter = KeyedRateLimiter::new(Quota::per_second(5), backend());

    let r = limiter.check("client-1");
    assert!(r.allowed);
    assert_eq!(r.limit, 5);
}

#[test]
fn keyed_limiter_custom_quota_per_key() {
    let mut limiter = KeyedRateLimiter::new(Quota::per_second(100), backend());

    // Tighter limit for login
    limiter.with_quota_for_key("login", Quota::per_second(2));

    let r_login = limiter.check("login");
    assert!(r_login.allowed);
    assert_eq!(r_login.limit, 2);

    let r_api = limiter.check("api");
    assert!(r_api.allowed);
    assert_eq!(r_api.limit, 100);
}

#[test]
fn keyed_limiter_isolation() {
    let mut limiter = KeyedRateLimiter::new(Quota::per_second(1), backend());

    let r1 = limiter.check("a");
    assert!(r1.allowed);

    // "a" is exhausted but "b" should be fine
    let r1_again = limiter.check("a");
    assert!(!r1_again.allowed);

    let r2 = limiter.check("b");
    assert!(r2.allowed);
}

#[test]
fn keyed_limiter_sync_check() {
    let mut limiter = KeyedRateLimiter::new(Quota::per_second(10), backend());

    let r = limiter.check_sync("client-1");
    assert!(r.allowed);
    assert_eq!(r.limit, 10);
}

#[test]
fn keyed_limiter_headers() {
    let mut limiter = KeyedRateLimiter::new(Quota::per_second(10), backend());

    let r = limiter.check("client-1");
    let headers = r.headers();
    assert!(headers.iter().any(|(k, _)| *k == "X-RateLimit-Limit"));
    assert!(headers
        .iter()
        .any(|(k, v)| *k == "X-RateLimit-Remaining" && v == "1"));
}

#[test]
fn sync_check_basic() {
    let mut limiter = RateLimiter::new(Quota::per_second(10), backend());
    let r = limiter.check_sync("user-1");
    assert!(r.allowed);
}

#[test]
fn backend_exhausts_quota() {
    let mut limiter = RateLimiter::new(Quota::per_second(3), backend());

    let r1 = limiter.check("user");
    assert!(r1.allowed);

    let r2 = limiter.check("user");
    assert!(r2.allowed);

    let r3 = limiter.check("user");
    assert!(r3.allowed);

    let r4 = limiter.check("user");
    assert!(!r4.allowed);
    assert!(r4.retry_after.is_some());
    assert_eq!(r4.remaining, 0);
}

#[test]
fn backend_keys_are_isolated() {
    let mut limiter = RateLimiter::new(Quota::per_second(1), backend());

    let r_a = limiter.check("a");
    assert!(r_a.allowed);

    // "a" is now exhausted
    let r_a2 = limiter.check("a");
    assert!(!r_a2.allowed);

    // "b" should still be allowed
    let r_b = limiter.check("b");
    assert!(r_b.allowed);
}

#[test]
fn sync_check_exhaustion() {
    let mut limiter = RateLimiter::new(Quota::per_second(2), backend());

    let _ = limiter.check_sync("k");
    let _ = limiter.check_sync("k");
    let r = limiter.check_sync("k");
    assert!(!r.allowed);
}

#[test]
fn per_minute_quota_works() {
    let mut limiter = RateLimiter::new(Quota::per_minute(100), backend());

    let r = limiter.check("user");
    assert!(r.allowed);
    assert_eq!(r.limit, 100);
}

#[test]
fn knob_quota_interval_governs_recovery() {
    // 1/second, burst 1: the second immediate check is denied with a
    // retry hint...
    let mut strict = RateLimiter::new(Quota::per_second(1).allow_burst(1), backend());
    assert!(strict.check("k").allowed);
    let denied = strict.check("k");
    assert!(!denied.allowed, "burst exhausted: second check must deny");
    assert!(
        denied.retry_after.is_some(),
        "denial must carry a retry_after hint"
    );

    // ...while a 1 ms interval recovers after a short sleep.
    let mut fast = RateLimiter::new(Quota::from_parts(Duration::from_millis(1), 1), backend());
    assert!(fast.check("k").allowed);
    assert!(!fast.check("k").allowed);
    sleep(Duration::from_millis(20));
    assert!(
        fast.check("k").allowed,
        "interval expiry must restore the budget"
    );
}

#[test]
fn knob_burst_sets_rapid_budget() {
    let mut one = RateLimiter::new(Quota::per_second(1).allow_burst(1), backend());
    assert!(one.check("k").allowed);
    assert!(!one.check("k").allowed, "burst=1 allows one rapid check");

    let mut three = RateLimiter::new(Quota::per_second(1).allow_burst(3), backend());
    for _ in 0..3 {
        assert!(three.check("k").allowed);
    }
    assert!(!three.check("k").allowed, "burst=3 allows three");
}

#[test]
fn knob_per_key_override_beats_default_quota() {
    let mut limiter = KeyedRateLimiter::new(Quota::per_second(1).allow_burst(1), backend());
    limiter.with_quota_for_key("vip", Quota::per_second(100).allow_burst(100));
    assert!(limiter.check("ordinary").allowed);
    assert!(!limiter.check("ordinary").allowed);
    for _ in 0..10 {
        assert!(
            limiter.check("vip").allowed,
            "per-key override must lift the VIP budget"
        );
    }
}

#[test]
fn a_later_override_replaces_an_earlier_one() {
    let mut limiter = KeyedRateLimiter::new(Quota::per_second(7), NoopBackend);
    limiter.with_quota_for_key("k", Quota::per_second(2));
    assert_eq!(limiter.check("k").limit, 2);
    limiter.with_quota_for_key("k", Quota::per_second(3));
    assert_eq!(limiter.check("k").limit, 3);
    assert_eq!(limiter.check("K").limit, 7);
    // The state of a key survives a change of its quota.
    let mut strict = KeyedRateLimiter::new(Quota::per_hour(1), backend());
    assert!(strict.check("k").allowed);
    strict.with_quota_for_key("k", Quota::per_hour(1));
    assert!(!strict.check("k").allowed);
}
