//! The backends in memory.

use std::time::{Duration, Instant};

use throttle_kit::{
    InMemoryBackend, NoopBackend, Quota, RateLimitBackend, SlidingWindowBackend,
};

fn sleep(span: Duration) {
    tokio::runtime::Builder::new_current_thread()
        .enable_time()
        .build()
        .unwrap()
        .block_on(async move { tokio::time::sleep(span).await });
}

#[test]
fn in_memory_backend_new() {
    let _ = InMemoryBackend::new();
}

#[test]
fn in_memory_backend_default() {
    let _ = InMemoryBackend::default();
}

#[test]
fn backend_new_and_default() {
    let _ = InMemoryBackend::new();
    let _ = InMemoryBackend::default();
}

#[test]
fn in_memory_backend_reallows_after_real_elapsed_time() {
    // The backend clock must advance with real time.
    let mut backend = InMemoryBackend::new();
    let quota = Quota::per_second(10); // 100 ms interval, burst 10

    // Ten rapid conforming requests exhaust the burst budget.
    for i in 1..=10u64 {
        let r = backend.check("clock", &quota);
        assert!(r.allowed);
        assert_eq!(r.remaining, i);
    }
    assert!(!backend.check("clock", &quota).allowed);

    sleep(Duration::from_millis(120));
    assert!(
        backend.check("clock", &quota).allowed,
        "key must re-conform after one full interval of real time"
    );
}

#[test]
fn in_memory_reset_at_is_in_the_future_when_allowed() {
    let mut backend = InMemoryBackend::new();
    let r = backend.check("reset", &Quota::per_second(10));
    assert!(r.allowed);
    assert!(
        r.reset_at > Instant::now(),
        "reset_at must be in the future for an allowed request"
    );
}

#[test]
fn warm_key_reset_at_derived_from_single_clock_read() {
    // reset_at is anchored to the check's own clock read: read_time +
    // interval, with read_time inside the call's wall window.
    let mut backend = InMemoryBackend::new();
    let quota = Quota::per_second(10); // 100 ms interval
    let before = Instant::now();
    let r = backend.check("clock-domain", &quota);
    let after = Instant::now();
    assert!(r.allowed);
    // The clock is read in whole milliseconds, so the deadline can sit up
    // to 1 ms earlier than the untruncated read.
    assert!(
        r.reset_at + Duration::from_millis(1) >= before + quota.interval(),
        "reset_at = clock_read + interval, read no earlier than `before`"
    );
    assert!(
        r.reset_at <= after + quota.interval(),
        "reset_at = clock_read + interval, read no later than `after`"
    );
}

#[test]
fn warm_and_cold_keys_are_counted_alike() {
    let mut backend = InMemoryBackend::new();
    let quota = Quota::per_second(10);
    for i in 1..=10u64 {
        let r = backend.check_at("hot", &quota, 5);
        assert!(r.allowed, "call {i} must conform");
        assert_eq!(r.remaining, i);
        assert_eq!(r.limit, 10);
        assert!(r.retry_after.is_none());
    }
    let denied = backend.check_at("hot", &quota, 5);
    assert!(!denied.allowed);
    assert_eq!(denied.remaining, 0);
    assert_eq!(denied.retry_after, Some(Duration::from_millis(100)));
    // A denied request leaves the budget as it is.
    assert!(!backend.check_at("hot", &quota, 104).allowed);
    assert!(backend.check_at("hot", &quota, 105).allowed);
}

#[test]
fn requests_for_other_keys_in_between_change_nothing() {
    let quota = Quota::per_second(5).allow_burst(3);
    let times = [0u64, 0, 1, 150, 199, 200, 201, 600, 600, 600, 600];
    let mut alone = InMemoryBackend::new();
    let mut crowded = InMemoryBackend::new();
    for (i, now) in times.iter().enumerate() {
        for other in 0..4 {
            crowded.check_at(&format!("other-{other}"), &quota, *now);
        }
        let a = alone.check_at("key", &quota, *now);
        let b = crowded.check_at("key", &quota, *now);
        assert_eq!(
            (a.allowed, a.remaining, a.retry_after),
            (b.allowed, b.remaining, b.retry_after),
            "request {i}"
        );
    }
}

#[test]
fn the_reset_of_a_denial_is_the_next_token() {
    let mut backend = InMemoryBackend::new();
    let quota = Quota::from_parts(Duration::from_millis(100), 1);
    let first = backend.check_at("k", &quota, 1000);
    assert!(first.allowed);
    let denied = backend.check_at("k", &quota, 1060);
    assert!(!denied.allowed);
    assert_eq!(denied.retry_after, Some(Duration::from_millis(40)));
    // Both are 1100 ms after the backend was made.
    assert_eq!(denied.reset_at, first.reset_at);
    assert!(!backend.check_at("k", &quota, 1099).allowed);
    assert!(backend.check_at("k", &quota, 1100).allowed);
}

#[test]
fn intervals_below_a_millisecond_count_as_one() {
    let mut backend = InMemoryBackend::new();
    let quota = Quota::from_parts(Duration::from_micros(10), 2);
    assert_eq!(backend.check_at("k", &quota, 0).remaining, 1);
    assert_eq!(backend.check_at("k", &quota, 0).remaining, 2);
    let denied = backend.check_at("k", &quota, 0);
    assert_eq!(denied.retry_after, Some(Duration::from_millis(1)));
    assert!(backend.check_at("k", &quota, 1).allowed);
}

#[test]
fn an_empty_burst_allows_nothing_in_memory() {
    let mut backend = InMemoryBackend::new();
    let quota = Quota::per_second(10).allow_burst(0);
    let r = backend.check_at("k", &quota, 7);
    assert!(!r.allowed);
    assert_eq!(r.retry_after, Some(Duration::from_millis(100)));
}

#[test]
fn copies_of_a_backend_go_their_own_way() {
    let quota = Quota::per_second(1);
    let mut first = InMemoryBackend::new();
    assert!(first.check_at("k", &quota, 0).allowed);
    let mut second = first.clone();
    assert!(!second.check_at("k", &quota, 0).allowed);
    assert!(second.check_at("new", &quota, 0).allowed);
    assert!(first.check_at("new", &quota, 0).allowed);

    let mut window = SlidingWindowBackend::new();
    assert!(window.check_at("k", &quota, Duration::ZERO).allowed);
    let mut copy = window.clone();
    assert!(!copy.check_at("k", &quota, Duration::ZERO).allowed);
    assert!(copy.check_at("new", &quota, Duration::ZERO).allowed);
    assert!(window.check_at("new", &quota, Duration::ZERO).allowed);
}

#[test]
fn the_noop_backend_allows_everything() {
    let mut backend = NoopBackend;
    let quota = Quota::per_second(10);
    for _ in 0..100 {
        let r = backend.check("anything", &quota);
        assert!(r.allowed);
        assert_eq!(r.remaining, 9);
        assert_eq!(r.limit, 10);
        assert!(r.retry_after.is_none());
    }
    let now = Instant::now();
    let r = NoopBackend::default().check_at(&quota.allow_burst(0), now);
    assert!(r.allowed);
    assert_eq!(r.remaining, 0);
    assert_eq!(r.reset_at, now + Duration::from_millis(100));
}

#[test]
fn sliding_window_allows_requests_within_limit() {
    let mut backend = SlidingWindowBackend::new();
    let quota = Quota::per_second(3);

    let r1 = backend.check("key", &quota);
    assert!(r1.allowed);
    assert_eq!(r1.remaining, 2);

    let r2 = backend.check("key", &quota);
    assert!(r2.allowed);
    assert_eq!(r2.remaining, 1);

    let r3 = backend.check("key", &quota);
    assert!(r3.allowed);
    assert_eq!(r3.remaining, 0);
}

#[test]
fn sliding_window_rejects_when_exceeded() {
    let mut backend = SlidingWindowBackend::new();
    let quota = Quota::per_second(2);

    let r1 = backend.check("key", &quota);
    assert!(r1.allowed);

    let r2 = backend.check("key", &quota);
    assert!(r2.allowed);

    let r3 = backend.check("key", &quota);
    assert!(!r3.allowed);
    assert!(r3.retry_after.is_some());
    assert_eq!(r3.remaining, 0);
}

#[test]
fn sliding_window_keys_are_isolated() {
    let mut backend = SlidingWindowBackend::new();
    let quota = Quota::per_second(1);

    let r1 = backend.check("a", &quota);
    assert!(r1.allowed);

    let r2 = backend.check("a", &quota);
    assert!(!r2.allowed);

    let r3 = backend.check("b", &quota);
    assert!(r3.allowed);
}

#[test]
fn sliding_window_requests_expire() {
    let mut backend = SlidingWindowBackend::new();
    let quota = Quota::per_second(1);

    let r1 = backend.check("key", &quota);
    assert!(r1.allowed);

    let r2 = backend.check("key", &quota);
    assert!(!r2.allowed);

    sleep(Duration::from_millis(1100));

    let r3 = backend.check("key", &quota);
    assert!(r3.allowed);
}

#[test]
fn sliding_window_new_and_default() {
    let _ = SlidingWindowBackend::new();
    let _ = SlidingWindowBackend::default();
}

#[test]
fn sliding_window_resets_only_after_the_full_window() {
    // window = interval * burst = 500 ms * 2 = 1 s for per_second(2).
    // At 600 ms the recorded requests are still inside the true window,
    // so the request must stay denied.
    let mut backend = SlidingWindowBackend::new();
    let quota = Quota::per_second(2);

    assert!(backend.check("w", &quota).allowed);
    assert!(backend.check("w", &quota).allowed);
    assert!(!backend.check("w", &quota).allowed);

    sleep(Duration::from_millis(600));
    assert!(
        !backend.check("w", &quota).allowed,
        "requests inside the full window must still count"
    );
}

#[test]
fn sliding_window_reset_at_is_in_the_future_when_allowed() {
    let mut backend = SlidingWindowBackend::new();
    let r = backend.check("reset", &Quota::per_second(2));
    assert!(r.allowed);
    assert!(
        r.reset_at > Instant::now(),
        "reset_at must be in the future for an allowed request"
    );
}

#[test]
fn sliding_window_retry_after_is_within_the_window() {
    let mut backend = SlidingWindowBackend::new();
    let quota = Quota::per_second(1); // window = 1 s

    assert!(backend.check("retry", &quota).allowed);
    sleep(Duration::from_millis(5));
    let r2 = backend.check("retry", &quota);
    assert!(!r2.allowed);
    let retry = r2.retry_after.expect("denied request carries retry_after");
    assert!(retry > Duration::ZERO, "retry_after must be positive");
    assert!(
        retry <= quota.interval(),
        "retry_after must not exceed the window"
    );
}

#[test]
fn a_window_slides_with_the_oldest_request() {
    let mut backend = SlidingWindowBackend::new();
    let quota = Quota::per_second(2);
    let ms = Duration::from_millis;
    assert_eq!(backend.check_at("k", &quota, ms(0)).remaining, 1);
    assert_eq!(backend.check_at("k", &quota, ms(400)).remaining, 0);
    let denied = backend.check_at("k", &quota, ms(900));
    assert!(!denied.allowed);
    assert_eq!(denied.retry_after, Some(ms(100)));
    // A request that is exactly a window old still counts.
    let edge = backend.check_at("k", &quota, ms(1000));
    assert!(!edge.allowed);
    assert_eq!(edge.retry_after, Some(ms(0)));
    let freed = backend.check_at("k", &quota, Duration::from_nanos(1_000_000_001));
    assert!(freed.allowed);
    assert_eq!(freed.remaining, 0);
    assert!(!backend.check_at("k", &quota, ms(1400)).allowed);
    assert!(backend.check_at("k", &quota, ms(1401)).allowed);
}

#[test]
fn no_window_holds_more_than_the_limit() {
    let mut backend = SlidingWindowBackend::new();
    let quota = Quota::per_second(4); // window = 1 s
    let mut allowed: Vec<u64> = Vec::new();
    let mut now: u64 = 0;
    for step in 0..2_000u64 {
        now += (step * 7919) % 97;
        if backend
            .check_at("k", &quota, Duration::from_millis(now))
            .allowed
        {
            allowed.push(now);
        }
    }
    assert!(allowed.len() > 100);
    for five in allowed.windows(5) {
        assert!(five[4] > five[0] + 1_000);
    }
}

#[test]
fn an_empty_burst_allows_nothing_in_a_window() {
    let mut backend = SlidingWindowBackend::new();
    let r = backend.check("k", &Quota::per_second(10).allow_burst(0));
    assert!(!r.allowed);
    assert_eq!(r.remaining, 0);
    assert!(r.retry_after.is_none());
}

#[test]
fn windows_longer_than_any_span_are_not_checked() {
    let mut backend = SlidingWindowBackend::new();
    let endless = Quota::from_parts(Duration::MAX, 2);
    assert!(backend.try_check("k", &endless).is_none());
    let quota = Quota::per_second(1);
    assert!(backend.try_check("k", &quota).unwrap().allowed);
    assert!(!backend.try_check("k", &quota).unwrap().allowed);
}
