//! Results and errors.

use std::time::{Duration, Instant};

use throttle_kit::{NoopBackend, Quota, RateLimitError, RateLimitResult};

#[test]
fn rate_limit_result_fields() {
    let r = RateLimitResult {
        allowed: true,
        remaining: 5,
        reset_at: Instant::now(),
        limit: 10,
        retry_after: None,
    };
    assert!(r.allowed);
    assert_eq!(r.remaining, 5);
    assert_eq!(r.limit, 10);
    assert!(r.retry_after.is_none());
}

#[test]
fn rate_limit_result_headers() {
    let r = RateLimitResult {
        allowed: true,
        remaining: 7,
        reset_at: Instant::now() + Duration::from_secs(30),
        limit: 10,
        retry_after: None,
    };
    let headers = r.headers();
    assert_eq!(headers.len(), 3);
    assert_eq!(headers[0].0, "X-RateLimit-Limit");
    assert_eq!(headers[0].1, "10");
    assert_eq!(headers[1].0, "X-RateLimit-Remaining");
    assert_eq!(headers[1].1, "7");
    assert_eq!(headers[2].0, "X-RateLimit-Reset");
}

#[test]
fn rate_limit_result_retry_after() {
    let r = RateLimitResult {
        allowed: false,
        remaining: 0,
        reset_at: Instant::now(),
        limit: 10,
        retry_after: Some(Duration::from_millis(100)),
    };
    assert!(!r.allowed);
    assert_eq!(r.retry_after, Some(Duration::from_millis(100)));
}

#[test]
fn rate_limit_error_display() {
    let e = RateLimitError::RateLimited;
    assert_eq!(e.to_string(), "rate limit exceeded");

    let e = RateLimitError::BackendError("connection refused".into());
    assert_eq!(
        e.to_string(),
        "rate limit backend error: connection refused"
    );
}

#[test]
fn result_allowed_with_remaining() {
    let r = RateLimitResult {
        allowed: true,
        remaining: 9,
        reset_at: Instant::now(),
        limit: 10,
        retry_after: None,
    };
    assert!(r.allowed);
    assert_eq!(r.remaining, 9);
    assert_eq!(r.limit, 10);
    assert!(r.retry_after.is_none());
}

#[test]
fn result_denied_with_retry_after() {
    let r = RateLimitResult {
        allowed: false,
        remaining: 0,
        reset_at: Instant::now(),
        limit: 10,
        retry_after: Some(Duration::from_secs(1)),
    };
    assert!(!r.allowed);
    assert_eq!(r.remaining, 0);
    assert!(r.retry_after.is_some());
}

#[test]
fn result_headers_contain_correct_keys() {
    let r = RateLimitResult {
        allowed: true,
        remaining: 5,
        reset_at: Instant::now() + Duration::from_secs(30),
        limit: 10,
        retry_after: None,
    };
    let headers = r.headers();
    assert_eq!(headers.len(), 3);
    assert_eq!(headers[0].0, "X-RateLimit-Limit");
    assert_eq!(headers[0].1, "10");
    assert_eq!(headers[1].0, "X-RateLimit-Remaining");
    assert_eq!(headers[1].1, "5");
    assert_eq!(headers[2].0, "X-RateLimit-Reset");
}

#[test]
fn error_rate_limited_display() {
    let e = RateLimitError::RateLimited;
    assert_eq!(e.to_string(), "rate limit exceeded");
}

#[test]
fn error_backend_error_display() {
    let e = RateLimitError::BackendError("timeout connecting to Redis".into());
    assert_eq!(
        e.to_string(),
        "rate limit backend error: timeout connecting to Redis"
    );
}

#[test]
fn error_debug_format() {
    let e = RateLimitError::RateLimited;
    let debug = format!("{:?}", e);
    assert!(debug.contains("RateLimited"));
}

#[test]
fn rate_limit_result_headers_always_3() {
    for remaining in (0u64..1_000u64).step_by(13) {
        for limit in (1u64..1_000u64).step_by(17) {
            let r = RateLimitResult {
                allowed: true,
                remaining,
                reset_at: Instant::now(),
                limit,
                retry_after: None,
            };
            let headers = r.headers();
            assert_eq!(headers.len(), 3);
            assert_eq!(headers[0].0, "X-RateLimit-Limit");
            assert_eq!(headers[1].0, "X-RateLimit-Remaining");
            assert_eq!(headers[2].0, "X-RateLimit-Reset");
        }
    }
}

#[test]
fn the_reset_is_told_in_whole_seconds() {
    let now = Instant::now();
    let mut r = RateLimitResult {
        allowed: true,
        remaining: u64::MAX,
        reset_at: now + Duration::from_millis(30_999),
        limit: 0,
        retry_after: None,
    };
    let headers = r.headers_at(now);
    assert_eq!(headers[0].1, "0");
    assert_eq!(headers[1].1, "18446744073709551615");
    assert_eq!(headers[2].1, "30");
    assert_eq!(r.secs_to_reset(now), 30);
    // A reset that has passed is told as zero.
    r.reset_at = now;
    assert_eq!(r.secs_to_reset(now + Duration::from_secs(5)), 0);
}

#[test]
fn cloned_results_are_equal() {
    let r = RateLimitResult {
        allowed: false,
        remaining: 3,
        reset_at: Instant::now(),
        limit: 4,
        retry_after: Some(Duration::from_millis(7)),
    };
    let c = r.clone();
    assert_eq!(
        (c.allowed, c.remaining, c.reset_at, c.limit, c.retry_after),
        (r.allowed, r.remaining, r.reset_at, r.limit, r.retry_after)
    );
}

#[test]
fn a_reset_half_a_minute_away_is_told_as_thirty() {
    let now = Instant::now();
    let quota = Quota::from_parts(Duration::from_millis(30_000), 2);
    let r = NoopBackend.check_at(&quota, now);
    assert_eq!(r.secs_to_reset(now), 30);
    assert_eq!(r.headers_at(now)[2].1, "30");
    // A moment later it is told as one less.
    assert_eq!(r.headers_at(now + Duration::from_nanos(1))[2].1, "29");
}
