//! The decisions of the backends whose state is kept elsewhere.

use std::time::{Duration, Instant};

use rusqlite::Connection;

use throttle_kit::redis_check::{
    checked_result, read_reply, script_args, try_script_args, ScriptArgs,
};
use throttle_kit::sqlite_check::{check_row, try_check_row, StoredKey};
use throttle_kit::{Quota, RateLimitError, RateLimitResult};

/// Rows of keys in a database in memory, under a clock that stands still.
struct Rows {
    conn: Connection,
    now_ms: u64,
}

impl Rows {
    fn new() -> Rows {
        let conn = Connection::open_in_memory().unwrap();
        conn.execute_batch(
            "CREATE TABLE rate_limits (
                key TEXT PRIMARY KEY,
                last_emission_ms INTEGER NOT NULL,
                remaining INTEGER NOT NULL
            );",
        )
        .unwrap();
        Rows {
            conn,
            now_ms: 1_700_000_000_000,
        }
    }

    fn check(&mut self, key: &str, quota: &Quota) -> RateLimitResult {
        let row: Option<StoredKey> = self
            .conn
            .query_row(
                "SELECT last_emission_ms, remaining FROM rate_limits WHERE key = ?1",
                [key],
                |row| {
                    Ok(StoredKey {
                        last_emission_ms: row.get(0)?,
                        remaining: row.get(1)?,
                    })
                },
            )
            .ok();
        let (next, result) = check_row(row, quota, self.now_ms, Instant::now());
        self.conn
            .execute(
                "INSERT OR REPLACE INTO rate_limits (key, last_emission_ms, remaining) VALUES (?1, ?2, ?3)",
                (key, next.last_emission_ms, next.remaining),
            )
            .unwrap();
        result
    }
}

#[test]
fn first_request_allowed() {
    let mut backend = Rows::new();
    let quota = Quota::per_second(10);
    let result = backend.check("user-1", &quota);
    assert!(result.allowed);
    assert_eq!(result.limit, 10);
}

#[test]
fn burst_exhaustion() {
    let mut backend = Rows::new();
    let quota = Quota::per_second(2);

    let r1 = backend.check("user-1", &quota);
    assert!(r1.allowed);
    let r2 = backend.check("user-1", &quota);
    assert!(r2.allowed);
    let r3 = backend.check("user-1", &quota);
    assert!(!r3.allowed);
    assert!(r3.retry_after.is_some());
}

#[test]
fn key_isolation() {
    let mut backend = Rows::new();
    let quota = Quota::per_second(1);

    let r1 = backend.check("a", &quota);
    assert!(r1.allowed);
    let r2 = backend.check("a", &quota);
    assert!(!r2.allowed);

    // Different key should be unaffected
    let r3 = backend.check("b", &quota);
    assert!(r3.allowed);
}

#[test]
fn remaining_decrements() {
    let mut backend = Rows::new();
    let quota = Quota::per_second(5);

    let r = backend.check("u", &quota);
    assert_eq!(r.remaining, 4);
    let r = backend.check("u", &quota);
    assert_eq!(r.remaining, 3);
}

#[test]
fn rows_fill_up_with_time_and_no_further_than_the_burst() {
    let quota = Quota::per_second(2); // 500 ms interval
    let now = Instant::now();
    let empty = StoredKey {
        last_emission_ms: 1_000,
        remaining: 0,
    };
    let (row, r) = check_row(Some(empty), &quota, 1_499, now);
    assert!(!r.allowed);
    assert_eq!(row, empty);
    assert_eq!(r.retry_after, Some(Duration::from_millis(1)));
    assert_eq!(r.reset_at, now + Duration::from_millis(1));
    let (row, r) = check_row(Some(empty), &quota, 1_500, now);
    assert!(r.allowed);
    assert_eq!(row.remaining, 0);
    assert_eq!(row.last_emission_ms, 1_500);
    assert_eq!(r.reset_at, now + Duration::from_millis(500));
    assert!(r.retry_after.is_none());
    // Centuries later the row holds the burst, less the request.
    let (row, r) = check_row(Some(empty), &quota, u64::MAX, now);
    assert!(r.allowed);
    assert_eq!(row.remaining, 1);
    assert_eq!(r.remaining, 1);
    // A clock that went back replenishes nothing.
    let (row, r) = check_row(Some(empty), &quota, 0, now);
    assert!(!r.allowed);
    assert_eq!(row, empty);
    assert_eq!(r.retry_after, Some(Duration::from_millis(500)));
}

#[test]
fn rows_with_more_than_the_burst_are_cut_when_they_fill_up() {
    let quota = Quota::per_second(2);
    let now = Instant::now();
    let rich = StoredKey {
        last_emission_ms: 1_000,
        remaining: 9,
    };
    assert_eq!(check_row(Some(rich), &quota, 1_000, now).0.remaining, 8);
    assert_eq!(check_row(Some(rich), &quota, 1_500, now).0.remaining, 1);
    let full = StoredKey {
        last_emission_ms: 0,
        remaining: u32::MAX,
    };
    assert_eq!(check_row(Some(full), &quota, 1_500, now).0.remaining, 1);
}

#[test]
fn script_arguments_are_in_milliseconds() {
    assert_eq!(
        script_args(&Quota::per_second(10), 77),
        ScriptArgs {
            emission: 100,
            burst: 10,
            cost: 1,
            now_ms: 77,
            ttl_ms: 1_000,
        }
    );
}

#[test]
fn replies_of_the_script_decide() {
    let quota = Quota::per_second(10);
    let now = Instant::now();
    let allowed = checked_result(&quota, &Ok(vec![1, 3, 0]), now);
    assert!(allowed.allowed);
    assert_eq!(allowed.remaining, 3);
    assert_eq!(allowed.limit, 10);
    assert_eq!(allowed.reset_at, now + Duration::from_millis(100));
    assert!(allowed.retry_after.is_none());

    let denied = checked_result(&quota, &Ok(vec![0, 0, 250]), now);
    assert!(!denied.allowed);
    assert_eq!(denied.remaining, 0);
    assert_eq!(denied.reset_at, now + Duration::from_millis(250));
    assert_eq!(denied.retry_after, Some(Duration::from_millis(250)));

    let verdict = read_reply(&vec![-1, 0x1_0000_0005, 9]);
    assert!(verdict.allowed);
    assert_eq!(verdict.remaining, 5);
    assert_eq!(verdict.retry_after_ms, 9);
}

#[test]
fn a_failure_of_the_server_fails_open() {
    let quota = Quota::per_second(10);
    let now = Instant::now();
    for error in [
        RateLimitError::BackendError("connection refused".into()),
        RateLimitError::RateLimited,
    ] {
        let r = checked_result(&quota, &Err(error), now);
        assert!(r.allowed);
        assert_eq!(r.remaining, 0);
        assert_eq!(r.limit, 10);
        assert_eq!(r.reset_at, now + Duration::from_millis(100));
        assert!(r.retry_after.is_none());
    }
}

#[test]
fn quotas_without_an_answer_get_none() {
    let now = Instant::now();
    // Two thousand per second: the interval is below a millisecond.
    assert!(try_check_row(None, &Quota::per_second(2_000), 5, now).is_none());
    let (row, r) = try_check_row(None, &Quota::per_second(1_000), 5, now).unwrap();
    assert!(r.allowed);
    assert_eq!(row.remaining, 999);
    let endless = Quota::from_parts(Duration::from_millis(u64::MAX), 2);
    assert!(try_script_args(&endless, 5).is_none());
    let args = try_script_args(&Quota::per_second(10), 77).unwrap();
    assert_eq!(args, script_args(&Quota::per_second(10), 77));
}
