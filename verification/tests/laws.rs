//! What the library promises of many calls, on concrete values.

use std::time::{Duration, Instant};

use throttle_kit::gcra::gcra_advance;
use throttle_kit::ip::{IpAddr, Ipv4Addr};
use throttle_kit::sqlite_check::{check_row, StoredKey};
use throttle_kit::{gcra_decide, InMemoryBackend, IpNet, Quota, SlidingWindowBackend};

/// A sequence of numbers without a pattern.
struct Numbers(u64);

impl Numbers {
    fn below(&mut self, end: u64) -> u64 {
        self.0 ^= self.0 << 13;
        self.0 ^= self.0 >> 7;
        self.0 ^= self.0 << 17;
        (self.0 >> 16) % end
    }
}

#[test]
fn a_key_is_a_token_bucket() {
    let mut numbers = Numbers(0x1234_5678_9abc_def1);
    let (interval, burst) = (70u64, 5u64);
    let full = interval * burst;
    let mut level = full;
    let mut tac = 0u64;
    let mut now = 0u64;
    for _ in 0..5_000 {
        let passed = numbers.below(100);
        now += passed;
        level = (level + passed).min(full);
        let (allowed, wait, _) = gcra_advance(&mut tac, now, interval, burst);
        assert_eq!(allowed, level >= interval);
        if allowed {
            level -= interval;
        } else {
            assert_eq!(wait, interval - level);
        }
        assert_eq!(level, full - tac.saturating_sub(now));
    }
}

#[test]
fn a_full_budget_is_exactly_the_burst() {
    for burst in 0..20u64 {
        let mut tac = 3u64;
        for n in 0..40u64 {
            let (allowed, _, remaining) = gcra_advance(&mut tac, 1_000, 50, burst);
            assert_eq!(allowed, n < burst);
            assert_eq!(remaining, if n < burst { n + 1 } else { 0 });
        }
    }
}

#[test]
fn one_interval_restores_one_request() {
    let mut tac = 0u64;
    for _ in 0..4 {
        assert!(gcra_advance(&mut tac, 0, 250, 4).0);
    }
    assert!(!gcra_decide(249, tac, 250, 4).0);
    assert!(gcra_decide(250, tac, 250, 4).0);
}

#[test]
fn each_key_keeps_its_rate_among_others() {
    let mut numbers = Numbers(0xfeed_f00d_dead_beef);
    let mut backend = InMemoryBackend::new();
    let quota = Quota::from_parts(Duration::from_millis(40), 3);
    let other = Quota::from_parts(Duration::from_millis(7), 90);
    let keys = ["a", "b", "c", "d"];
    let mut allowed = [0u64; 4];
    let mut now = 0u64;
    for _ in 0..20_000 {
        now += numbers.below(3);
        let i = numbers.below(4) as usize;
        backend.check_at("e", &other, now);
        if backend.check_at(keys[i], &quota, now).allowed {
            allowed[i] += 1;
        }
    }
    for count in allowed {
        assert!(count <= 3 + now / 40);
        assert!(count + 20 >= now / 40);
    }
}

#[test]
fn each_key_keeps_its_window_among_others() {
    let mut numbers = Numbers(0x0dd_ba11);
    let mut backend = SlidingWindowBackend::new();
    let quota = Quota::from_parts(Duration::from_millis(100), 3); // window 300 ms
    let keys = ["a", "b", "c"];
    let mut allowed: [Vec<u64>; 3] = [Vec::new(), Vec::new(), Vec::new()];
    let mut now = 0u64;
    for _ in 0..5_000 {
        now += numbers.below(40);
        let i = numbers.below(3) as usize;
        let counted = allowed[i].iter().filter(|t| **t + 300 >= now).count();
        let r = backend.check_at(keys[i], &quota, Duration::from_millis(now));
        // A request is allowed where fewer than three are at most a window old.
        assert_eq!(r.allowed, counted < 3);
        if r.allowed {
            assert_eq!(r.remaining, 2 - counted as u64);
            allowed[i].push(now);
        } else {
            let oldest = allowed[i].iter().find(|t| **t + 300 >= now).unwrap();
            assert_eq!(
                r.retry_after,
                Some(Duration::from_millis(oldest + 300 - now))
            );
        }
    }
    for times in allowed {
        assert!(times.len() > 100);
        for four in times.windows(4) {
            assert!(four[3] > four[0] + 300);
        }
    }
}

#[test]
fn stored_rows_keep_the_rate() {
    let mut numbers = Numbers(0xabad_1dea);
    let quota = Quota::from_parts(Duration::from_millis(40), 3);
    let start = 1_000_000u64;
    let mut row: Option<StoredKey> = None;
    let mut allowed = 0u64;
    let mut now = start;
    for _ in 0..20_000 {
        let (next, r) = check_row(row, &quota, now, Instant::now());
        assert!(next.remaining <= 3);
        if r.allowed {
            allowed += 1;
        } else {
            // The wait is exact.
            let wait = r.retry_after.unwrap().as_millis() as u64;
            assert!(
                !check_row(Some(next), &quota, now + wait - 1, Instant::now())
                    .1
                    .allowed
            );
            assert!(
                check_row(Some(next), &quota, now + wait, Instant::now())
                    .1
                    .allowed
            );
        }
        row = Some(next);
        now += numbers.below(5);
    }
    assert!(allowed <= 3 + (now - start) / 40);
}

#[test]
fn longer_prefixes_cover_less() {
    let mut numbers = Numbers(0x5eed);
    for _ in 0..200 {
        let addr = Ipv4Addr {
            bits: numbers.below(1 << 32) as u32,
        };
        let probe = IpAddr::V4(Ipv4Addr {
            bits: addr.bits ^ (numbers.below(1 << 32) as u32 >> numbers.below(32)),
        });
        let mut covered = true;
        for prefix in 0..=32u8 {
            let covers = IpNet::V4 { addr, prefix }.contains(probe);
            assert!(covered || !covers);
            covered = covers;
        }
    }
}
