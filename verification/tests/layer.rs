//! What becomes of requests.

use std::time::{Duration, Instant};

use http::{HeaderMap, HeaderValue};

use throttle_kit::client_ip::{
    resolve_client_identity, ClientIpConfig, ClientIpSource, IpNet, MissingClientPolicy,
};
use throttle_kit::ip::{IpAddr, Ipv4Addr};
use throttle_kit::tower_layer::{
    answer, insert_rate_limit_headers, u64_header_value, Admission, Refusal,
};
use throttle_kit::{
    InMemoryBackend, NoopBackend, Quota, RateLimitBackend, RateLimitLayer, RateLimitResult,
};

fn v4(a: u8, b: u8, c: u8, d: u8) -> IpAddr {
    IpAddr::V4(Ipv4Addr::new(a, b, c, d))
}

fn xff(value: &str) -> HeaderMap {
    let mut headers = HeaderMap::new();
    headers.insert("x-forwarded-for", HeaderValue::from_str(value).unwrap());
    headers
}

fn config_trusting_peer(hops: usize) -> ClientIpConfig {
    ClientIpConfig {
        trusted_proxies: vec![IpNet::parse("10.0.0.0/8").unwrap()],
        num_trusted_hops: hops,
        trusted_header: None,
    }
}

/// The status of the response to a request that the inner service answers
/// with `200`.
fn status<B: RateLimitBackend>(
    layer: &mut RateLimitLayer<B>,
    headers: &HeaderMap,
    peer: Option<IpAddr>,
    custom: &str,
) -> u16 {
    match layer.decide(headers, peer, custom) {
        Admission::Refused(refusal) => refusal.status(),
        Admission::Admitted(_) => 200,
    }
}

#[test]
fn knob_trusted_proxies_switch_keying() {
    let peer = v4(10, 0, 0, 1);
    // Chain shape (as appended by proxies): client first, last hop last.
    let headers = xff("203.0.113.7, 10.0.0.254");

    // Default: no trusted proxies, spoofed header ignored, keyed by peer.
    let resolved = resolve_client_identity(&headers, Some(peer), &ClientIpConfig::default())
        .expect("peer present");
    assert_eq!(resolved.ip, peer);
    assert_eq!(resolved.source, ClientIpSource::PeerSocket);

    // Trusting the peer's network: the header entry becomes the key.
    let trusting = ClientIpConfig {
        trusted_proxies: vec![IpNet::parse("10.0.0.0/8").unwrap()],
        num_trusted_hops: 1,
        trusted_header: None,
    };
    let resolved = resolve_client_identity(&headers, Some(peer), &trusting).expect("peer present");
    assert_eq!(resolved.ip, v4(203, 0, 113, 7));
    assert_eq!(resolved.source, ClientIpSource::ForwardedHeader);
}

#[test]
fn knob_num_trusted_hops_moves_the_walk() {
    let peer = v4(10, 0, 0, 1);
    let headers = xff("203.0.113.7, 10.0.0.254");
    let base = || ClientIpConfig {
        trusted_proxies: vec![IpNet::parse("10.0.0.0/8").unwrap()],
        num_trusted_hops: 1,
        trusted_header: None,
    };
    // 1 hop skipped: the client entry.
    let r1 = resolve_client_identity(&headers, Some(peer), &base()).unwrap();
    assert_eq!(r1.ip, v4(203, 0, 113, 7));
    // 0 hops: the rightmost entry (the last proxy).
    let zero = ClientIpConfig {
        num_trusted_hops: 0,
        ..base()
    };
    let r0 = resolve_client_identity(&headers, Some(peer), &zero).unwrap();
    assert_eq!(r0.ip, v4(10, 0, 0, 254));
}

#[test]
fn knob_trusted_header_overrides_xff() {
    let peer = v4(10, 0, 0, 1);
    let mut headers = xff("6.6.6.6");
    headers.insert("cf-connecting-ip", HeaderValue::from_static("203.0.113.9"));
    let cfg = ClientIpConfig {
        trusted_proxies: vec![IpNet::parse("10.0.0.0/8").unwrap()],
        num_trusted_hops: 0,
        trusted_header: Some(http::HeaderName::from_static("cf-connecting-ip")),
    };
    let resolved = resolve_client_identity(&headers, Some(peer), &cfg).unwrap();
    assert_eq!(
        resolved.ip,
        v4(203, 0, 113, 9),
        "trusted_header must win over X-Forwarded-For"
    );
}

#[test]
fn layer_default_keys_by_peer_and_ignores_spoofed_xff() {
    // Untrusted peer, 2/second: the spoofed XFF must NOT open new budgets.
    let mut layer = RateLimitLayer::new(Quota::per_second(2), InMemoryBackend::new());
    let spoof = xff("6.6.6.6");
    let peer = v4(198, 51, 100, 9);
    assert_eq!(status(&mut layer, &spoof, Some(peer), ""), 200);
    assert_eq!(status(&mut layer, &spoof, Some(peer), ""), 200);
    // Third request from the SAME peer is limited even with a fresh spoof.
    assert_eq!(status(&mut layer, &spoof, Some(peer), ""), 429);
    // A different peer still has its own budget.
    assert_eq!(
        status(&mut layer, &spoof, Some(v4(198, 51, 100, 10)), ""),
        200
    );
}

#[test]
fn layer_trusted_proxy_resolves_forwarded_identity() {
    let mut layer = RateLimitLayer::new(Quota::per_second(1), InMemoryBackend::new())
        .with_client_ip(config_trusting_peer(1));
    let peer = v4(10, 0, 0, 1);
    let client = xff("203.0.113.7, 10.0.0.254");
    assert_eq!(status(&mut layer, &client, Some(peer), ""), 200);
    assert_eq!(status(&mut layer, &client, Some(peer), ""), 429);
    assert_eq!(
        status(&mut layer, &xff("203.0.113.8, 10.0.0.254"), Some(peer), ""),
        200
    );
}

#[test]
fn layer_missing_connect_info_rejects_with_503_by_default() {
    let mut layer = RateLimitLayer::new(Quota::per_second(10), InMemoryBackend::new())
        .with_client_ip(config_trusting_peer(1));
    // No peer address.
    assert_eq!(status(&mut layer, &HeaderMap::new(), None, ""), 503);
}

#[test]
fn layer_missing_connect_info_fallback_key_opt_in() {
    let mut layer = RateLimitLayer::new(Quota::per_second(1), InMemoryBackend::new())
        .with_missing_client_policy(MissingClientPolicy::FallbackKey("shared".into()));
    assert_eq!(status(&mut layer, &HeaderMap::new(), None, ""), 200);
    // Second request shares the single fallback bucket.
    assert_eq!(status(&mut layer, &HeaderMap::new(), None, ""), 429);
}

/// A key as an extractor takes it from a header.
fn header_key(headers: &HeaderMap, name: &str, fallback: &str) -> String {
    headers
        .get(name)
        .and_then(|v| v.to_str().ok())
        .unwrap_or(fallback)
        .to_string()
}

#[test]
fn layer_custom_key_extractor_keeps_non_ip_keying() {
    let mut layer = RateLimitLayer::new(Quota::per_second(1), InMemoryBackend::new())
        .with_key_extractor();
    let extract = |headers: &HeaderMap| header_key(headers, "authorization", "anonymous");

    let mut headers = xff("6.6.6.6");
    headers.insert("authorization", HeaderValue::from_static("Bearer tenant-a"));
    let key = extract(&headers);
    assert_eq!(status(&mut layer, &headers, None, &key), 200);
    // Same key exhausted even though the XFF (ignored) differs.
    let mut headers = xff("7.7.7.7");
    headers.insert("authorization", HeaderValue::from_static("Bearer tenant-a"));
    let key = extract(&headers);
    assert_eq!(status(&mut layer, &headers, None, &key), 429);
    // Different key unaffected.
    let mut headers = HeaderMap::new();
    headers.insert("authorization", HeaderValue::from_static("Bearer tenant-b"));
    let key = extract(&headers);
    assert_eq!(status(&mut layer, &headers, None, &key), 200);
}

#[test]
fn knob_missing_policy_decides_identity_less_requests() {
    // Default: fail closed with 503...
    let mut reject = RateLimitLayer::new(Quota::per_second(10), InMemoryBackend::new());
    assert_eq!(status(&mut reject, &HeaderMap::new(), None, ""), 503);

    // ...opt-in shared bucket serves then rate-limits as one identity.
    let mut fallback = RateLimitLayer::new(Quota::per_second(1), InMemoryBackend::new())
        .with_missing_client_policy(MissingClientPolicy::FallbackKey("shared".into()));
    assert_eq!(status(&mut fallback, &HeaderMap::new(), None, ""), 200);
    assert_eq!(
        status(&mut fallback, &HeaderMap::new(), None, ""),
        429,
        "fallback requests must share one budget"
    );
}

#[test]
fn knob_key_extractor_replaces_ip_keying() {
    let mut layer = RateLimitLayer::new(Quota::per_second(1), InMemoryBackend::new())
        .with_key_extractor();
    let mut headers = HeaderMap::new();
    headers.insert("x-api-key", HeaderValue::from_static("tenant-a"));
    let key = header_key(&headers, "x-api-key", "anon");
    assert_eq!(status(&mut layer, &headers, None, &key), 200);
    // Same API key, no identity headers at all: still the same bucket.
    assert_eq!(status(&mut layer, &headers, None, &key), 429);
}

#[test]
fn inserts_rate_limit_headers_on_allowed_response() {
    let mut layer = RateLimitLayer::new(Quota::per_second(10), NoopBackend).with_key_extractor();
    let mut response = HeaderMap::new();
    match layer.decide(&HeaderMap::new(), None, "test-key") {
        Admission::Admitted(result) => {
            insert_rate_limit_headers(&mut response, &result, Instant::now()).unwrap();
        }
        Admission::Refused(refusal) => panic!("{refusal:?}"),
    }
    assert_eq!(response.get("X-RateLimit-Limit").unwrap(), "10");
    assert_eq!(response.get("X-RateLimit-Remaining").unwrap(), "9");
    assert!(response.contains_key("X-RateLimit-Reset"));
}

#[test]
fn told_fields_take_the_place_of_others() {
    let now = Instant::now();
    let result = RateLimitResult {
        allowed: true,
        remaining: 3,
        reset_at: now + Duration::from_millis(2_500),
        limit: 12,
        retry_after: None,
    };
    let mut response = HeaderMap::new();
    response.append("x-ratelimit-limit", HeaderValue::from_static("1"));
    response.append("x-ratelimit-limit", HeaderValue::from_static("2"));
    response.append("set-cookie", HeaderValue::from_static("a"));
    response.append("set-cookie", HeaderValue::from_static("b"));
    insert_rate_limit_headers(&mut response, &result, now).unwrap();
    let all = |name: &str| -> Vec<String> {
        response
            .get_all(name)
            .iter()
            .map(|v| v.to_str().unwrap().to_string())
            .collect()
    };
    assert_eq!(all("x-ratelimit-limit"), ["12"]);
    assert_eq!(all("x-ratelimit-remaining"), ["3"]);
    assert_eq!(all("x-ratelimit-reset"), ["2"]);
    assert_eq!(all("set-cookie"), ["a", "b"]);
}

#[test]
fn a_full_map_of_fields_is_left_as_it_is() {
    let now = Instant::now();
    let result = RateLimitResult {
        allowed: true,
        remaining: 3,
        reset_at: now,
        limit: 12,
        retry_after: None,
    };
    let mut response: HeaderMap = HeaderMap::new();
    let mut count: usize = 0;
    loop {
        let name = http::HeaderName::from_bytes(format!("x-{count}").as_bytes()).unwrap();
        if response
            .try_insert(name, HeaderValue::from_static("v"))
            .is_err()
        {
            break;
        }
        count += 1;
    }
    assert!(count >= 6554);
    assert!(insert_rate_limit_headers(&mut response, &result, now).is_err());
    assert_eq!(response.keys_len(), count);
    assert!(!response.contains_key("x-ratelimit-limit"));
}

#[test]
fn numbers_are_told_in_decimal() {
    for v in [0u64, 1, 9, 10, 99, 100, 12_345, u64::MAX - 1, u64::MAX] {
        assert_eq!(u64_header_value(v).unwrap(), v.to_string().as_str());
    }
}

#[test]
fn refusals_have_their_own_answers() {
    assert_eq!(Refusal::Unidentified.status(), 503);
    assert_eq!(Refusal::Unidentified.retry_after(), None);
    assert_eq!(Refusal::LimitExceeded.status(), 429);
    assert_eq!(Refusal::LimitExceeded.retry_after(), Some(1));
    let denied = RateLimitResult {
        allowed: false,
        remaining: 0,
        reset_at: Instant::now(),
        limit: 1,
        retry_after: Some(Duration::from_secs(9)),
    };
    assert!(matches!(
        answer(denied),
        Admission::Refused(Refusal::LimitExceeded)
    ));
}

#[test]
fn a_request_without_identity_counts_for_nobody() {
    let mut layer = RateLimitLayer::new(Quota::per_second(1), InMemoryBackend::new());
    for _ in 0..5 {
        assert_eq!(status(&mut layer, &HeaderMap::new(), None, "key"), 503);
    }
    let peer = v4(203, 0, 113, 1);
    assert_eq!(status(&mut layer, &HeaderMap::new(), Some(peer), ""), 200);
    assert_eq!(status(&mut layer, &HeaderMap::new(), Some(peer), ""), 429);
}

#[test]
fn builders_keep_what_they_do_not_set() {
    let shared = || MissingClientPolicy::FallbackKey("shared".into());
    // The policy survives a new client address configuration.
    let mut kept = RateLimitLayer::new(Quota::per_second(5), InMemoryBackend::new())
        .with_missing_client_policy(shared())
        .with_client_ip(config_trusting_peer(0));
    assert_eq!(status(&mut kept, &HeaderMap::new(), None, ""), 200);
    // After custom keys it is the default again.
    let mut reset = RateLimitLayer::new(Quota::per_second(5), InMemoryBackend::new())
        .with_missing_client_policy(shared())
        .with_key_extractor()
        .with_client_ip(config_trusting_peer(0));
    assert_eq!(status(&mut reset, &HeaderMap::new(), None, ""), 503);
    // A policy does not bring client addresses back.
    let mut custom = RateLimitLayer::new(Quota::per_second(1), InMemoryBackend::new())
        .with_key_extractor()
        .with_missing_client_policy(MissingClientPolicy::Reject);
    assert_eq!(status(&mut custom, &HeaderMap::new(), None, "a"), 200);
    assert_eq!(status(&mut custom, &HeaderMap::new(), None, "a"), 429);
}

#[test]
fn mapped_and_plain_peers_share_a_bucket() {
    let mut layer = RateLimitLayer::new(Quota::per_second(1), InMemoryBackend::new());
    let mapped = IpAddr::parse("::ffff:203.0.113.9").unwrap();
    assert_eq!(status(&mut layer, &HeaderMap::new(), Some(mapped), ""), 200);
    assert_eq!(
        status(&mut layer, &HeaderMap::new(), Some(v4(203, 0, 113, 9)), ""),
        429
    );
}
