//! Client identity: membership at the edges of a prefix, the walk from the
//! right, and addresses as keys.

use http::{HeaderMap, HeaderName, HeaderValue};

use throttle_kit::client_ip::{
    resolve_client_identity, resolve_forwarded, ClientIpConfig, ClientIpError, ClientIpSource,
    IpNet, MissingClientIdentity, MissingClientPolicy,
};
use throttle_kit::ip::{IpAddr, Ipv4Addr, Ipv6Addr};

fn ip(s: &str) -> IpAddr {
    IpAddr::parse(s).unwrap()
}

fn v6(s: &str) -> Ipv6Addr {
    match ip(s) {
        IpAddr::V6(addr) => addr,
        IpAddr::V4(_) => panic!("{s} is not IPv6"),
    }
}

fn trusted_peer() -> IpAddr {
    IpAddr::V4(Ipv4Addr::new(10, 0, 0, 1))
}

fn client() -> IpAddr {
    IpAddr::V4(Ipv4Addr::new(203, 0, 113, 7))
}

fn spoofed() -> IpAddr {
    IpAddr::V4(Ipv4Addr::new(6, 6, 6, 6))
}

fn config_trusting_peer(hops: usize) -> ClientIpConfig {
    ClientIpConfig {
        trusted_proxies: vec![IpNet::parse("10.0.0.0/8").unwrap()],
        num_trusted_hops: hops,
        trusted_header: None,
    }
}

fn xff_headers(value: &str) -> HeaderMap {
    let mut headers = HeaderMap::new();
    headers.insert("x-forwarded-for", HeaderValue::from_str(value).unwrap());
    headers
}

fn resolved_ip(
    headers: &HeaderMap,
    peer: Option<IpAddr>,
    config: &ClientIpConfig,
) -> Result<(IpAddr, ClientIpSource), MissingClientIdentity> {
    resolve_client_identity(headers, peer, config).map(|resolved| (resolved.ip, resolved.source))
}

#[test]
fn cidr_v4_prefix_zero_contains_all_v4() {
    let net = IpNet::V4 {
        addr: Ipv4Addr::new(0, 0, 0, 0),
        prefix: 0,
    };
    for ip in [
        Ipv4Addr::new(0, 0, 0, 0),
        Ipv4Addr::new(1, 2, 3, 4),
        Ipv4Addr::new(255, 255, 255, 255),
        Ipv4Addr::new(128, 0, 0, 1),
    ] {
        assert!(net.contains(IpAddr::V4(ip)), "{ip:?} in 0.0.0.0/0");
    }
    // Cross-family: a v4 /0 never contains a plain v6 address.
    assert!(!net.contains(IpAddr::V6(v6("2001:db8::1"))));
}

#[test]
fn cidr_v4_slash32_exact_match_only() {
    let net = IpNet::parse("203.0.113.7/32").unwrap();
    assert!(net.contains(client()));
    assert!(!net.contains(IpAddr::V4(Ipv4Addr::new(203, 0, 113, 6))));
    assert!(!net.contains(IpAddr::V4(Ipv4Addr::new(203, 0, 113, 8))));
    assert!(!net.contains(IpAddr::V4(Ipv4Addr::new(203, 0, 112, 7))));
}

#[test]
fn cidr_v4_slash31_contains_both_addresses() {
    let net = IpNet::parse("203.0.113.6/31").unwrap();
    assert!(net.contains(IpAddr::V4(Ipv4Addr::new(203, 0, 113, 6))));
    assert!(net.contains(IpAddr::V4(Ipv4Addr::new(203, 0, 113, 7))));
    assert!(!net.contains(IpAddr::V4(Ipv4Addr::new(203, 0, 113, 5))));
    assert!(!net.contains(IpAddr::V4(Ipv4Addr::new(203, 0, 113, 8))));
}

#[test]
fn cidr_v4_prefix_boundaries() {
    let net = IpNet::parse("10.1.2.3/8").unwrap();
    assert!(net.contains(IpAddr::V4(Ipv4Addr::new(10, 255, 255, 255))));
    assert!(!net.contains(IpAddr::V4(Ipv4Addr::new(11, 0, 0, 0))));

    let net24 = IpNet::parse("192.168.1.0/24").unwrap();
    assert!(net24.contains(IpAddr::V4(Ipv4Addr::new(192, 168, 1, 255))));
    assert!(!net24.contains(IpAddr::V4(Ipv4Addr::new(192, 168, 2, 0))));

    let net1 = IpNet::V4 {
        addr: Ipv4Addr::new(0, 0, 0, 0),
        prefix: 1,
    };
    assert!(net1.contains(IpAddr::V4(Ipv4Addr::new(127, 255, 0, 1))));
    assert!(!net1.contains(IpAddr::V4(Ipv4Addr::new(128, 0, 0, 0))));
}

#[test]
fn cidr_v6_full_and_zero() {
    let host = IpNet::parse("2001:db8::1/128").unwrap();
    assert!(host.contains(IpAddr::V6(v6("2001:db8::1"))));
    assert!(!host.contains(IpAddr::V6(v6("2001:db8::2"))));

    let everything = IpNet::V6 {
        addr: Ipv6Addr::new(0, 0, 0, 0, 0, 0, 0, 0),
        prefix: 0,
    };
    assert!(everything.contains(IpAddr::V6(v6("2001:db8::1"))));
    assert!(everything.contains(IpAddr::V6(Ipv6Addr::new(0, 0, 0, 0, 0, 0, 0, 1))));
}

#[test]
fn cidr_v6_prefix_spot_checks() {
    let net = IpNet::parse("2001:db8::/32").unwrap();
    assert!(net.contains(IpAddr::V6(v6("2001:db8::1234:5678"))));
    assert!(net.contains(IpAddr::V6(v6("2001:db8:ffff::"))));
    assert!(!net.contains(IpAddr::V6(v6("2001:db9::"))));
    assert!(!net.contains(IpAddr::V6(v6("2001:db7::"))));

    let fc = IpNet::parse("fc00::/7").unwrap();
    assert!(fc.contains(IpAddr::V6(v6("fd00::1"))));
    assert!(fc.contains(IpAddr::V6(v6("fc00::"))));
    assert!(!fc.contains(IpAddr::V6(v6("fe00::1"))));
}

#[test]
fn cidr_v4_mapped_v6_treated_as_v4() {
    let net = IpNet::parse("203.0.113.0/24").unwrap();
    let mapped: IpAddr = ip("::ffff:203.0.113.42");
    assert!(net.contains(mapped));

    // Plain v6 is never in a v4 net, and v4 is never in a plain v6 net.
    assert!(!net.contains(IpAddr::V6(v6("2001:db8::1"))));
    let v6net = IpNet::parse("2001:db8::/32").unwrap();
    assert!(!v6net.contains(client()));
}

#[test]
fn cidr_direct_literal_struct_construction_masks_host_bits() {
    // Pub fields mean callers can construct with host bits set;
    // contains() must still mask.
    let net = IpNet::V4 {
        addr: Ipv4Addr::new(10, 1, 2, 3),
        prefix: 8,
    };
    assert!(net.contains(IpAddr::V4(Ipv4Addr::new(10, 255, 0, 1))));
    assert!(!net.contains(IpAddr::V4(Ipv4Addr::new(11, 0, 0, 1))));

    let net = IpNet::V6 {
        addr: v6("2001:db8:1::1"),
        prefix: 32,
    };
    assert!(net.contains(IpAddr::V6(v6("2001:db8:ffff::"))));
    assert!(!net.contains(IpAddr::V6(v6("2001:db9::"))));
}

#[test]
fn parse_bare_ip_implies_max_prefix() {
    let v4 = IpNet::parse("203.0.113.7").unwrap();
    assert_eq!(
        v4,
        IpNet::V4 {
            addr: Ipv4Addr::new(203, 0, 113, 7),
            prefix: 32
        }
    );
    let net = IpNet::parse("2001:db8::1").unwrap();
    assert_eq!(
        net,
        IpNet::V6 {
            addr: v6("2001:db8::1"),
            prefix: 128
        }
    );
}

#[test]
fn parse_accepts_prefix_forms_and_trims() {
    assert_eq!(
        IpNet::parse("10.0.0.0/8").unwrap(),
        IpNet::V4 {
            addr: Ipv4Addr::new(10, 0, 0, 0),
            prefix: 8
        }
    );
    assert_eq!(
        IpNet::parse(" 10.0.0.0 / 8 ").unwrap(),
        IpNet::V4 {
            addr: Ipv4Addr::new(10, 0, 0, 0),
            prefix: 8
        }
    );
    assert_eq!(
        IpNet::parse("fc00::/7").unwrap(),
        IpNet::V6 {
            addr: v6("fc00::"),
            prefix: 7
        }
    );
}

#[test]
fn parse_normalizes_v4_mapped() {
    let net = IpNet::parse("::ffff:10.0.0.5").unwrap();
    assert_eq!(
        net,
        IpNet::V4 {
            addr: Ipv4Addr::new(10, 0, 0, 5),
            prefix: 32
        }
    );
    // Compat-form ::10.0.0.5 (not v4-mapped) stays IPv6.
    let compat = IpNet::parse("::10.0.0.5").unwrap();
    assert!(matches!(compat, IpNet::V6 { .. }));
}

#[test]
fn parse_rejects_invalid_input() {
    for bad in [
        "1.2.3.4/33",
        "1.2.3.4/-1",
        "1.2.3.4/",
        "1.2.3.4/x",
        "2001:db8::/129",
        "not-an-ip",
        "1.2.3",
        "",
        "10.0.0.0/8/8",
        "/8",
    ] {
        let err = IpNet::parse(bad).unwrap_err();
        assert!(
            matches!(
                err,
                ClientIpError::InvalidIp(_) | ClientIpError::InvalidPrefix(_)
            ),
            "{bad:?} should be rejected"
        );
    }
    assert_eq!(
        IpNet::parse("1.2.3.4/33").unwrap_err(),
        ClientIpError::InvalidPrefix("33".to_string())
    );
    assert_eq!(
        IpNet::parse("2001:db8::/129").unwrap_err(),
        ClientIpError::InvalidPrefix("129".to_string())
    );
    assert_eq!(
        IpNet::parse("nope").unwrap_err(),
        ClientIpError::InvalidIp("nope".to_string())
    );
}

#[test]
fn errors_of_networks_name_the_text_as_written() {
    assert_eq!(
        IpNet::parse("10.0.0.0/ 300 ").unwrap_err(),
        ClientIpError::InvalidPrefix(" 300 ".to_string())
    );
    assert_eq!(
        IpNet::parse(" x /8").unwrap_err(),
        ClientIpError::InvalidIp(" x ".to_string())
    );
    // A prefix is read before the address.
    assert_eq!(
        IpNet::parse("x/y").unwrap_err(),
        ClientIpError::InvalidPrefix("y".to_string())
    );
    assert_eq!(
        IpNet::parse("10.0.0.0/+8").unwrap(),
        IpNet::parse("10.0.0.0/8").unwrap()
    );
    assert_eq!(
        ClientIpError::InvalidIp("nope".to_string()).to_string(),
        "invalid IP address: nope"
    );
    assert_eq!(
        ClientIpError::InvalidPrefix("33".to_string()).to_string(),
        "invalid prefix length: 33"
    );
}

#[test]
fn prefixes_mask_the_host_bits_of_a_network() {
    assert_eq!(
        IpNet::parse("10.1.2.3/9").unwrap(),
        IpNet::V4 {
            addr: Ipv4Addr::new(10, 0, 0, 0),
            prefix: 9
        }
    );
    assert_eq!(
        IpNet::parse("2001:db8:ffff:ffff::1/33").unwrap(),
        IpNet::V6 {
            addr: v6("2001:db8:8000::"),
            prefix: 33
        }
    );
    for prefix in 0..=32u32 {
        let net = IpNet::parse(&format!("203.0.113.7/{prefix}")).unwrap();
        assert!(net.contains(client()));
        if prefix > 0 {
            // The last bit of the prefix is the first one that counts.
            let flipped = 1u32 << (32 - prefix);
            let bits = Ipv4Addr::new(203, 0, 113, 7).bits ^ flipped;
            assert!(!net.contains(IpAddr::V4(Ipv4Addr { bits })));
        }
    }
    // A prefix beyond the width leaves nothing free.
    let exact = IpNet::V4 {
        addr: Ipv4Addr::new(10, 0, 0, 1),
        prefix: 200,
    };
    assert!(exact.contains(trusted_peer()));
    assert!(!exact.contains(client()));
}

#[test]
fn req100_untrusted_peer_ignores_spoofed_xff() {
    let config = ClientIpConfig {
        trusted_proxies: vec![IpNet::parse("192.168.0.0/16").unwrap()],
        num_trusted_hops: 1,
        trusted_header: None,
    };
    // Peer 10.0.0.1 is NOT in the trusted list, whatever the header says.
    let headers = xff_headers(&format!(
        "{}, {}",
        spoofed().to_string(),
        client().to_string()
    ));
    let (ip, source) = resolved_ip(&headers, Some(trusted_peer()), &config).unwrap();
    assert_eq!(ip, trusted_peer());
    assert_eq!(source, ClientIpSource::PeerSocket);
}

#[test]
fn req100_default_config_ignores_headers() {
    // Secure by default: empty trusted_proxies, header never consulted.
    let config = ClientIpConfig::default();
    let headers = xff_headers(&spoofed().to_string());
    let (ip, source) = resolved_ip(&headers, Some(trusted_peer()), &config).unwrap();
    assert_eq!(ip, trusted_peer());
    assert_eq!(source, ClientIpSource::PeerSocket);
}

#[test]
fn defaults_are_safe() {
    let config = ClientIpConfig::default();
    assert!(config.trusted_proxies.is_empty());
    assert_eq!(config.num_trusted_hops, 1);
    assert!(config.trusted_header.is_none());
    assert_eq!(MissingClientPolicy::default(), MissingClientPolicy::Reject);
}

#[test]
fn req101_right_to_left_walk_skips_hops() {
    // nginx (peer 10.0.0.1) appended the ALB's address; hops=1 skips it.
    let config = config_trusting_peer(1);
    let headers = xff_headers(&format!(
        "{}, {}, 10.0.0.254",
        spoofed().to_string(),
        client().to_string()
    ));
    let (ip, source) = resolved_ip(&headers, Some(trusted_peer()), &config).unwrap();
    assert_eq!(ip, client());
    assert_eq!(source, ClientIpSource::ForwardedHeader);
}

#[test]
fn req101_chain_longer_than_hops_resolves_entry() {
    let config = config_trusting_peer(2);
    let headers = xff_headers(&format!(
        "{}, {}, 10.0.0.253, 10.0.0.254",
        spoofed().to_string(),
        client().to_string()
    ));
    let (ip, source) = resolved_ip(&headers, Some(trusted_peer()), &config).unwrap();
    assert_eq!(ip, client());
    assert_eq!(source, ClientIpSource::ForwardedHeader);
}

#[test]
fn req101_chain_exactly_hops_falls_back_to_peer() {
    let config = config_trusting_peer(2);
    let headers = xff_headers(&format!("{}, 10.0.0.254", client().to_string()));
    let (ip, source) = resolved_ip(&headers, Some(trusted_peer()), &config).unwrap();
    assert_eq!(ip, trusted_peer());
    assert_eq!(source, ClientIpSource::PeerSocket);
}

#[test]
fn req101_hops_zero_takes_rightmost_entry() {
    // Single trusted proxy: XFF is just the client it appended.
    let config = config_trusting_peer(0);
    let headers = xff_headers(&client().to_string());
    let (ip, source) = resolved_ip(&headers, Some(trusted_peer()), &config).unwrap();
    assert_eq!(ip, client());
    assert_eq!(source, ClientIpSource::ForwardedHeader);

    // With hops=0, rightmost garbage still falls back: no leftward walk.
    let headers = xff_headers("garbage");
    let (ip, source) = resolved_ip(&headers, Some(trusted_peer()), &config).unwrap();
    assert_eq!(ip, trusted_peer());
    assert_eq!(source, ClientIpSource::PeerSocket);
}

#[test]
fn req101_malformed_chosen_entry_falls_back_no_leftward_walk() {
    // The chosen entry (second from right; the rightmost was appended by
    // our direct peer) is garbage: fall back to the peer.
    let config = config_trusting_peer(1);
    let headers = xff_headers(&format!(
        "{}, not-an-ip, 10.0.0.254",
        spoofed().to_string()
    ));
    let (ip, source) = resolved_ip(&headers, Some(trusted_peer()), &config).unwrap();
    assert_eq!(ip, trusted_peer());
    assert_eq!(source, ClientIpSource::PeerSocket);
}

#[test]
fn req101_trusted_header_override() {
    // Dedicated headers (CF-Connecting-IP) carry only the client IP, so
    // the rightmost entry IS the client: num_trusted_hops = 0.
    let config = ClientIpConfig {
        trusted_proxies: vec![IpNet::parse("10.0.0.0/8").unwrap()],
        num_trusted_hops: 0,
        trusted_header: Some("cf-connecting-ip".parse().unwrap()),
    };
    let mut headers = xff_headers(&spoofed().to_string());
    headers.insert(
        "cf-connecting-ip",
        HeaderValue::from_str(&client().to_string()).unwrap(),
    );
    let (ip, source) = resolved_ip(&headers, Some(trusted_peer()), &config).unwrap();
    assert_eq!(ip, client());
    assert_eq!(source, ClientIpSource::ForwardedHeader);

    // Same trust rules apply: missing override header falls back to the
    // peer (the spoofed XFF is not consulted either).
    let mut headers = xff_headers(&client().to_string());
    headers.remove("cf-connecting-ip");
    let (ip, source) = resolved_ip(&headers, Some(trusted_peer()), &config).unwrap();
    assert_eq!(ip, trusted_peer());
    assert_eq!(source, ClientIpSource::PeerSocket);

    // Malformed override header value: peer fallback.
    let headers = xff_headers(&client().to_string());
    let mut headers = headers.clone();
    headers.insert("cf-connecting-ip", HeaderValue::from_static("not-an-ip"));
    let (ip, source) = resolved_ip(&headers, Some(trusted_peer()), &config).unwrap();
    assert_eq!(ip, trusted_peer());
    assert_eq!(source, ClientIpSource::PeerSocket);
}

#[test]
fn header_names_are_found_whatever_their_case() {
    let mut config = config_trusting_peer(0);
    config.trusted_header = Some("True-Client-IP".parse().unwrap());
    let mut headers = HeaderMap::new();
    headers.append("true-client-ip", HeaderValue::from_static("203.0.113.7"));
    headers.append("true-client-ip", HeaderValue::from_static("6.6.6.6"));
    // Of several values the first one counts.
    let (ip, source) = resolved_ip(&headers, Some(trusted_peer()), &config).unwrap();
    assert_eq!(ip, client());
    assert_eq!(source, ClientIpSource::ForwardedHeader);
    // A name that a map can hold but no text can look up is found by itself.
    config.trusted_header = Some(HeaderName::from_static("x\"y"));
    headers.insert(
        HeaderName::from_static("x\"y"),
        HeaderValue::from_static("6.6.6.6"),
    );
    let (ip, source) = resolved_ip(&headers, Some(trusted_peer()), &config).unwrap();
    assert_eq!(ip, spoofed());
    assert_eq!(source, ClientIpSource::ForwardedHeader);
    // A name that the map does not hold is found nowhere.
    config.trusted_header = Some(HeaderName::from_static("x-y"));
    let (ip, source) = resolved_ip(&headers, Some(trusted_peer()), &config).unwrap();
    assert_eq!(ip, trusted_peer());
    assert_eq!(source, ClientIpSource::PeerSocket);
}

#[test]
fn req101_ipv6_chain_entry_resolves() {
    let config = ClientIpConfig {
        trusted_proxies: vec![IpNet::parse("fd00::/8").unwrap()],
        num_trusted_hops: 1,
        trusted_header: None,
    };
    let peer: IpAddr = ip("fd00::1");
    let client: IpAddr = ip("2001:db8::42");
    let headers = xff_headers(&format!(
        "{}, {}, fd00::99",
        spoofed().to_string(),
        client.to_string()
    ));
    let (ip, source) = resolved_ip(&headers, Some(peer), &config).unwrap();
    assert_eq!(ip, client);
    assert_eq!(source, ClientIpSource::ForwardedHeader);
}

#[test]
fn resolver_v4_mapped_peer_matches_v4_trust() {
    // Dual-stack socket reports the peer as ::ffff:10.0.0.1: treated as
    // IPv4, so the 10.0.0.0/8 trust entry applies.
    let config = config_trusting_peer(0);
    let peer: IpAddr = ip("::ffff:10.0.0.1");
    let headers = xff_headers("::ffff:203.0.113.7");
    let (ip, source) = resolved_ip(&headers, Some(peer), &config).unwrap();
    assert_eq!(ip, client()); // normalized to plain v4
    assert_eq!(source, ClientIpSource::ForwardedHeader);
}

#[test]
fn req102_missing_header_falls_back_to_peer() {
    let config = config_trusting_peer(1);
    let headers = HeaderMap::new();
    let (ip, source) = resolved_ip(&headers, Some(trusted_peer()), &config).unwrap();
    assert_eq!(ip, trusted_peer());
    assert_eq!(source, ClientIpSource::PeerSocket);
}

#[test]
fn req102_empty_xff_falls_back_to_peer() {
    let config = config_trusting_peer(1);
    let headers = xff_headers("");
    let (ip, source) = resolved_ip(&headers, Some(trusted_peer()), &config).unwrap();
    assert_eq!(ip, trusted_peer());
    assert_eq!(source, ClientIpSource::PeerSocket);
}

#[test]
fn regression_v4mapped_spoof_after_empty_entries() {
    // The right-to-left walk must skip the empty (malformed) entries and
    // normalize the v4-mapped IPv6 address to plain IPv4.
    let config = config_trusting_peer(3);
    let headers = xff_headers("::ffff:6.6.6.6,,,");
    let (ip, source) = resolved_ip(&headers, Some(trusted_peer()), &config).unwrap();
    assert_eq!(ip, spoofed());
    assert_eq!(source, ClientIpSource::ForwardedHeader);
}

#[test]
fn req102_whitespace_and_junk_entries_fall_back_to_peer() {
    let config = config_trusting_peer(1);
    // "  " trims to an empty (malformed) chosen entry.
    let headers = xff_headers("   , 10.0.0.254");
    let (ip, source) = resolved_ip(&headers, Some(trusted_peer()), &config).unwrap();
    assert_eq!(ip, trusted_peer());
    assert_eq!(source, ClientIpSource::PeerSocket);

    // Only-whitespace chain.
    let headers = xff_headers("   ");
    let (ip, source) = resolved_ip(&headers, Some(trusted_peer()), &config).unwrap();
    assert_eq!(ip, trusted_peer());
    assert_eq!(source, ClientIpSource::PeerSocket);
}

#[test]
fn req102_non_utf8_header_value_falls_back_to_peer() {
    let config = config_trusting_peer(0);
    let mut headers = HeaderMap::new();
    // 0xff/0xfe are legal header bytes (obs-text) but not valid UTF-8.
    headers.insert(
        "x-forwarded-for",
        HeaderValue::from_bytes(&[0xff, 0xfe, 0x80]).unwrap(),
    );
    let (ip, source) = resolved_ip(&headers, Some(trusted_peer()), &config).unwrap();
    assert_eq!(ip, trusted_peer());
    assert_eq!(source, ClientIpSource::PeerSocket);
}

#[test]
fn req103_no_peer_is_missing_identity() {
    let config = config_trusting_peer(1);
    let headers = xff_headers(&client().to_string());
    assert_eq!(
        resolve_client_identity(&headers, None, &config),
        Err(MissingClientIdentity)
    );
    // Even with no config at all.
    assert_eq!(
        resolve_client_identity(&HeaderMap::new(), None, &ClientIpConfig::default()),
        Err(MissingClientIdentity)
    );
}

#[test]
fn spoofed_entries_in_front_change_nothing() {
    let config = config_trusting_peer(1);
    let chain = "203.0.113.7, 10.0.0.254";
    let plain = resolve_forwarded(Some(chain), Some(trusted_peer()), &config);
    for front in ["", ",", "6.6.6.6", "6.6.6.6, ::1", "   ", "x,y,z"] {
        let header = format!("{front},{chain}");
        assert_eq!(
            resolve_forwarded(Some(&header), Some(trusted_peer()), &config),
            plain
        );
    }
}

/// Entries as a hostile client would write them.
const ENTRIES: [&str; 14] = [
    "",
    "   ",
    "6.6.6.6",
    "1.2.3",
    "999.999.999.999",
    "garbage",
    "::1",
    "::ffff:6.6.6.6",
    "fd00::dead",
    "2001:db8::1",
    "203.0.113.[7",
    "\t10.9.8.7 ",
    "1.2.3.4, 5.6.7.8",
    "%,;",
];

/// Some chains of up to seven entries.
fn chains() -> Vec<String> {
    let mut out: Vec<String> = Vec::new();
    let mut state: u64 = 0x2545_f491_4f6c_dd1d;
    for _ in 0..512 {
        let mut entries: Vec<&str> = Vec::new();
        state ^= state << 13;
        state ^= state >> 7;
        state ^= state << 17;
        let mut bits = state;
        let count = bits % 8;
        bits /= 8;
        for _ in 0..count {
            entries.push(ENTRIES[(bits % 14) as usize]);
            bits /= 14;
        }
        out.push(entries.join(","));
    }
    out
}

/// The walk from the right as an explicit loop.
fn oracle(header: &str, hops: usize, peer: IpAddr) -> (IpAddr, ClientIpSource) {
    if !header.is_ascii() {
        return (peer, ClientIpSource::PeerSocket);
    }
    let entries: Vec<&str> = header.split(',').map(str::trim).collect();
    let mut skipped = 0usize;
    for entry in entries.iter().rev() {
        if skipped < hops {
            skipped += 1;
            continue;
        }
        return match IpAddr::parse(entry) {
            Some(IpAddr::V6(v6)) => match v6.to_ipv4_mapped() {
                Some(v4) => (IpAddr::V4(v4), ClientIpSource::ForwardedHeader),
                None => (IpAddr::V6(v6), ClientIpSource::ForwardedHeader),
            },
            Some(ip) => (ip, ClientIpSource::ForwardedHeader),
            None => (peer, ClientIpSource::PeerSocket),
        };
    }
    (peer, ClientIpSource::PeerSocket)
}

#[test]
fn prop_adversarial_chain_matches_oracle() {
    for header in chains() {
        for hops in 0usize..6 {
            // The peer is trusted; hops vary freely, entries are hostile.
            let config = config_trusting_peer(hops);
            let headers = xff_headers(&header);
            let actual = resolved_ip(&headers, Some(trusted_peer()), &config);
            assert_eq!(
                actual,
                Ok(oracle(&header, hops, trusted_peer())),
                "{header:?} with {hops} hops"
            );
        }
    }
}

#[test]
fn prop_untrusted_peer_always_peer_socket() {
    for header in chains() {
        for hops in 0usize..6 {
            let config = ClientIpConfig {
                trusted_proxies: vec![IpNet::parse("192.168.0.0/16").unwrap()],
                num_trusted_hops: hops,
                trusted_header: None,
            };
            let headers = xff_headers(&header);
            let resolved =
                resolve_client_identity(&headers, Some(trusted_peer()), &config).unwrap();
            assert_eq!(resolved.ip, trusted_peer());
            assert_eq!(resolved.source, ClientIpSource::PeerSocket);
        }
    }
}

#[test]
fn prop_resolution_never_panics() {
    let mut state: u64 = 88_172_645_463_325_252;
    for round in 0..2_000usize {
        let mut raw: Vec<u8> = Vec::new();
        for _ in 0..(round % 64) {
            state ^= state << 13;
            state ^= state >> 7;
            state ^= state << 17;
            raw.push((state >> 24) as u8);
        }
        let nets: Vec<IpNet> = ["10.0.0.0/8", "172.16.0.0/12", "fc00::/7"]
            .iter()
            .take(round % 3)
            .map(|s| IpNet::parse(s).unwrap())
            .collect();
        let config = ClientIpConfig {
            trusted_proxies: nets,
            num_trusted_hops: round % 8,
            trusted_header: None,
        };
        let mut headers = HeaderMap::new();
        if let Ok(value) = HeaderValue::from_bytes(&raw) {
            headers.insert("x-forwarded-for", value);
        }
        let peer: IpAddr = if round % 2 == 0 {
            ip("fd00::1")
        } else {
            trusted_peer()
        };
        let _ = resolve_client_identity(&headers, Some(peer), &config);
        let _ = resolve_client_identity(&headers, None, &config);
    }
}
