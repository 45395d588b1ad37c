//! Addresses and their texts.

use throttle_kit::ip::{normalize_ip, IpAddr, Ipv4Addr, Ipv6Addr};
use throttle_kit::text::white_space;

#[test]
fn ipv4_texts_are_read_strictly() {
    assert_eq!(
        IpAddr::parse("203.0.113.7"),
        Some(IpAddr::V4(Ipv4Addr::new(203, 0, 113, 7)))
    );
    assert_eq!(
        IpAddr::parse("255.255.255.255"),
        Some(IpAddr::V4(Ipv4Addr { bits: u32::MAX }))
    );
    for bad in [
        "", "1", "1.2.3", "1.2.3.4.5", "1.2.3.", ".1.2.3", "1..2.3", "256.1.1.1", "01.2.3.4",
        "1.2.3.04", "1.2.3.0000", "1.2.3.4 ", " 1.2.3.4", "1.2.3.-4", "1.2.3.+4", "a.b.c.d",
        "1.2.3.4/8", "0x1.2.3.4",
    ] {
        assert_eq!(IpAddr::parse(bad), None, "{bad:?}");
    }
}

#[test]
fn ipv6_texts_are_read_with_one_gap() {
    let all = Ipv6Addr::new(1, 2, 3, 4, 5, 6, 7, 8);
    assert_eq!(IpAddr::parse("1:2:3:4:5:6:7:8"), Some(IpAddr::V6(all)));
    assert_eq!(
        IpAddr::parse("2001:DB8::aBcD"),
        Some(IpAddr::V6(Ipv6Addr::new(0x2001, 0xdb8, 0, 0, 0, 0, 0, 0xabcd)))
    );
    assert_eq!(IpAddr::parse("::"), Some(IpAddr::V6(Ipv6Addr { bits: 0 })));
    assert_eq!(
        IpAddr::parse("1:2:3:4:5:6:1.2.3.4"),
        Some(IpAddr::V6(Ipv6Addr::new(1, 2, 3, 4, 5, 6, 0x102, 0x304)))
    );
    assert_eq!(
        IpAddr::parse("1::7:8"),
        Some(IpAddr::V6(Ipv6Addr::new(1, 0, 0, 0, 0, 0, 7, 8)))
    );
    assert_eq!(
        IpAddr::parse("1:2:3:4:5:6:7::"),
        Some(IpAddr::V6(Ipv6Addr::new(1, 2, 3, 4, 5, 6, 7, 0)))
    );
    for bad in [
        ":", ":::", "1:2:3:4:5:6:7", "1:2:3:4:5:6:7:8:9", "1::2::3", "12345::", "g::", "1:",
        ":1", "1:2:3:4:5:6:7:8::", "::1:2:3:4:5:6:7:8", "1.2.3.4::", "::1.2.3.4:5", "::1.2.3",
        "1:2:3:4:5:6:7:1.2.3.4", "fe80::1%eth0", "[::1]", "::ffff:1.2.3.04",
    ] {
        assert_eq!(IpAddr::parse(bad), None, "{bad:?}");
    }
}

#[test]
fn ipv6_texts_leave_out_the_longest_run_of_zeros() {
    for (g, text) in [
        ([0u16, 0, 0, 0, 0, 0, 0, 0], "::"),
        ([0, 0, 0, 0, 0, 0, 0, 1], "::1"),
        ([1, 0, 0, 0, 0, 0, 0, 0], "1::"),
        ([0x2001, 0xdb8, 0, 0, 0, 0, 0, 1], "2001:db8::1"),
        ([0x2001, 0xdb8, 0, 0, 1, 0, 0, 1], "2001:db8::1:0:0:1"),
        ([0x2001, 0, 0, 1, 0, 0, 0, 1], "2001:0:0:1::1"),
        ([1, 0, 2, 3, 4, 5, 6, 7], "1:0:2:3:4:5:6:7"),
        ([0, 1, 2, 3, 4, 5, 6, 0], "0:1:2:3:4:5:6:0"),
        ([0xabcd, 0xef01, 0x23, 0x4567, 0x89ab, 0xcdef, 0, 0], "abcd:ef01:23:4567:89ab:cdef::"),
        ([0xffff; 8], "ffff:ffff:ffff:ffff:ffff:ffff:ffff:ffff"),
        ([0, 0, 0, 0, 0, 0xffff, 0x0102, 0xfe00], "::ffff:1.2.254.0"),
        ([0, 0, 0, 0, 0, 0, 0x0102, 0x0304], "::102:304"),
    ] {
        let addr = Ipv6Addr::new(g[0], g[1], g[2], g[3], g[4], g[5], g[6], g[7]);
        assert_eq!(addr.to_string(), text);
        assert_eq!(IpAddr::parse(text), Some(IpAddr::V6(addr)));
    }
}

#[test]
fn texts_stand_for_their_addresses() {
    let mut state: u64 = 0x9e37_79b9_7f4a_7c15;
    let mut next = || {
        state ^= state << 13;
        state ^= state >> 7;
        state ^= state << 17;
        state
    };
    for _ in 0..2_000 {
        let v4 = IpAddr::V4(Ipv4Addr { bits: next() as u32 });
        assert_eq!(IpAddr::parse(&v4.to_string()), Some(v4));
        let mut bits: u128 = 0;
        let shape = next();
        for i in 0..8 {
            let segment = if shape >> i & 1 == 0 { 0 } else { next() & 0xffff };
            bits = bits << 16 | segment as u128;
        }
        let v6 = IpAddr::V6(Ipv6Addr { bits });
        let text = v6.to_string();
        assert!(text.len() <= 45);
        assert_eq!(IpAddr::parse(&text), Some(v6), "{text}");
    }
}

#[test]
fn mapped_addresses_are_ipv4() {
    let mapped = IpAddr::parse("::ffff:203.0.113.9").unwrap();
    let plain = IpAddr::V4(Ipv4Addr::new(203, 0, 113, 9));
    assert_eq!(normalize_ip(mapped), plain);
    assert_eq!(normalize_ip(plain), plain);
    assert_eq!(normalize_ip(mapped).to_string(), "203.0.113.9");
    let near = IpAddr::parse("::fffe:203.0.113.9").unwrap();
    assert_eq!(normalize_ip(near), near);
}

#[test]
fn white_space_is_that_of_the_standard_library() {
    for code in 0..=0x10_ffffu32 {
        if let Some(c) = char::from_u32(code) {
            assert_eq!(white_space(c), c.is_whitespace(), "{code:x}");
        }
    }
}
