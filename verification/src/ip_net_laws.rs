//! What membership in a network promises.
use vstd::prelude::*;

use crate::ip;
use crate::ip::{IpAddr, Ipv4Addr, Ipv6Addr};
use crate::ip_format;
use crate::ip_laws;
use crate::ip_net;
use crate::ip_net::{IpNet, NetText};
use crate::text;
use crate::text_laws;

verus! {

proof fn lemma_block(width: nat, prefix: nat, a: nat)
    ensures
        ip_net::block_size(width, prefix) > 0,
        ip_net::network_part(width, prefix, a) <= a,
        ip_net::same_network(width, prefix, ip_net::network_part(width, prefix, a), a),
{
    let m = ip_net::block_size(width, prefix) as int;
    vstd::arithmetic::power2::lemma_pow2_pos(ip_net::host_bits(width, prefix));
    vstd::arithmetic::div_mod::lemma_fundamental_div_mod(a as int, m);
    vstd::arithmetic::div_mod::lemma_mod_bound(a as int, m);
    let q = a as int / m;
    assert(0 <= q) by (nonlinear_arith)
        requires
            q == a as int / m,
            a >= 0,
            m > 0,
    ;
    assert((m * q) / m == q) by (nonlinear_arith)
        requires
            m > 0,
    ;
    assert(m * q >= 0) by (nonlinear_arith)
        requires
            m > 0,
            q >= 0,
    ;
}

/// The bits of a network's address beyond the prefix do not matter.
pub proof fn law_host_bits_do_not_matter(a: IpNet, b: IpNet, probe: IpAddr)
    requires
        match (a, b) {
            (IpNet::V4 { addr: x, prefix: p }, IpNet::V4 { addr: y, prefix: q }) => p == q && x.bits
                == ip_net::network_part(32, q as nat, y.bits as nat),
            (IpNet::V6 { addr: x, prefix: p }, IpNet::V6 { addr: y, prefix: q }) => p == q && x.bits
                == ip_net::network_part(128, q as nat, y.bits as nat),
            _ => false,
        },
    ensures
        a.covers(probe) == b.covers(probe),
{
    match b {
        IpNet::V4 { addr, prefix } => {
            lemma_block(32, prefix as nat, addr.bits as nat);
        },
        IpNet::V6 { addr, prefix } => {
            lemma_block(128, prefix as nat, addr.bits as nat);
        },
    }
}

/// Membership is exact at the edge: the members of an IPv4 network are the
/// addresses in one block that begins at the network's address with its host
/// bits cleared.
pub proof fn law_v4_members_are_one_block(addr: Ipv4Addr, prefix: u8, probe: Ipv4Addr)
    ensures
        ({
            let first = ip_net::network_part(32, prefix as nat, addr.bits as nat);
            (IpNet::V4 { addr, prefix }).covers(IpAddr::V4(probe)) <==> first <= probe.bits < first
                + ip_net::block_size(32, prefix as nat)
        }),
{
    lemma_one_block(32, prefix as nat, addr.bits as nat, probe.bits as nat);
}

/// Membership is exact at the edge: the members of an IPv6 network are the
/// addresses in one block that begins at the network's address with its host
/// bits cleared, but for mapped IPv4 addresses.
pub proof fn law_v6_members_are_one_block(addr: Ipv6Addr, prefix: u8, probe: Ipv6Addr)
    requires
        !probe.maps_v4(),
    ensures
        ({
            let first = ip_net::network_part(128, prefix as nat, addr.bits as nat);
            (IpNet::V6 { addr, prefix }).covers(IpAddr::V6(probe)) <==> first <= probe.bits < first
                + ip_net::block_size(128, prefix as nat)
        }),
{
    lemma_one_block(128, prefix as nat, addr.bits as nat, probe.bits as nat);
}

proof fn lemma_one_block(width: nat, prefix: nat, a: nat, b: nat)
    ensures
        ({
            let first = ip_net::network_part(width, prefix, a);
            ip_net::same_network(width, prefix, a, b) <==> first <= b < first + ip_net::block_size(
                width,
                prefix,
            )
        }),
{
    lemma_block(width, prefix, a);
    let m = ip_net::block_size(width, prefix) as int;
    let first = ip_net::network_part(width, prefix, a) as int;
    vstd::arithmetic::div_mod::lemma_fundamental_div_mod(a as int, m);
    vstd::arithmetic::div_mod::lemma_fundamental_div_mod(b as int, m);
    vstd::arithmetic::div_mod::lemma_mod_bound(b as int, m);
    let qa = a as int / m;
    let qb = b as int / m;
    assert(first == m * qa);
    if qa == qb {
        assert(m * qa == m * qb);
    } else if qb < qa {
        assert(m * qb + m <= m * qa) by (nonlinear_arith)
            requires
                qb + 1 <= qa,
                m > 0,
        ;
    } else {
        assert(m * qa + m <= m * qb) by (nonlinear_arith)
            requires
                qa + 1 <= qb,
                m > 0,
        ;
    }
}

/// The prefix `/0` covers the whole address family.
pub proof fn law_zero_prefix_covers_the_family(v4: Ipv4Addr, v6: Ipv6Addr, probe: IpAddr)
    ensures
        (IpNet::V4 { addr: v4, prefix: 0 }).covers(probe) <==> ip::normalized(probe) is V4,
        (IpNet::V6 { addr: v6, prefix: 0 }).covers(probe) <==> ip::normalized(probe) is V6,
{
    vstd::arithmetic::power2::lemma2_to64();
    vstd::arithmetic::power2::lemma2_to64_rest();
    vstd::arithmetic::power2::lemma_pow2_adds(64, 64);
    assert(ip_net::block_size(32, 0) == 0x1_0000_0000);
    assert(ip_net::block_size(128, 0) == 0x1_0000_0000_0000_0000_0000_0000_0000_0000);
}

/// A prefix of the full width covers its own address alone.
pub proof fn law_full_prefix_covers_one_address(v4: Ipv4Addr, v6: Ipv6Addr, probe: IpAddr)
    ensures
        (IpNet::V4 { addr: v4, prefix: 32 }).covers(probe) <==> ip::normalized(probe)
            == IpAddr::V4(v4),
        (IpNet::V6 { addr: v6, prefix: 128 }).covers(probe) <==> ip::normalized(probe)
            == IpAddr::V6(v6),
{
    vstd::arithmetic::power2::lemma2_to64();
    assert(ip_net::block_size(32, 32) == 1);
    assert(ip_net::block_size(128, 128) == 1);
}

/// A mapped IPv4 address belongs to the networks that its IPv4 address belongs
/// to, and to no IPv6 network.
pub proof fn law_mapped_address_counts_as_v4(net: IpNet, v6: Ipv6Addr)
    requires
        v6.maps_v4(),
    ensures
        net.covers(IpAddr::V6(v6)) == net.covers(
            IpAddr::V4(Ipv4Addr { bits: (v6.bits % 0x1_0000_0000) as u32 }),
        ),
        net is V6 ==> !net.covers(IpAddr::V6(v6)),
{
}

/// The families do not mix.
pub proof fn law_families_do_not_mix(net: IpNet, v4: Ipv4Addr, v6: Ipv6Addr)
    ensures
        net is V6 ==> !net.covers(IpAddr::V4(v4)),
        net is V4 && !v6.maps_v4() ==> !net.covers(IpAddr::V6(v6)),
{
}

/// A network that was read from a text covers the address in that text.
pub proof fn law_read_network_covers_its_address(s: Seq<char>)
    requires
        ip_net::net_of_text(s) is Net,
    ensures
        ({
            let written = ip::ip_of_text(text::trim(s.take(text::first_index(s, '/') as int)));
            written is Some && (ip_net::net_of_text(s)->Net_0).covers(written->0)
        }),
{
    text::lemma_first_index(s, '/');
    let slash = text::first_index(s, '/') as int;
    if slash >= s.len() {
        assert(s.take(slash) =~= s);
    } else {
        let prefix = ip_net::small_number(text::trim(s.skip(slash + 1)))->0;
        match ip::normalized(ip::ip_of_text(text::trim(s.take(slash)))->0) {
            IpAddr::V4(v4) => {
                lemma_block(32, prefix, v4.bits as nat);
            },
            IpAddr::V6(v6) => {
                lemma_block(128, prefix, v6.bits as nat);
            },
        }
    }
}

/// A longer prefix covers no more than a shorter one.
pub proof fn law_longer_prefix_covers_less(addr: IpAddr, long: u8, short: u8, probe: IpAddr)
    requires
        short <= long,
    ensures
        match addr {
            IpAddr::V4(v4) => (IpNet::V4 { addr: v4, prefix: long }).covers(probe)
                ==> (IpNet::V4 { addr: v4, prefix: short }).covers(probe),
            IpAddr::V6(v6) => (IpNet::V6 { addr: v6, prefix: long }).covers(probe)
                ==> (IpNet::V6 { addr: v6, prefix: short }).covers(probe),
        },
{
    match (addr, ip::normalized(probe)) {
        (IpAddr::V4(a), IpAddr::V4(b)) => {
            lemma_coarser(32, long as nat, short as nat, a.bits as nat, b.bits as nat);
        },
        (IpAddr::V6(a), IpAddr::V6(b)) => {
            lemma_coarser(128, long as nat, short as nat, a.bits as nat, b.bits as nat);
        },
        _ => {},
    }
}

proof fn lemma_coarser(width: nat, long: nat, short: nat, a: nat, b: nat)
    requires
        short <= long,
    ensures
        ip_net::same_network(width, long, a, b) ==> ip_net::same_network(width, short, a, b),
{
    let low = ip_net::host_bits(width, long);
    let more = (ip_net::host_bits(width, short) - low) as nat;
    let m = vstd::arithmetic::power2::pow2(low) as int;
    let k = vstd::arithmetic::power2::pow2(more) as int;
    vstd::arithmetic::power2::lemma_pow2_pos(low);
    vstd::arithmetic::power2::lemma_pow2_pos(more);
    vstd::arithmetic::power2::lemma_pow2_adds(low, more);
    vstd::arithmetic::div_mod::lemma_div_denominator(a as int, m, k);
    vstd::arithmetic::div_mod::lemma_div_denominator(b as int, m, k);
}

/// Membership in full: an address belongs to a network of its family where the
/// two agree in the leading bits that the prefix counts, and a prefix of the
/// full width or more asks for all of them.
pub proof fn law_membership_in_full(
    v4: Ipv4Addr,
    v6: Ipv6Addr,
    prefix: u8,
    a: Ipv4Addr,
    b: Ipv6Addr,
)
    ensures
        prefix <= 32 ==> ((IpNet::V4 { addr: v4, prefix }).covers(IpAddr::V4(a)) <==> v4.bits as nat
            / vstd::arithmetic::power2::pow2((32 - prefix) as nat) == a.bits as nat
            / vstd::arithmetic::power2::pow2((32 - prefix) as nat)),
        prefix > 32 ==> ((IpNet::V4 { addr: v4, prefix }).covers(IpAddr::V4(a)) <==> v4 == a),
        b.bits / 0x1_0000_0000 != 0xffff && prefix <= 128 ==> ((IpNet::V6 {
            addr: v6,
            prefix,
        }).covers(IpAddr::V6(b)) <==> v6.bits as nat / vstd::arithmetic::power2::pow2(
            (128 - prefix) as nat,
        ) == b.bits as nat / vstd::arithmetic::power2::pow2((128 - prefix) as nat)),
        b.bits / 0x1_0000_0000 != 0xffff && prefix > 128 ==> ((IpNet::V6 {
            addr: v6,
            prefix,
        }).covers(IpAddr::V6(b)) <==> v6 == b),
{
    vstd::arithmetic::power2::lemma2_to64();
    if prefix > 32 {
        assert(ip_net::block_size(32, prefix as nat) == 1);
        assert(v4.bits as nat / 1 == v4.bits && a.bits as nat / 1 == a.bits);
    }
    if prefix > 128 {
        assert(ip_net::block_size(128, prefix as nat) == 1);
        assert(v6.bits as nat / 1 == v6.bits && b.bits as nat / 1 == b.bits);
    }
}

/// The network of an address and a prefix length has the address with the bits
/// beyond the prefix cleared; a length beyond the width is refused, and told.
pub proof fn law_network_of_an_address(addr: IpAddr, n: nat)
    requires
        n <= 255,
    ensures
        match addr {
            IpAddr::V4(v4) => if n <= 32 {
                ip_net::net_of(addr, n) matches NetText::Net(IpNet::V4 { addr: a, prefix })
                    && prefix == n && a.bits == v4.bits - v4.bits as int
                    % vstd::arithmetic::power2::pow2((32 - n) as nat) as int
            } else {
                ip_net::net_of(addr, n) == NetText::InvalidPrefix(text::decimal(n))
            },
            IpAddr::V6(v6) => if n <= 128 {
                ip_net::net_of(addr, n) matches NetText::Net(IpNet::V6 { addr: a, prefix })
                    && prefix == n && a.bits == v6.bits - v6.bits as int
                    % vstd::arithmetic::power2::pow2((128 - n) as nat) as int
            } else {
                ip_net::net_of(addr, n) == NetText::InvalidPrefix(text::decimal(n))
            },
        },
{
    vstd::arithmetic::power2::lemma2_to64();
    match addr {
        IpAddr::V4(v4) => {
            lemma_block(32, n, v4.bits as nat);
            if n <= 32 {
                assert(ip_net::host_bits(32, n) == 32 - n);
                let m = vstd::arithmetic::power2::pow2((32 - n) as nat);
                vstd::arithmetic::power2::lemma_pow2_pos((32 - n) as nat);
                vstd::arithmetic::div_mod::lemma_mod_decreases(v4.bits as nat, m);
                vstd::arithmetic::div_mod::lemma_mod_bound(v4.bits as int, m as int);
            }
        },
        IpAddr::V6(v6) => {
            lemma_block(128, n, v6.bits as nat);
            if n <= 128 {
                assert(ip_net::host_bits(128, n) == 128 - n);
                let m = vstd::arithmetic::power2::pow2((128 - n) as nat);
                vstd::arithmetic::power2::lemma_pow2_pos((128 - n) as nat);
                vstd::arithmetic::div_mod::lemma_mod_decreases(v6.bits as nat, m);
                vstd::arithmetic::div_mod::lemma_mod_bound(v6.bits as int, m as int);
            }
        },
    }
}

proof fn lemma_plain_char(c: char)
    requires
        text::digit_value(c) < 16 || c == '.' || c == ':',
    ensures
        !text::is_white_space(c),
        c != '/',
{
}

proof fn lemma_address_text(addr: IpAddr)
    ensures
        text::trim(ip_format::ip_text(addr)) == ip_format::ip_text(addr),
        text_laws::lacks(ip_format::ip_text(addr), '/'),
        ip::ip_of_text(ip_format::ip_text(addr)) == Some(addr),
{
    let s = ip_format::ip_text(addr);
    ip_laws::law_text_stands_for_its_address(addr);
    assert forall|i: int| 0 <= i < s.len() implies !text::is_white_space(#[trigger] s[i]) && s[i]
        != '/' by {
        ip_laws::law_text_of_an_address_is_plain(addr, i);
        lemma_plain_char(s[i]);
    }
    if s.len() > 0 {
        assert(!text::is_white_space(s[s.len() - 1]));
    }
    let none = Seq::<char>::empty();
    text_laws::law_trim_leaves_the_middle(none, s, none);
    assert(none + s + none =~= s);
}

proof fn lemma_decimal_text(n: nat)
    ensures
        text::trim(text::decimal(n)) == text::decimal(n),
        text::decimal(n)[0] != '+',
        ip_net::small_number(text::decimal(n)) == if n <= 255 {
            Some(n)
        } else {
            None
        },
{
    let s = text::decimal(n);
    text::lemma_numeral(n, 10);
    assert forall|i: int| 0 <= i < s.len() implies !text::is_white_space(#[trigger] s[i]) by {
        assert(text::digit_value(s[i]) < 10);
        lemma_plain_char(s[i]);
    }
    assert(!text::is_white_space(s[s.len() - 1]));
    let none = Seq::<char>::empty();
    text_laws::law_trim_leaves_the_middle(none, s, none);
    assert(none + s + none =~= s);
    assert(text::digit_value(s[0]) < 10);
    assert(text::digit_value('+') == 16);
}

/// The text of an address and a decimal length with a slash between them is the
/// network of the two; a mapped IPv4 address is IPv4.
pub proof fn law_text_with_a_length(addr: IpAddr, n: nat)
    ensures
        ip_net::net_of_text(ip_format::ip_text(addr) + seq!['/'] + text::decimal(n)) == (
        if n <= 255 {
            ip_net::net_of(ip::normalized(addr), n)
        } else {
            NetText::InvalidPrefix(text::decimal(n))
        }),
{
    let a = ip_format::ip_text(addr);
    let b = text::decimal(n);
    let s = a + seq!['/'] + b;
    lemma_address_text(addr);
    lemma_decimal_text(n);
    lemma_cut(a, b);
}

proof fn lemma_cut(a: Seq<char>, b: Seq<char>)
    requires
        text_laws::lacks(a, '/'),
    ensures
        ({
            let s = a + seq!['/'] + b;
            &&& text::first_index(s, '/') == a.len()
            &&& s.take(a.len() as int) == a
            &&& s.skip(a.len() as int + 1) == b
            &&& a.len() < s.len()
        }),
{
    let s = a + seq!['/'] + b;
    assert forall|k: int| 0 <= k < a.len() implies s[k] != '/' by {
        assert(s[k] == a[k]);
    }
    assert(s[a.len() as int] == '/');
    text::lemma_first_index_is(s, '/', a.len() as int);
    assert(s.take(a.len() as int) =~= a);
    assert(s.skip(a.len() as int + 1) =~= b);
}

/// The text of an address alone is the network of that address alone.
pub proof fn law_text_of_an_address_alone(addr: IpAddr)
    ensures
        ip_net::net_of_text(ip_format::ip_text(addr)) == match ip::normalized(addr) {
            IpAddr::V4(v4) => NetText::Net(IpNet::V4 { addr: v4, prefix: 32 }),
            IpAddr::V6(v6) => NetText::Net(IpNet::V6 { addr: v6, prefix: 128 }),
        },
{
    let s = ip_format::ip_text(addr);
    lemma_address_text(addr);
    text::lemma_first_index_is(s, '/', s.len() as int);
}

/// What is no address is refused, and told as it was written: the whole text, or
/// what stands before the slash where a length follows.
pub proof fn law_text_of_no_address(t: Seq<char>, n: nat)
    requires
        text_laws::lacks(t, '/'),
        ip::ip_of_text(text::trim(t)) is None,
        n <= 255,
    ensures
        ip_net::net_of_text(t) == NetText::InvalidIp(t),
        ip_net::net_of_text(t + seq!['/'] + text::decimal(n)) == NetText::InvalidIp(t),
{
    text::lemma_first_index_is(t, '/', t.len() as int);
    lemma_decimal_text(n);
    lemma_cut(t, text::decimal(n));
}

/// What is no length is refused, and told as it was written, whatever stands
/// before the slash: a length is made of decimal digits, with a plus in front or
/// not, and white space around them or not.
pub proof fn law_text_of_no_length(t: Seq<char>, u: Seq<char>, k: int)
    requires
        text_laws::lacks(t, '/'),
        0 <= k < text::trim(u).len(),
        text::digit_value(text::trim(u)[k]) >= 10,
        !(k == 0 && text::trim(u)[k] == '+'),
    ensures
        ip_net::net_of_text(t + seq!['/'] + u) == NetText::InvalidPrefix(u),
{
    lemma_cut(t, u);
    let s = text::trim(u);
    if s[0] == '+' {
        assert(s.skip(1)[k - 1] == s[k]);
    }
}

} // verus!
