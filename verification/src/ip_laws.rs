//! What the texts of addresses promise.
use vstd::prelude::*;

use crate::ip;
use crate::ip::{IpAddr, Ipv4Addr, Ipv6Addr};
use crate::ip_format;
use crate::text;
use crate::text_laws;

verus! {

proof fn lemma_digits_are_no_separators(s: Seq<char>, base: nat)
    requires
        text::all_digits(s, base),
        base <= 16,
    ensures
        text_laws::lacks(s, '.'),
        text_laws::lacks(s, ':'),
{
    assert forall|i: int| 0 <= i < s.len() implies s[i] != '.' && s[i] != ':' by {
        assert(text::digit_value(s[i]) < 16);
    }
}

proof fn lemma_octet(n: nat)
    requires
        n < 256,
    ensures
        ip::is_octet(text::decimal(n)),
        text::number(text::decimal(n), 10) == n,
        text_laws::lacks(text::decimal(n), '.'),
        text_laws::lacks(text::decimal(n), ':'),
        text::decimal(n).len() >= 1,
        text::digit_value(text::decimal(n)[0]) < 10,
{
    text::lemma_numeral(n, 10);
    lemma_digits_are_no_separators(text::decimal(n), 10);
    reveal_with_fuel(text::numeral, 4);
    assert(text::decimal(n).len() <= 3);
}

proof fn lemma_group(n: nat)
    requires
        n < 65536,
    ensures
        ip::is_group(text::numeral(n, 16)),
        text::number(text::numeral(n, 16), 16) == n,
        text_laws::lacks(text::numeral(n, 16), '.'),
        text_laws::lacks(text::numeral(n, 16), ':'),
{
    text::lemma_numeral(n, 16);
    lemma_digits_are_no_separators(text::numeral(n, 16), 16);
    reveal_with_fuel(text::numeral, 5);
    assert(text::numeral(n, 16).len() <= 4);
}

proof fn lemma_pieces_one(a: Seq<char>, sep: char)
    requires
        text_laws::lacks(a, sep),
    ensures
        text::pieces(a, sep) == seq![a],
{
    text_laws::law_unseparated_text_is_one_piece(a, sep);
}

proof fn lemma_pieces_front(a: Seq<char>, b: Seq<char>, sep: char)
    requires
        text_laws::lacks(a, sep),
    ensures
        text::pieces(a + seq![sep] + b, sep) == seq![a] + text::pieces(b, sep),
{
    let s = a + seq![sep] + b;
    text::lemma_first_index_is(s, sep, a.len() as int);
    assert(s.take(a.len() as int) =~= a);
    assert(s.skip(a.len() as int + 1) =~= b);
}

proof fn lemma_join_lacks(a: Seq<char>, sep: char, b: Seq<char>, c: char)
    requires
        text_laws::lacks(a, c),
        text_laws::lacks(b, c),
        sep != c,
    ensures
        text_laws::lacks(a + seq![sep] + b, c),
{
    let s = a + seq![sep] + b;
    assert forall|i: int| 0 <= i < s.len() implies s[i] != c by {
        if i < a.len() {
            assert(s[i] == a[i]);
        } else if i > a.len() {
            assert(s[i] == b[i - a.len() - 1]);
        }
    }
}

#[verifier::spinoff_prover]
proof fn lemma_octets(bits: nat)
    requires
        bits < 0x1_0000_0000,
    ensures
        ip::octets_value(
            bits / 0x100_0000 % 256,
            bits / 0x1_0000 % 256,
            bits / 0x100 % 256,
            bits % 256,
        ) == bits,
{
    let x = bits / 0x100;
    let y = x / 0x100;
    let z = y / 0x100;
    assert(bits / 0x1_0000 == y);
    assert(bits / 0x100_0000 == z);
    assert(z < 256);
    assert(bits == x * 256 + bits % 256);
    assert(x == y * 256 + x % 256);
    assert(y == z * 256 + y % 256);
}

proof fn lemma_quad_pieces(ta: Seq<char>, tb: Seq<char>, tc: Seq<char>, td: Seq<char>)
    requires
        text_laws::lacks(ta, '.'),
        text_laws::lacks(tb, '.'),
        text_laws::lacks(tc, '.'),
        text_laws::lacks(td, '.'),
    ensures
        text::pieces(
            ta + seq!['.'] + (tb + seq!['.'] + (tc + seq!['.'] + td)),
            '.',
        ) == seq![ta, tb, tc, td],
{
    let last = tc + seq!['.'] + td;
    let rest = tb + seq!['.'] + last;
    let s = ta + seq!['.'] + rest;
    lemma_pieces_one(td, '.');
    lemma_pieces_front(tc, td, '.');
    lemma_pieces_front(tb, last, '.');
    lemma_pieces_front(ta, rest, '.');
    assert(text::pieces(s, '.') =~= seq![ta, tb, tc, td]);
}

proof fn lemma_v4_round_trip(bits: nat)
    requires
        bits < 0x1_0000_0000,
    ensures
        ip::v4_of_text(ip_format::v4_text(bits)) == Some(bits),
        text_laws::lacks(ip_format::v4_text(bits), ':'),
        ip_format::v4_text(bits).len() <= 15,
        !text_laws::lacks(ip_format::v4_text(bits), '.'),
{
    let a = bits / 0x100_0000 % 256;
    let b = bits / 0x1_0000 % 256;
    let c = bits / 0x100 % 256;
    let d = bits % 256;
    lemma_octets(bits);
    lemma_octet(a);
    lemma_octet(b);
    lemma_octet(c);
    lemma_octet(d);
    let ta = text::decimal(a);
    let tb = text::decimal(b);
    let tc = text::decimal(c);
    let td = text::decimal(d);
    let last = tc + seq!['.'] + td;
    let rest = tb + seq!['.'] + last;
    let s = ta + seq!['.'] + rest;
    lemma_quad_pieces(ta, tb, tc, td);
    lemma_join_lacks(tc, '.', td, ':');
    lemma_join_lacks(tb, '.', last, ':');
    lemma_join_lacks(ta, '.', rest, ':');
    assert(s[ta.len() as int] == '.');
}

spec fn separated(s: Seq<char>) -> bool {
    &&& forall|i: int| 0 <= i < s.len() - 1 ==> !(#[trigger] s[i] == ':' && s[i + 1] == ':')
    &&& s.len() > 0 ==> s[0] != ':' && s.last() != ':'
}

spec fn small(g: Seq<nat>) -> bool {
    forall|i: int| 0 <= i < g.len() ==> #[trigger] g[i] < 65536
}

spec fn numerals(g: Seq<nat>) -> Seq<Seq<char>> {
    Seq::new(g.len(), |i: int| text::numeral(g[i], 16))
}

proof fn lemma_groups_text(g: Seq<nat>)
    requires
        small(g),
    ensures
        g.len() == 0 <==> ip_format::groups_text(g).len() == 0,
        g.len() > 0 ==> text::pieces(ip_format::groups_text(g), ':') == numerals(g),
        text_laws::lacks(ip_format::groups_text(g), '.'),
        separated(ip_format::groups_text(g)),
        ip_format::groups_text(g).len() <= 5 * g.len(),
    decreases g.len(),
{
    let s = ip_format::groups_text(g);
    if g.len() > 0 {
        lemma_group(g[0]);
        let first = text::numeral(g[0], 16);
        if g.len() == 1 {
            lemma_pieces_one(first, ':');
            assert(numerals(g) =~= seq![first]);
        } else {
            let rest = g.skip(1);
            assert forall|i: int| 0 <= i < rest.len() implies #[trigger] rest[i] < 65536 by {
                assert(g[i + 1] < 65536);
            }
            lemma_groups_text(rest);
            let more = ip_format::groups_text(rest);
            lemma_pieces_front(first, more, ':');
            assert(numerals(g) =~= seq![first] + numerals(rest));
            assert forall|i: int| 0 <= i < s.len() implies s[i] != '.' by {
                if i > first.len() {
                    assert(s[i] == more[i - first.len() - 1]);
                }
            }
            assert forall|i: int| 0 <= i < s.len() - 1 implies !(#[trigger] s[i] == ':' && s[i + 1]
                == ':') by {
                if i > first.len() {
                    assert(s[i] == more[i - first.len() - 1]);
                    assert(s[i + 1] == more[i - first.len() - 1 + 1]);
                } else if i == first.len() {
                    assert(s[i + 1] == more[0]);
                } else {
                    assert(s[i] == first[i]);
                }
            }
            assert(s.last() == more.last());
        }
    }
}

proof fn lemma_run_of_groups(g: Seq<nat>, quad: bool)
    requires
        small(g),
    ensures
        ip::run_of_text(ip_format::groups_text(g), quad) == Some(g),
{
    lemma_groups_text(g);
    if g.len() > 0 {
        let p = numerals(g);
        assert forall|i: int| 0 <= i < p.len() implies ip::is_group(#[trigger] p[i]) by {
            lemma_group(g[i]);
        }
        assert forall|i: int| 0 <= i < g.len() implies text::number(#[trigger] p[i], 16)
            == g[i] by {
            lemma_group(g[i]);
        }
        assert(ip::group_values(p) =~= g);
    } else {
        assert(g =~= Seq::<nat>::empty());
    }
}

proof fn lemma_first_gap_is(s: Seq<char>, i: int)
    requires
        0 <= i <= s.len(),
        i < s.len() ==> i + 1 < s.len() && s[i] == ':' && s[i + 1] == ':',
        forall|k: int|
            0 <= k < i && k + 1 < s.len() ==> !(#[trigger] s[k] == ':' && s[k + 1] == ':'),
    ensures
        ip::first_gap(s) == i,
    decreases s.len(),
{
    if s.len() >= 2 && i > 0 {
        let t = s.skip(1);
        assert forall|k: int| 0 <= k < i - 1 && k + 1 < t.len() implies !(#[trigger] t[k] == ':'
            && t[k + 1] == ':') by {
            assert(t[k] == s[k + 1]);
            assert(t[k + 1] == s[k + 2]);
        }
        lemma_first_gap_is(t, i - 1);
        assert(!(s[0] == ':' && s[1] == ':'));
    }
}

proof fn lemma_zeros(g: Seq<nat>, i: int)
    requires
        0 <= i <= g.len(),
    ensures
        i + ip_format::zeros_from(g, i) <= g.len(),
        forall|k: int| i <= k < i + ip_format::zeros_from(g, i) ==> g[k] == 0,
    decreases g.len() - i,
{
    if i < g.len() && g[i] == 0 {
        lemma_zeros(g, i + 1);
    }
}

proof fn lemma_longest(g: Seq<nat>, i: int)
    requires
        0 <= i <= g.len(),
    ensures
        ({
            let (start, len) = ip_format::longest_zeros(g, i);
            &&& i <= start
            &&& start + len <= g.len()
            &&& forall|k: int| start <= k < start + len ==> g[k] == 0
        }),
    decreases g.len() - i,
{
    if i < g.len() {
        lemma_zeros(g, i);
        lemma_longest(g, i + 1);
    }
}

#[verifier::spinoff_prover]
proof fn lemma_segments(bits: nat)
    requires
        bits < 0x1_0000_0000_0000_0000_0000_0000_0000_0000,
    ensures
        ip_format::segments(bits).len() == 8,
        small(ip_format::segments(bits)),
        ip::segments_value(ip_format::segments(bits)) == bits,
{
    reveal_with_fuel(ip_format::low_segments, 9);
    let b = bits / 65536;
    let c = b / 65536;
    let d = c / 65536;
    let e = d / 65536;
    let f = e / 65536;
    let g = f / 65536;
    let h = g / 65536;
    assert(ip_format::segments(bits) =~= seq![
        h % 65536,
        g % 65536,
        f % 65536,
        e % 65536,
        d % 65536,
        c % 65536,
        b % 65536,
        bits % 65536,
    ]);
    assert(h < 65536);
}

proof fn lemma_colon_is_no_quad(s: Seq<char>)
    requires
        s.len() > 0,
        s[0] == ':',
    ensures
        ip::v4_of_text(s) is None,
{
    text::lemma_first_index(s, '.');
    let p = text::pieces(s, '.');
    let i = text::first_index(s, '.');
    if i < s.len() {
        assert(p[0] == s.take(i as int));
        assert(i > 0);
        assert(p[0][0] == ':');
    } else {
        assert(p[0] == s);
    }
    assert(text::digit_value(p[0][0]) == 16);
    assert(!text::all_digits(p[0], 10));
}

#[verifier::spinoff_prover]
proof fn lemma_mapped_value(bits: u128)
    requires
        bits / 0x1_0000_0000 == 0xffff,
    ensures
        ({
            let v4 = bits as nat % 0x1_0000_0000;
            ip::segments_value(
                seq![0nat, 0nat, 0nat, 0nat, 0nat, 0xffffnat, v4 / 65536, v4 % 65536],
            ) == bits
        }),
{
}

proof fn lemma_mapped_tail(v4: nat)
    requires
        v4 < 0x1_0000_0000,
    ensures
        ip::run_of_text(
            text::numeral(0xffff, 16) + seq![':'] + ip_format::v4_text(v4),
            true,
        ) == Some(seq![0xffffnat, v4 / 65536, v4 % 65536]),
{
    let quad = ip_format::v4_text(v4);
    let mark = text::numeral(0xffff, 16);
    let tail = mark + seq![':'] + quad;
    lemma_v4_round_trip(v4);
    lemma_group(0xffff);
    lemma_pieces_front(mark, quad, ':');
    lemma_pieces_one(quad, ':');
    let p = text::pieces(tail, ':');
    assert(p =~= seq![mark, quad]);
    assert(!ip::all_groups(p)) by {
        let i = choose|i: int| 0 <= i < quad.len() && quad[i] == '.';
        assert(text::digit_value(quad[i]) == 16);
        assert(!ip::is_group(p[1]));
    }
    assert(p.drop_last() =~= seq![mark]);
    assert(ip::group_values(p.drop_last()) =~= seq![0xffffnat]);
    assert(seq![0xffffnat] + seq![v4 / 65536, v4 % 65536] =~= seq![
        0xffffnat,
        v4 / 65536,
        v4 % 65536,
    ]);
}

proof fn lemma_mapped_round_trip(addr: Ipv6Addr)
    requires
        addr.maps_v4(),
    ensures
        ip::ip_of_text(ip_format::v6_text(addr)) == Some(IpAddr::V6(addr)),
{
    let v4 = addr.bits as nat % 0x1_0000_0000;
    let tail = text::numeral(0xffff, 16) + seq![':'] + ip_format::v4_text(v4);
    let s = seq![':', ':'] + tail;
    let values = seq![0xffffnat, v4 / 65536, v4 % 65536];
    lemma_mapped_tail(v4);
    lemma_first_gap_is(s, 0);
    assert(s.take(0) =~= Seq::<char>::empty());
    assert(s.skip(2) =~= tail);
    let g = ip::with_gap(Seq::<nat>::empty(), values);
    assert(g =~= seq![0nat, 0nat, 0nat, 0nat, 0nat, 0xffffnat, v4 / 65536, v4 % 65536]);
    assert(ip::v6_of_text(s) == Some(g));
    lemma_mapped_value(addr.bits);
    lemma_colon_is_no_quad(s);
}

proof fn lemma_gap_is_between(head: Seq<char>, tail: Seq<char>)
    requires
        separated(head),
        text_laws::lacks(head, '.'),
        text_laws::lacks(tail, '.'),
    ensures
        ({
            let s = head + seq![':', ':'] + tail;
            &&& ip::first_gap(s) == head.len()
            &&& s.take(head.len() as int) == head
            &&& s.skip(head.len() as int + 2) == tail
            &&& text_laws::lacks(s, '.')
        }),
{
    let s = head + seq![':', ':'] + tail;
    let h = head.len() as int;
    assert(s[h] == ':' && s[h + 1] == ':');
    assert forall|k: int| 0 <= k < h && k + 1 < s.len() implies !(#[trigger] s[k] == ':' && s[k + 1]
        == ':') by {
        assert(s[k] == head[k]);
        if k + 1 < h {
            assert(s[k + 1] == head[k + 1]);
        }
    }
    lemma_first_gap_is(s, h);
    assert(s.take(h) =~= head);
    assert(s.skip(h + 2) =~= tail);
    assert forall|i: int| 0 <= i < s.len() implies s[i] != '.' by {
        if i < h {
            assert(s[i] == head[i]);
        } else if i >= h + 2 {
            assert(s[i] == tail[i - h - 2]);
        }
    }
}

proof fn lemma_gap_round_trip(g: Seq<nat>, start: int, len: int)
    requires
        g.len() == 8,
        small(g),
        0 <= start,
        1 < len,
        start + len <= 8,
        forall|k: int| start <= k < start + len ==> g[k] == 0,
    ensures
        ({
            let s = ip_format::groups_text(g.take(start)) + seq![':', ':']
                + ip_format::groups_text(g.skip(start + len));
            &&& ip::v6_of_text(s) == Some(g)
            &&& text_laws::lacks(s, '.')
            &&& s.len() <= 42
        }),
{
    let before = g.take(start);
    let after = g.skip(start + len);
    assert forall|i: int| 0 <= i < before.len() implies #[trigger] before[i] < 65536 by {
        assert(g[i] < 65536);
    }
    assert forall|i: int| 0 <= i < after.len() implies #[trigger] after[i] < 65536 by {
        assert(g[start + len + i] < 65536);
    }
    lemma_groups_text(before);
    lemma_groups_text(after);
    lemma_run_of_groups(before, false);
    lemma_run_of_groups(after, true);
    lemma_gap_is_between(ip_format::groups_text(before), ip_format::groups_text(after));
    assert(ip::with_gap(before, after) =~= g);
}

proof fn lemma_plain_round_trip(addr: Ipv6Addr)
    requires
        !addr.maps_v4(),
    ensures
        ip::ip_of_text(ip_format::v6_text(addr)) == Some(IpAddr::V6(addr)),
        ip_format::v6_text(addr).len() <= 42,
{
    let g = ip_format::segments(addr.bits as nat);
    let s = ip_format::v6_text(addr);
    let (start, len) = ip_format::longest_zeros(g, 0);
    lemma_segments(addr.bits as nat);
    lemma_longest(g, 0);
    if len > 1 {
        lemma_gap_round_trip(g, start, len as int);
    } else {
        lemma_groups_text(g);
        lemma_run_of_groups(g, true);
        lemma_first_gap_is(s, s.len() as int);
    }
    lemma_pieces_one(s, '.');
}

/// The text of an address stands for that address.
pub proof fn law_text_stands_for_its_address(addr: IpAddr)
    ensures
        ip::ip_of_text(ip_format::ip_text(addr)) == Some(addr),
{
    match addr {
        IpAddr::V4(v4) => {
            lemma_v4_round_trip(v4.bits as nat);
        },
        IpAddr::V6(v6) => {
            if v6.maps_v4() {
                lemma_mapped_round_trip(v6);
            } else {
                lemma_plain_round_trip(v6);
            }
        },
    }
}

/// Different addresses have different texts, so that no two clients share a
/// key.
pub proof fn law_texts_tell_addresses_apart(a: IpAddr, b: IpAddr)
    requires
        a != b,
    ensures
        ip_format::ip_text(a) != ip_format::ip_text(b),
{
    law_text_stands_for_its_address(a);
    law_text_stands_for_its_address(b);
}

/// The text of an address has at most 45 characters.
pub proof fn law_text_is_short(addr: IpAddr)
    ensures
        ip_format::ip_text(addr).len() <= 45,
{
    match addr {
        IpAddr::V4(v4) => {
            lemma_v4_round_trip(v4.bits as nat);
        },
        IpAddr::V6(v6) => {
            if v6.maps_v4() {
                lemma_v4_round_trip(v6.bits as nat % 0x1_0000_0000);
                lemma_group(0xffff);
            } else {
                lemma_plain_round_trip(v6);
            }
        },
    }
}

/// A dotted quad is the only text of its IPv4 address: what is read as one is
/// four decimal octets without leading zeros.
pub proof fn law_v4_text_is_the_only_one(s: Seq<char>)
    requires
        ip::v4_of_text(s) is Some,
    ensures
        ip::v4_of_text(s)->0 < 0x1_0000_0000,
        s == ip_format::v4_text(ip::v4_of_text(s)->0),
{
    let p = text::pieces(s, '.');
    text_laws::law_text_is_its_pieces(s, '.');
    let s1 = s.skip(p[0].len() as int + 1);
    text_laws::law_text_is_its_pieces(s1, '.');
    assert(p.skip(1)[0] == p[1]);
    let s2 = s1.skip(p[1].len() as int + 1);
    text_laws::law_text_is_its_pieces(s2, '.');
    assert(p.skip(1).skip(1)[0] == p[2]);
    let s3 = s2.skip(p[2].len() as int + 1);
    text_laws::law_text_is_its_pieces(s3, '.');
    assert(p.skip(1).skip(1).skip(1)[0] == p[3]);
    text_laws::law_decimal_texts_are_unique(p[0]);
    text_laws::law_decimal_texts_are_unique(p[1]);
    text_laws::law_decimal_texts_are_unique(p[2]);
    text_laws::law_decimal_texts_are_unique(p[3]);
    lemma_octets_apart(
        text::number(p[0], 10),
        text::number(p[1], 10),
        text::number(p[2], 10),
        text::number(p[3], 10),
    );
}

#[verifier::spinoff_prover]
proof fn lemma_octets_apart(a: nat, b: nat, c: nat, d: nat)
    requires
        a < 256,
        b < 256,
        c < 256,
        d < 256,
    ensures
        ({
            let v = ip::octets_value(a, b, c, d);
            &&& v < 0x1_0000_0000
            &&& v / 0x100_0000 % 256 == a
            &&& v / 0x1_0000 % 256 == b
            &&& v / 0x100 % 256 == c
            &&& v % 256 == d
        }),
{
}

/// The dotted quad of an address holds its four octets in decimal, uppermost
/// first.
pub proof fn law_v4_text_in_full(bits: nat)
    requires
        bits < 0x1_0000_0000,
    ensures
        text::pieces(ip_format::v4_text(bits), '.') == seq![
            text::decimal(bits / 0x100_0000),
            text::decimal(bits / 0x1_0000 % 0x100),
            text::decimal(bits / 0x100 % 0x100),
            text::decimal(bits % 0x100),
        ],
{
    lemma_octet(bits / 0x100_0000 % 256);
    lemma_octet(bits / 0x1_0000 % 256);
    lemma_octet(bits / 0x100 % 256);
    lemma_octet(bits % 256);
    lemma_quad_pieces(
        text::decimal(bits / 0x100_0000 % 256),
        text::decimal(bits / 0x1_0000 % 256),
        text::decimal(bits / 0x100 % 256),
        text::decimal(bits % 256),
    );
    assert(bits / 0x100_0000 % 256 == bits / 0x100_0000);
}

/// Some texts with colons between them.
pub open spec fn joined(p: Seq<Seq<char>>) -> Seq<char>
    decreases p.len(),
{
    if p.len() == 0 {
        Seq::empty()
    } else if p.len() == 1 {
        p[0]
    } else {
        p[0] + seq![':'] + joined(p.skip(1))
    }
}

/// Whether no text is empty or holds a colon.
pub open spec fn unbroken(p: Seq<Seq<char>>) -> bool {
    forall|i: int| 0 <= i < p.len() ==> (#[trigger] p[i]).len() > 0 && text_laws::lacks(p[i], ':')
}

/// Whether no text holds a dot.
pub open spec fn undotted(p: Seq<Seq<char>>) -> bool {
    forall|i: int| 0 <= i < p.len() ==> text_laws::lacks(#[trigger] p[i], '.')
}

/// Whether every text is one to four hexadecimal digits.
pub open spec fn hexadecimal(p: Seq<Seq<char>>) -> bool {
    forall|i: int|
        0 <= i < p.len() ==> 1 <= (#[trigger] p[i]).len() <= 4 && text::all_digits(p[i], 16)
}

/// The numbers that some hexadecimal texts stand for.
pub open spec fn hexadecimals(p: Seq<Seq<char>>) -> Seq<nat> {
    Seq::new(p.len(), |i: int| text::number(p[i], 16))
}

proof fn lemma_joined(p: Seq<Seq<char>>)
    requires
        unbroken(p),
    ensures
        p.len() == 0 <==> joined(p).len() == 0,
        p.len() > 0 ==> text::pieces(joined(p), ':') == p,
        separated(joined(p)),
        undotted(p) ==> text_laws::lacks(joined(p), '.'),
    decreases p.len(),
{
    let s = joined(p);
    if p.len() == 1 {
        assert(p[0].len() > 0 && text_laws::lacks(p[0], ':'));
        lemma_pieces_one(p[0], ':');
        assert(p =~= seq![p[0]]);
    } else if p.len() > 1 {
        let first = p[0];
        assert(first.len() > 0 && text_laws::lacks(first, ':'));
        let rest = p.skip(1);
        assert forall|i: int| 0 <= i < rest.len() implies (#[trigger] rest[i]).len() > 0
            && text_laws::lacks(rest[i], ':') by {
            assert(p[i + 1].len() > 0);
        }
        lemma_joined(rest);
        let more = joined(rest);
        lemma_pieces_front(first, more, ':');
        assert(seq![first] + rest =~= p);
        assert forall|i: int| 0 <= i < s.len() - 1 implies !(#[trigger] s[i] == ':' && s[i + 1]
            == ':') by {
            if i > first.len() {
                assert(s[i] == more[i - first.len() - 1]);
                assert(s[i + 1] == more[i - first.len() - 1 + 1]);
            } else if i == first.len() {
                assert(s[i + 1] == more[0]);
            } else {
                assert(s[i] == first[i]);
            }
        }
        assert(s.last() == more.last());
        if undotted(p) {
            assert forall|i: int| 0 <= i < rest.len() implies text_laws::lacks(
                #[trigger] rest[i],
                '.',
            ) by {
                assert(text_laws::lacks(p[i + 1], '.'));
            }
            assert(text_laws::lacks(p[0], '.'));
            lemma_join_lacks(first, ':', more, '.');
        }
    }
}

proof fn lemma_run_of_joined(p: Seq<Seq<char>>, quad: bool)
    requires
        unbroken(p),
        undotted(p),
    ensures
        ip::run_of_text(joined(p), quad) == if hexadecimal(p) {
            Some(hexadecimals(p))
        } else {
            None
        },
{
    lemma_joined(p);
    if p.len() == 0 {
        assert(hexadecimals(p) =~= Seq::<nat>::empty());
    } else {
        assert(ip::all_groups(p) <==> hexadecimal(p)) by {
            if ip::all_groups(p) {
                assert forall|i: int| 0 <= i < p.len() implies 1 <= (#[trigger] p[i]).len() <= 4
                    && text::all_digits(p[i], 16) by {
                    assert(ip::is_group(p[i]));
                }
            }
            if hexadecimal(p) {
                assert forall|i: int| 0 <= i < p.len() implies ip::is_group(#[trigger] p[i]) by {
                    assert(p[i].len() <= 4);
                }
            }
        }
        assert(ip::group_values(p) =~= hexadecimals(p));
        let last = p.last();
        assert(text_laws::lacks(p[p.len() - 1], '.'));
        lemma_pieces_one(last, '.');
        assert(ip::v4_of_text(last) is None);
    }
}

/// Without a gap, a text of pieces between colons is an IPv6 address exactly
/// where they are eight, each of one to four hexadecimal digits, and they are
/// then its segments, uppermost first.
pub proof fn law_groups_without_a_gap(p: Seq<Seq<char>>)
    requires
        p.len() > 0,
        unbroken(p),
        undotted(p),
    ensures
        ip::ip_of_text(joined(p)) == if p.len() == 8 && hexadecimal(p) {
            Some(IpAddr::V6(Ipv6Addr { bits: ip::segments_value(hexadecimals(p)) as u128 }))
        } else {
            None
        },
{
    let s = joined(p);
    lemma_joined(p);
    lemma_run_of_joined(p, true);
    lemma_first_gap_is(s, s.len() as int);
    lemma_pieces_one(s, '.');
}

/// With a gap, a text of pieces between colons is an IPv6 address exactly where
/// they are at most seven, each of one to four hexadecimal digits, and the gap
/// stands for as many zero segments as are missing from eight.
pub proof fn law_groups_around_a_gap(p: Seq<Seq<char>>, q: Seq<Seq<char>>)
    requires
        unbroken(p),
        undotted(p),
        unbroken(q),
        undotted(q),
    ensures
        ip::ip_of_text(joined(p) + seq![':', ':'] + joined(q)) == if p.len() + q.len() <= 7
            && hexadecimal(p) && hexadecimal(q) {
            let zeros = Seq::new((8 - p.len() - q.len()) as nat, |i: int| 0nat);
            Some(
                IpAddr::V6(
                    Ipv6Addr {
                        bits: ip::segments_value(hexadecimals(p) + zeros + hexadecimals(q)) as u128,
                    },
                ),
            )
        } else {
            None
        },
{
    let s = joined(p) + seq![':', ':'] + joined(q);
    lemma_joined(p);
    lemma_joined(q);
    lemma_run_of_joined(p, false);
    lemma_run_of_joined(q, true);
    lemma_gap_is_between(joined(p), joined(q));
    lemma_pieces_one(s, '.');
    let zeros = Seq::new((8 - p.len() - q.len()) as nat, |i: int| 0nat);
    if p.len() + q.len() <= 7 {
        assert(ip::with_gap(hexadecimals(p), hexadecimals(q)) =~= hexadecimals(p) + zeros
            + hexadecimals(q));
    }
}

/// The segments of an address are the only eight numbers of sixteen bits that
/// make it up.
#[verifier::spinoff_prover]
pub proof fn law_segments_are_unique(g: Seq<nat>)
    requires
        g.len() == 8,
        forall|i: int| 0 <= i < 8 ==> #[trigger] g[i] < 65536,
    ensures
        ip_format::segments(ip::segments_value(g)) == g,
        ip::segments_value(g) < 0x1_0000_0000_0000_0000_0000_0000_0000_0000,
{
    reveal_with_fuel(ip_format::low_segments, 9);
    let a = g[0];
    let b = a * 65536 + g[1];
    let c = b * 65536 + g[2];
    let d = c * 65536 + g[3];
    let e = d * 65536 + g[4];
    let f = e * 65536 + g[5];
    let h = f * 65536 + g[6];
    let i = h * 65536 + g[7];
    assert(i / 65536 == h && h / 65536 == f && f / 65536 == e && e / 65536 == d && d / 65536 == c
        && c / 65536 == b && b / 65536 == a);
    assert(ip_format::segments(i) =~= g);
}

proof fn lemma_longest_is_longest(g: Seq<nat>, k: int, i: int, n: int)
    requires
        0 <= k <= i,
        0 <= n,
        i + n <= g.len(),
        forall|j: int| i <= j < i + n ==> g[j] == 0,
    ensures
        n <= ip_format::longest_zeros(g, k).1,
        n == ip_format::longest_zeros(g, k).1 ==> ip_format::longest_zeros(g, k).0 <= i,
    decreases g.len() - k,
{
    if k < g.len() {
        lemma_longest(g, k);
        if k == i {
            lemma_zeros_reach(g, i, n);
            if k + 1 <= g.len() {
                lemma_longest(g, k + 1);
            }
        } else {
            lemma_longest_is_longest(g, k + 1, i, n);
        }
    }
}

proof fn lemma_zeros_reach(g: Seq<nat>, i: int, n: int)
    requires
        0 <= i,
        0 <= n,
        i + n <= g.len(),
        forall|j: int| i <= j < i + n ==> g[j] == 0,
    ensures
        ip_format::zeros_from(g, i) >= n,
    decreases n,
{
    if n > 0 {
        assert(g[i] == 0);
        lemma_zeros_reach(g, i + 1, n - 1);
    }
}

/// Whether the `n` segments from position `i` on are zero.
pub open spec fn zero_run(g: Seq<nat>, i: int, n: int) -> bool {
    &&& 0 <= i
    &&& 0 <= n
    &&& i + n <= g.len()
    &&& forall|j: int| i <= j < i + n ==> g[j] == 0
}

/// The run of zero segments that a text leaves out is the longest one, and the
/// first of several.
pub proof fn law_longest_run_is_left_out(g: Seq<nat>, i: int, n: int)
    requires
        zero_run(g, i, n),
    ensures
        ({
            let (start, len) = ip_format::longest_zeros(g, 0);
            &&& zero_run(g, start, len as int)
            &&& n <= len
            &&& n == len ==> start <= i
        }),
{
    lemma_longest(g, 0);
    lemma_longest_is_longest(g, 0, i, n);
}

proof fn lemma_groups_are_joined(g: Seq<nat>)
    ensures
        ip_format::groups_text(g) == joined(numerals(g)),
    decreases g.len(),
{
    if g.len() > 1 {
        lemma_groups_are_joined(g.skip(1));
        assert(numerals(g).skip(1) =~= numerals(g.skip(1)));
    }
}

/// The text of an IPv6 address, in full: its segments in hexadecimal with colons
/// between them. Of the zero segments a run of two or more that is the longest,
/// and the first of several, is left out. An address that maps an IPv4 address
/// is the exception.
pub proof fn law_v6_text_in_full(addr: Ipv6Addr, g: Seq<nat>, start: int, len: int)
    requires
        !(addr.bits / 0x1_0000_0000 == 0xffff),
        g.len() == 8,
        forall|i: int| 0 <= i < 8 ==> #[trigger] g[i] < 65536,
        addr.bits == ip::segments_value(g),
        zero_run(g, start, len),
        forall|i: int, n: int|
            #[trigger] zero_run(g, i, n) ==> n <= len && (n == len ==> start <= i),
    ensures
        ({
            let hex = Seq::new(8, |i: int| text::numeral(g[i], 16));
            ip_format::v6_text(addr) == if len > 1 {
                joined(hex.take(start)) + seq![':', ':'] + joined(hex.skip(start + len))
            } else {
                joined(hex)
            }
        }),
{
    law_segments_are_unique(g);
    let hex = Seq::new(8, |i: int| text::numeral(g[i], 16));
    let (s, l) = ip_format::longest_zeros(g, 0);
    law_longest_run_is_left_out(g, start, len);
    assert(zero_run(g, s, l as int));
    assert(numerals(g) =~= hex);
    lemma_groups_are_joined(g);
    lemma_groups_are_joined(g.take(start));
    lemma_groups_are_joined(g.skip(start + len));
    assert(numerals(g.take(start)) =~= hex.take(start));
    assert(numerals(g.skip(start + len)) =~= hex.skip(start + len));
}

/// An IPv6 address that maps an IPv4 address is told as `::ffff:` and the dotted
/// quad.
pub proof fn law_mapped_text_in_full(addr: Ipv6Addr)
    requires
        addr.bits / 0x1_0000_0000 == 0xffff,
    ensures
        ip_format::v6_text(addr) == seq![':', ':', 'f', 'f', 'f', 'f', ':'] + ip_format::v4_text(
            addr.bits as nat % 0x1_0000_0000,
        ),
{
    reveal_with_fuel(text::numeral, 5);
    assert(text::numeral(0xffff, 16) =~= seq!['f', 'f', 'f', 'f']);
    assert(ip_format::v6_text(addr) =~= seq![':', ':', 'f', 'f', 'f', 'f', ':']
        + ip_format::v4_text(addr.bits as nat % 0x1_0000_0000));
}

/// A mapped IPv4 address, and no other, has the IPv4 address in its lower half
/// for its normal form.
pub proof fn law_normal_form_in_full(v4: Ipv4Addr, v6: Ipv6Addr)
    ensures
        ip::normalized(IpAddr::V4(v4)) == IpAddr::V4(v4),
        v6.bits / 0x1_0000_0000 == 0xffff ==> (ip::normalized(IpAddr::V6(v6)) matches IpAddr::V4(
            low,
        ) && low.bits + 0xffff * 0x1_0000_0000 == v6.bits),
        v6.bits / 0x1_0000_0000 != 0xffff ==> ip::normalized(IpAddr::V6(v6)) == IpAddr::V6(v6),
{
}

/// The text of an address is made of hexadecimal digits, dots and colons.
pub proof fn law_text_of_an_address_is_plain(addr: IpAddr, i: int)
    requires
        0 <= i < ip_format::ip_text(addr).len(),
    ensures
        ({
            let c = ip_format::ip_text(addr)[i];
            text::digit_value(c) < 16 || c == '.' || c == ':'
        }),
{
    match addr {
        IpAddr::V4(v4) => {
            lemma_v4_plain(v4.bits as nat);
        },
        IpAddr::V6(v6) => {
            let g = ip_format::segments(v6.bits as nat);
            let (start, len) = ip_format::longest_zeros(g, 0);
            lemma_longest(g, 0);
            lemma_v4_plain(v6.bits as nat % 0x1_0000_0000);
            text::lemma_numeral(0xffff, 16);
            lemma_groups_plain(g);
            lemma_groups_plain(g.take(start));
            lemma_groups_plain(g.skip(start + len));
        },
    }
}

spec fn plain(s: Seq<char>) -> bool {
    forall|i: int|
        0 <= i < s.len() ==> text::digit_value(#[trigger] s[i]) < 16 || s[i] == '.' || s[i] == ':'
}

proof fn lemma_v4_plain(bits: nat)
    ensures
        plain(ip_format::v4_text(bits)),
{
    text::lemma_numeral(bits / 0x100_0000 % 256, 10);
    text::lemma_numeral(bits / 0x1_0000 % 256, 10);
    text::lemma_numeral(bits / 0x100 % 256, 10);
    text::lemma_numeral(bits % 256, 10);
}

proof fn lemma_groups_plain(g: Seq<nat>)
    ensures
        plain(ip_format::groups_text(g)),
    decreases g.len(),
{
    if g.len() > 0 {
        text::lemma_numeral(g[0], 16);
        if g.len() > 1 {
            lemma_groups_plain(g.skip(1));
        }
    }
}

} // verus!
