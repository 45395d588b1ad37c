//! Internet addresses, and the texts that stand for them.
use vstd::prelude::*;

use crate::text;

verus! {

/// An IPv4 address.
#[derive(Debug, Clone, Copy, PartialEq, Eq, Hash, Structural)]
pub struct Ipv4Addr {
    /// The address as a number, first octet uppermost.
    pub bits: u32,
}

/// An IPv6 address.
#[derive(Debug, Clone, Copy, PartialEq, Eq, Hash, Structural)]
pub struct Ipv6Addr {
    /// The address as a number, first segment uppermost.
    pub bits: u128,
}

/// An address of either family.
#[derive(Debug, Clone, Copy, PartialEq, Eq, Hash, Structural)]
pub enum IpAddr {
    /// An IPv4 address.
    V4(Ipv4Addr),
    /// An IPv6 address.
    V6(Ipv6Addr),
}

/// Four octets as one number.
pub open spec fn octets_value(a: nat, b: nat, c: nat, d: nat) -> nat {
    ((a * 256 + b) * 256 + c) * 256 + d
}

/// Eight segments as one number.
pub open spec fn segments_value(g: Seq<nat>) -> nat {
    ((((((g[0] * 65536 + g[1]) * 65536 + g[2]) * 65536 + g[3]) * 65536 + g[4]) * 65536 + g[5])
        * 65536 + g[6]) * 65536 + g[7]
}

impl Ipv4Addr {
    /// The address `a.b.c.d`.
    pub fn new(a: u8, b: u8, c: u8, d: u8) -> (r: Self)
        ensures
            r.bits == octets_value(a as nat, b as nat, c as nat, d as nat),
    {
        Ipv4Addr { bits: ((a as u32 * 256 + b as u32) * 256 + c as u32) * 256 + d as u32 }
    }
}

impl Ipv6Addr {
    /// The address with these eight segments.
    pub fn new(a: u16, b: u16, c: u16, d: u16, e: u16, f: u16, g: u16, h: u16) -> (r: Self)
        ensures
            r.bits == segments_value(
                seq![
                    a as nat,
                    b as nat,
                    c as nat,
                    d as nat,
                    e as nat,
                    f as nat,
                    g as nat,
                    h as nat,
                ],
            ),
    {
        Ipv6Addr {
            bits: ((((((a as u128 * 65536 + b as u128) * 65536 + c as u128) * 65536 + d as u128)
                * 65536 + e as u128) * 65536 + f as u128) * 65536 + g as u128) * 65536 + h as u128,
        }
    }

    /// Whether this is `::ffff:a.b.c.d`, an IPv4 address in IPv6 form.
    pub open spec fn maps_v4(self) -> bool {
        self.bits / 0x1_0000_0000 == 0xffff
    }

    /// The IPv4 address that this one maps, if it maps one.
    pub fn to_ipv4_mapped(&self) -> (r: Option<Ipv4Addr>)
        ensures
            r == if self.maps_v4() {
                Some(Ipv4Addr { bits: (self.bits % 0x1_0000_0000) as u32 })
            } else {
                None
            },
    {
        if self.bits / 0x1_0000_0000 == 0xffff {
            Some(Ipv4Addr { bits: (self.bits % 0x1_0000_0000) as u32 })
        } else {
            None
        }
    }
}

/// The address that a client is known by: a mapped IPv4 address is IPv4.
pub open spec fn normalized(ip: IpAddr) -> IpAddr {
    match ip {
        IpAddr::V6(v6) => if v6.maps_v4() {
            IpAddr::V4(Ipv4Addr { bits: (v6.bits % 0x1_0000_0000) as u32 })
        } else {
            ip
        },
        IpAddr::V4(_) => ip,
    }
}

/// Treats a mapped IPv4 address as IPv4.
pub fn normalize_ip(ip: IpAddr) -> (r: IpAddr)
    ensures
        r == normalized(ip),
{
    match ip {
        IpAddr::V6(v6) => match v6.to_ipv4_mapped() {
            Some(v4) => IpAddr::V4(v4),
            None => IpAddr::V6(v6),
        },
        other => other,
    }
}

/// A decimal octet: one to three digits, at most 255, no leading zero.
pub open spec fn is_octet(s: Seq<char>) -> bool {
    &&& 1 <= s.len() <= 3
    &&& text::all_digits(s, 10)
    &&& s.len() > 1 ==> s[0] != '0'
    &&& text::number(s, 10) <= 255
}

/// The number of a dotted quad, if the text is one.
pub open spec fn v4_of_text(s: Seq<char>) -> Option<nat> {
    let p = text::pieces(s, '.');
    if p.len() == 4 && is_octet(p[0]) && is_octet(p[1]) && is_octet(p[2]) && is_octet(p[3]) {
        Some(
            octets_value(
                text::number(p[0], 10),
                text::number(p[1], 10),
                text::number(p[2], 10),
                text::number(p[3], 10),
            ),
        )
    } else {
        None
    }
}

/// A hexadecimal group: one to four digits.
pub open spec fn is_group(s: Seq<char>) -> bool {
    1 <= s.len() <= 4 && text::all_digits(s, 16)
}

/// Whether all of the pieces are hexadecimal groups.
pub open spec fn all_groups(p: Seq<Seq<char>>) -> bool {
    forall|i: int| 0 <= i < p.len() ==> is_group(#[trigger] p[i])
}

/// The numbers of some hexadecimal groups.
pub open spec fn group_values(p: Seq<Seq<char>>) -> Seq<nat> {
    Seq::new(p.len(), |i: int| text::number(p[i], 16))
}

/// The segments that a run of groups between colons stands for. An empty text
/// is a run of none; where `quad` is set, the last piece may be a dotted quad
/// that stands for two segments.
pub open spec fn run_of_text(s: Seq<char>, quad: bool) -> Option<Seq<nat>> {
    let p = text::pieces(s, ':');
    if s.len() == 0 {
        Some(Seq::empty())
    } else if all_groups(p) {
        Some(group_values(p))
    } else if quad && all_groups(p.drop_last()) && v4_of_text(p.last()) is Some {
        let v4 = v4_of_text(p.last())->0;
        Some(group_values(p.drop_last()) + seq![v4 / 65536, v4 % 65536])
    } else {
        None
    }
}

/// Where `::` first occurs; the length where it does not.
pub open spec fn first_gap(s: Seq<char>) -> nat
    decreases s.len(),
{
    if s.len() < 2 {
        s.len()
    } else if s[0] == ':' && s[1] == ':' {
        0
    } else {
        1 + first_gap(s.skip(1))
    }
}

/// Eight segments out of those before and those after a gap of zeros.
pub open spec fn with_gap(head: Seq<nat>, tail: Seq<nat>) -> Seq<nat> {
    head + Seq::new((8 - head.len() - tail.len()) as nat, |i: int| 0nat) + tail
}

/// The segments of an IPv6 address, if the text is one: eight of them, or
/// fewer with a `::` that stands for at least one segment of zeros. A dotted
/// quad may stand for the last two.
pub open spec fn v6_of_text(s: Seq<char>) -> Option<Seq<nat>> {
    let gap = first_gap(s) as int;
    if gap >= s.len() {
        match run_of_text(s, true) {
            Some(g) => if g.len() == 8 {
                Some(g)
            } else {
                None
            },
            None => None,
        }
    } else {
        match (run_of_text(s.take(gap), false), run_of_text(s.skip(gap + 2), true)) {
            (Some(head), Some(tail)) => if head.len() + tail.len() <= 7 {
                Some(with_gap(head, tail))
            } else {
                None
            },
            _ => None,
        }
    }
}

/// The address that a text stands for, if it is one.
pub open spec fn ip_of_text(s: Seq<char>) -> Option<IpAddr> {
    match v4_of_text(s) {
        Some(v4) => Some(IpAddr::V4(Ipv4Addr { bits: v4 as u32 })),
        None => match v6_of_text(s) {
            Some(g) => Some(IpAddr::V6(Ipv6Addr { bits: segments_value(g) as u128 })),
            None => None,
        },
    }
}

/// Reads up to four digits.
fn read_digits(chars: &Vec<char>, from: usize, to: usize, base: u32, most: usize) -> (r: Option<
    u32,
>)
    requires
        from <= to <= chars@.len(),
        base == 10 || base == 16,
        most <= 4,
    ensures
        ({
            let s = chars@.subrange(from as int, to as int);
            if 1 <= s.len() <= most && text::all_digits(s, base as nat) {
                r == Some(text::number(s, base as nat) as u32) && text::number(s, base as nat)
                    <= 0xffff
            } else {
                r is None
            }
        }),
{
    let ghost s = chars@.subrange(from as int, to as int);
    if to - from < 1 || to - from > most {
        return None;
    }
    let mut value: u32 = 0;
    let mut i: usize = from;
    while i < to
        invariant
            from <= i <= to <= chars@.len(),
            to - from <= 4,
            base == 10 || base == 16,
            s == chars@.subrange(from as int, to as int),
            value == text::number(s.take(i - from), base as nat),
            forall|k: int| 0 <= k < i - from ==> text::digit_value(#[trigger] s[k]) < base,
            i - from == 0 ==> value == 0,
            i - from <= 1 ==> value <= 0xf,
            i - from <= 2 ==> value <= 0xff,
            i - from <= 3 ==> value <= 0xfff,
            value <= 0xffff,
        decreases to - i,
    {
        let digit: u32 = text::digit_of(chars[i]);
        assert(s[i - from] == chars@[i as int]);
        if digit >= base {
            assert(!text::all_digits(s, base as nat));
            return None;
        }
        proof {
            let next = s.take(i - from + 1);
            assert(next.drop_last() =~= s.take(i - from));
            assert(next.last() == s[i - from]);
            assert(value * base <= value * 16) by (nonlinear_arith)
                requires
                    base <= 16,
            ;
        }
        value = value * base + digit;
        i += 1;
    }
    assert(s.take(to - from) =~= s);
    Some(value)
}

/// Reads a decimal octet.
fn read_octet(chars: &Vec<char>, from: usize, to: usize) -> (r: Option<u32>)
    requires
        from <= to <= chars@.len(),
    ensures
        ({
            let s = chars@.subrange(from as int, to as int);
            if is_octet(s) {
                r == Some(text::number(s, 10) as u32)
            } else {
                r is None
            }
        }),
{
    if to - from > 1 && chars[from] == '0' {
        return None;
    }
    match read_digits(chars, from, to, 10, 3) {
        Some(value) => if value <= 255 {
            Some(value)
        } else {
            None
        },
        None => None,
    }
}

/// Reads a dotted quad.
fn read_v4(chars: &Vec<char>, from: usize, to: usize) -> (r: Option<u32>)
    requires
        from <= to <= chars@.len(),
    ensures
        ({
            let s = chars@.subrange(from as int, to as int);
            match v4_of_text(s) {
                Some(v4) => r == Some(v4 as u32) && v4 <= u32::MAX,
                None => r is None,
            }
        }),
{
    let parts: Vec<(usize, usize)> = text::split(chars, from, to, '.');
    if parts.len() != 4 {
        return None;
    }
    let a: u32 = match read_octet(chars, parts[0].0, parts[0].1) {
        Some(octet) => octet,
        None => return None,
    };
    let b: u32 = match read_octet(chars, parts[1].0, parts[1].1) {
        Some(octet) => octet,
        None => return None,
    };
    let c: u32 = match read_octet(chars, parts[2].0, parts[2].1) {
        Some(octet) => octet,
        None => return None,
    };
    let d: u32 = match read_octet(chars, parts[3].0, parts[3].1) {
        Some(octet) => octet,
        None => return None,
    };
    Some(((a * 256 + b) * 256 + c) * 256 + d)
}

/// The values of some segments.
pub open spec fn as_values(g: Seq<u16>) -> Seq<nat> {
    Seq::new(g.len(), |i: int| g[i] as nat)
}

/// Reads a run of groups between colons.
fn read_run(chars: &Vec<char>, from: usize, to: usize, quad: bool) -> (r: Option<Vec<u16>>)
    requires
        from <= to <= chars@.len(),
    ensures
        ({
            let s = chars@.subrange(from as int, to as int);
            match run_of_text(s, quad) {
                Some(g) => r matches Some(v) && as_values(v@) == g,
                None => r is None,
            }
        }),
{
    let ghost s = chars@.subrange(from as int, to as int);
    let mut out: Vec<u16> = Vec::new();
    if from == to {
        assert(as_values(out@) =~= Seq::<nat>::empty());
        return Some(out);
    }
    let parts: Vec<(usize, usize)> = text::split(chars, from, to, ':');
    let ghost p = text::pieces(s, ':');
    let count: usize = parts.len();
    let mut i: usize = 0;
    while i < count
        invariant
            from < to <= chars@.len(),
            s == chars@.subrange(from as int, to as int),
            p == text::pieces(s, ':'),
            count == parts@.len() == p.len(),
            i <= count,
            out@.len() == i,
            forall|k: int|
                0 <= k < count ==> from <= (#[trigger] parts@[k]).0 <= parts@[k].1 <= to
                    && chars@.subrange(parts@[k].0 as int, parts@[k].1 as int) == p[k],
            forall|k: int|
                0 <= k < i ==> is_group(#[trigger] p[k]) && out@[k] == text::number(p[k], 16),
        decreases count - i,
    {
        let part: (usize, usize) = parts[i];
        assert(chars@.subrange(part.0 as int, part.1 as int) == p[i as int]);
        match read_digits(chars, part.0, part.1, 16, 4) {
            Some(value) => {
                out.push(value as u16);
            },
            None => {
                assert(!is_group(p[i as int]));
                assert(!all_groups(p));
                if quad && i + 1 == count {
                    if let Some(v4) = read_v4(chars, part.0, part.1) {
                        proof {
                            assert(p.last() == p[i as int]);
                            assert(all_groups(p.drop_last())) by {
                                assert forall|k: int| 0 <= k < p.drop_last().len() implies is_group(
                                    #[trigger] p.drop_last()[k],
                                ) by {
                                    assert(p.drop_last()[k] == p[k]);
                                }
                            }
                        }
                        let ghost front = out@;
                        out.push((v4 / 65536) as u16);
                        out.push((v4 % 65536) as u16);
                        proof {
                            let wanted = group_values(p.drop_last()) + seq![
                                (v4 as nat) / 65536,
                                (v4 as nat) % 65536,
                            ];
                            assert(as_values(out@).len() == wanted.len());
                            assert forall|k: int| 0 <= k < wanted.len() implies as_values(out@)[k]
                                == wanted[k] by {
                                if k < front.len() {
                                    assert(out@[k] == front[k]);
                                    assert(p.drop_last()[k] == p[k]);
                                }
                            }
                            assert(as_values(out@) =~= wanted);
                        }
                        return Some(out);
                    }
                } else if i + 1 != count {
                    assert(p.drop_last()[i as int] == p[i as int]);
                    assert(!all_groups(p.drop_last()));
                }
                return None;
            },
        }
        i += 1;
    }
    proof {
        assert(all_groups(p));
        assert(as_values(out@) =~= group_values(p));
    }
    Some(out)
}

/// Looks for `::`.
fn find_gap(chars: &Vec<char>, from: usize, to: usize) -> (r: usize)
    requires
        from <= to <= chars@.len(),
    ensures
        from <= r <= to,
        r - from == first_gap(chars@.subrange(from as int, to as int)),
        r < to ==> r + 1 < to,
{
    let ghost s = chars@.subrange(from as int, to as int);
    let mut i: usize = from;
    while i < to && to - i >= 2 && !(chars[i] == ':' && chars[i + 1] == ':')
        invariant
            from <= i <= to <= chars@.len(),
            s == chars@.subrange(from as int, to as int),
            first_gap(s) == (i - from) + first_gap(chars@.subrange(i as int, to as int)),
        decreases to - i,
    {
        assert(chars@.subrange(i as int, to as int).skip(1) =~= chars@.subrange(i + 1, to as int));
        i += 1;
    }
    if to - i < 2 {
        to
    } else {
        i
    }
}

/// The address with these eight segments.
fn join(g: &Vec<u16>) -> (r: Ipv6Addr)
    requires
        g@.len() == 8,
    ensures
        r.bits == segments_value(as_values(g@)),
{
    Ipv6Addr::new(g[0], g[1], g[2], g[3], g[4], g[5], g[6], g[7])
}

/// Reads an IPv6 address.
fn read_v6(chars: &Vec<char>, from: usize, to: usize) -> (r: Option<Ipv6Addr>)
    requires
        from <= to <= chars@.len(),
    ensures
        ({
            let s = chars@.subrange(from as int, to as int);
            match v6_of_text(s) {
                Some(g) => r matches Some(v6) && v6.bits == segments_value(g),
                None => r is None,
            }
        }),
{
    let ghost s = chars@.subrange(from as int, to as int);
    let gap: usize = find_gap(chars, from, to);
    if gap >= to {
        match read_run(chars, from, to, true) {
            Some(g) => if g.len() == 8 {
                Some(join(&g))
            } else {
                None
            },
            None => None,
        }
    } else {
        proof {
            assert(s.take(gap - from) =~= chars@.subrange(from as int, gap as int));
            assert(s.skip(gap - from + 2) =~= chars@.subrange(gap + 2, to as int));
        }
        let head: Vec<u16> = match read_run(chars, from, gap, false) {
            Some(g) => g,
            None => return None,
        };
        let tail: Vec<u16> = match read_run(chars, gap + 2, to, true) {
            Some(g) => g,
            None => return None,
        };
        if head.len() > 7 || tail.len() > 7 - head.len() {
            return None;
        }
        let zeros: usize = 8 - head.len() - tail.len();
        let mut all: Vec<u16> = Vec::new();
        let mut i: usize = 0;
        while i < 8
            invariant
                i <= 8,
                head@.len() + tail@.len() + zeros == 8,
                all@.len() == i,
                forall|k: int|
                    0 <= k < i ==> #[trigger] all@[k] == with_gap(
                        as_values(head@),
                        as_values(tail@),
                    )[k],
            decreases 8 - i,
        {
            let segment: u16 = if i < head.len() {
                head[i]
            } else if i < head.len() + zeros {
                0
            } else {
                tail[i - head.len() - zeros]
            };
            all.push(segment);
            i += 1;
        }
        assert(as_values(all@) =~= with_gap(as_values(head@), as_values(tail@)));
        Some(join(&all))
    }
}

/// Reads an address of either family.
pub fn read_ip(chars: &Vec<char>, from: usize, to: usize) -> (r: Option<IpAddr>)
    requires
        from <= to <= chars@.len(),
    ensures
        r == ip_of_text(chars@.subrange(from as int, to as int)),
{
    match read_v4(chars, from, to) {
        Some(v4) => Some(IpAddr::V4(Ipv4Addr { bits: v4 })),
        None => match read_v6(chars, from, to) {
            Some(v6) => Some(IpAddr::V6(v6)),
            None => None,
        },
    }
}

impl IpAddr {
    /// The address that a text stands for.
    pub fn parse(s: &str) -> (r: Option<IpAddr>)
        ensures
            r == ip_of_text(s@),
    {
        let chars: Vec<char> = text::chars_of(s);
        assert(chars@.subrange(0, chars@.len() as int) =~= s@);
        read_ip(&chars, 0, chars.len())
    }
}

} // verus!
