//! The canonical texts of internet addresses, by which clients are known.
use vstd::prelude::*;

use crate::ip;
use crate::ip::{IpAddr, Ipv4Addr, Ipv6Addr};
use crate::text;

verus! {

/// The dotted quad of an IPv4 address.
pub open spec fn v4_text(bits: nat) -> Seq<char> {
    text::decimal(bits / 0x100_0000 % 256) + seq!['.'] + (text::decimal(bits / 0x1_0000 % 256)
        + seq!['.'] + (text::decimal(bits / 0x100 % 256) + seq!['.'] + text::decimal(bits % 256)))
}

/// The lowest `count` segments of a number, uppermost first.
pub open spec fn low_segments(bits: nat, count: nat) -> Seq<nat>
    decreases count,
{
    if count == 0 {
        Seq::empty()
    } else {
        low_segments(bits / 65536, (count - 1) as nat).push(bits % 65536)
    }
}

/// The eight segments of an IPv6 address.
pub open spec fn segments(bits: nat) -> Seq<nat> {
    low_segments(bits, 8)
}

/// How many segments in a row are zero from position `i` on.
pub open spec fn zeros_from(g: Seq<nat>, i: int) -> nat
    decreases g.len() - i,
{
    if 0 <= i < g.len() && g[i] == 0 {
        1 + zeros_from(g, i + 1)
    } else {
        0
    }
}

/// The longest run of zero segments from position `i` on, and of several the
/// first: where it begins and how long it is.
pub open spec fn longest_zeros(g: Seq<nat>, i: int) -> (int, nat)
    decreases g.len() - i,
{
    if i >= g.len() {
        (g.len() as int, 0)
    } else {
        let later = longest_zeros(g, i + 1);
        if zeros_from(g, i) >= later.1 {
            (i, zeros_from(g, i))
        } else {
            later
        }
    }
}

/// Segments in hexadecimal, with colons between them.
pub open spec fn groups_text(g: Seq<nat>) -> Seq<char>
    decreases g.len(),
{
    if g.len() == 0 {
        Seq::empty()
    } else if g.len() == 1 {
        text::numeral(g[0], 16)
    } else {
        text::numeral(g[0], 16) + seq![':'] + groups_text(g.skip(1))
    }
}

/// The text of an IPv6 address: a mapped IPv4 address keeps its dotted quad,
/// and otherwise the longest run of at least two zero segments is left out.
pub open spec fn v6_text(addr: Ipv6Addr) -> Seq<char> {
    let g = segments(addr.bits as nat);
    let (start, len) = longest_zeros(g, 0);
    if addr.maps_v4() {
        seq![':', ':'] + (text::numeral(0xffff, 16) + seq![':'] + v4_text(
            addr.bits as nat % 0x1_0000_0000,
        ))
    } else if len > 1 {
        groups_text(g.take(start)) + seq![':', ':'] + groups_text(g.skip(start + len))
    } else {
        groups_text(g)
    }
}

/// The text of an address.
pub open spec fn ip_text(addr: IpAddr) -> Seq<char> {
    match addr {
        IpAddr::V4(v4) => v4_text(v4.bits as nat),
        IpAddr::V6(v6) => v6_text(v6),
    }
}

/// Appends a dotted quad.
fn push_v4(out: &mut String, bits: u32)
    ensures
        final(out)@ == old(out)@ + v4_text(bits as nat),
{
    text::push_numeral(out, (bits / 0x100_0000 % 256) as u64, 10);
    out.push('.');
    text::push_numeral(out, (bits / 0x1_0000 % 256) as u64, 10);
    out.push('.');
    text::push_numeral(out, (bits / 0x100 % 256) as u64, 10);
    out.push('.');
    text::push_numeral(out, (bits % 256) as u64, 10);
    assert(out@ =~= old(out)@ + v4_text(bits as nat));
}

/// The eight segments of an address.
fn segments_of(addr: Ipv6Addr) -> (r: Vec<u16>)
    ensures
        r@.len() == 8,
        ip::as_values(r@) == segments(addr.bits as nat),
{
    let a: u128 = addr.bits;
    let b: u128 = a / 65536;
    let c: u128 = b / 65536;
    let d: u128 = c / 65536;
    let e: u128 = d / 65536;
    let f: u128 = e / 65536;
    let g: u128 = f / 65536;
    let h: u128 = g / 65536;
    let mut out: Vec<u16> = Vec::new();
    out.push((h % 65536) as u16);
    out.push((g % 65536) as u16);
    out.push((f % 65536) as u16);
    out.push((e % 65536) as u16);
    out.push((d % 65536) as u16);
    out.push((c % 65536) as u16);
    out.push((b % 65536) as u16);
    out.push((a % 65536) as u16);
    proof {
        reveal_with_fuel(low_segments, 9);
        assert(ip::as_values(out@) =~= segments(addr.bits as nat));
    }
    out
}

/// The first of the longest runs of zero segments: where it begins and ends.
fn find_zeros(g: &Vec<u16>) -> (r: (usize, usize))
    requires
        g@.len() <= 8,
    ensures
        r.0 <= r.1 <= g@.len(),
        longest_zeros(ip::as_values(g@), 0) == (r.0 as int, (r.1 - r.0) as nat),
{
    let ghost values = ip::as_values(g@);
    let mut i: usize = g.len();
    let mut run: usize = 0;
    let mut start: usize = i;
    let mut len: usize = 0;
    while i > 0
        invariant
            i <= g@.len() <= 8,
            values == ip::as_values(g@),
            i + run <= g@.len(),
            start + len <= g@.len(),
            run == zeros_from(values, i as int),
            longest_zeros(values, i as int) == (start as int, len as nat),
        decreases i,
    {
        i -= 1;
        if g[i] == 0 {
            run += 1;
        } else {
            run = 0;
        }
        if run >= len {
            start = i;
            len = run;
        }
    }
    (start, start + len)
}

/// Appends some segments, with colons between them.
fn push_groups(out: &mut String, g: &Vec<u16>, from: usize, to: usize)
    requires
        from <= to <= g@.len(),
    ensures
        final(out)@ == old(out)@ + groups_text(
            ip::as_values(g@).subrange(from as int, to as int),
        ),
    decreases to - from,
{
    let ghost values = ip::as_values(g@).subrange(from as int, to as int);
    if from < to {
        text::push_numeral(out, g[from] as u64, 16);
        assert(values[0] == g@[from as int]);
        if from + 1 < to {
            out.push(':');
            assert(values.skip(1) =~= ip::as_values(g@).subrange(from + 1, to as int));
            push_groups(out, g, from + 1, to);
        }
    }
    assert(out@ =~= old(out)@ + groups_text(values));
}

impl Ipv4Addr {
    /// The dotted quad of the address.
    pub fn to_string(&self) -> (r: String)
        ensures
            r@ == v4_text(self.bits as nat),
    {
        let mut out: String = String::new();
        push_v4(&mut out, self.bits);
        assert(out@ =~= v4_text(self.bits as nat));
        out
    }
}

impl Ipv6Addr {
    /// The canonical text of the address.
    pub fn to_string(&self) -> (r: String)
        ensures
            r@ == v6_text(*self),
    {
        let mut out: String = String::new();
        match self.to_ipv4_mapped() {
            Some(v4) => {
                out.push(':');
                out.push(':');
                text::push_numeral(&mut out, 0xffff, 16);
                out.push(':');
                push_v4(&mut out, v4.bits);
                assert(out@ =~= v6_text(*self));
            },
            None => {
                let g: Vec<u16> = segments_of(*self);
                let gap: (usize, usize) = find_zeros(&g);
                let ghost values = ip::as_values(g@);
                if gap.1 - gap.0 > 1 {
                    push_groups(&mut out, &g, 0, gap.0);
                    out.push(':');
                    out.push(':');
                    push_groups(&mut out, &g, gap.1, g.len());
                    assert(values.subrange(0, gap.0 as int) =~= values.take(gap.0 as int));
                    assert(values.subrange(gap.1 as int, 8) =~= values.skip(gap.1 as int));
                } else {
                    push_groups(&mut out, &g, 0, g.len());
                    assert(values.subrange(0, 8) =~= values);
                }
                assert(out@ =~= v6_text(*self));
            },
        }
        out
    }
}

impl IpAddr {
    /// The canonical text of the address.
    pub fn to_string(&self) -> (r: String)
        ensures
            r@ == ip_text(*self),
    {
        match self {
            IpAddr::V4(v4) => v4.to_string(),
            IpAddr::V6(v6) => v6.to_string(),
        }
    }
}

} // verus!
