//! Networks of addresses in prefix notation.
use vstd::prelude::*;

use crate::ip;
use crate::ip::{IpAddr, Ipv4Addr, Ipv6Addr};
use crate::text;

verus! {

/// Why a text is not a network.
#[derive(Debug, Clone, PartialEq, Eq)]
pub enum ClientIpError {
    /// The address portion is not an address.
    InvalidIp(String),
    /// The prefix length is not a number, or exceeds the width of the address
    /// family (32 for IPv4, 128 for IPv6).
    InvalidPrefix(String),
}

/// A network: all addresses that agree with one address in a leading run of
/// bits.
#[allow(inconsistent_fields)]
#[derive(Debug, Clone, Copy, PartialEq, Eq, Hash, Structural)]
pub enum IpNet {
    /// An IPv4 network.
    V4 {
        /// An address of the network; the bits beyond the prefix do not matter.
        addr: Ipv4Addr,
        /// The number of leading bits, 0 to 32.
        prefix: u8,
    },
    /// An IPv6 network.
    V6 {
        /// An address of the network; the bits beyond the prefix do not matter.
        addr: Ipv6Addr,
        /// The number of leading bits, 0 to 128.
        prefix: u8,
    },
}

/// The bits of an address that a prefix leaves free. A prefix that is longer
/// than the address leaves none.
pub open spec fn host_bits(width: nat, prefix: nat) -> nat {
    if prefix >= width {
        0
    } else {
        (width - prefix) as nat
    }
}

/// How many addresses a prefix leaves free.
pub open spec fn block_size(width: nat, prefix: nat) -> nat {
    vstd::arithmetic::power2::pow2(host_bits(width, prefix))
}

/// Whether two addresses agree in the bits of the prefix.
pub open spec fn same_network(width: nat, prefix: nat, a: nat, b: nat) -> bool {
    a / block_size(width, prefix) == b / block_size(width, prefix)
}

/// An address with the bits beyond the prefix cleared.
pub open spec fn network_part(width: nat, prefix: nat, a: nat) -> nat {
    (a - a % block_size(width, prefix)) as nat
}

proof fn lemma_network_parts_agree(width: nat, prefix: nat, a: nat, b: nat)
    ensures
        network_part(width, prefix, a) == network_part(width, prefix, b) <==> same_network(
            width,
            prefix,
            a,
            b,
        ),
{
    let m = block_size(width, prefix) as int;
    vstd::arithmetic::power2::lemma_pow2_pos(host_bits(width, prefix));
    vstd::arithmetic::div_mod::lemma_fundamental_div_mod(a as int, m);
    vstd::arithmetic::div_mod::lemma_fundamental_div_mod(b as int, m);
    vstd::arithmetic::div_mod::lemma_mod_bound(a as int, m);
    vstd::arithmetic::div_mod::lemma_mod_bound(b as int, m);
    let qa = a as int / m;
    let qb = b as int / m;
    assert(m * qa == m * qb <==> qa == qb) by (nonlinear_arith)
        requires
            m > 0,
    ;
    vstd::arithmetic::mul::lemma_mul_nonnegative(m, qa);
    vstd::arithmetic::mul::lemma_mul_nonnegative(m, qb);
}

proof fn lemma_u128_shl_is_mul(x: u128, shift: u128)
    requires
        shift < 128,
        x * vstd::arithmetic::power2::pow2(shift as nat) <= u128::MAX,
    ensures
        x << shift == x * vstd::arithmetic::power2::pow2(shift as nat),
    decreases shift,
{
    if shift == 0 {
        assert(x << 0 == x) by (bit_vector);
        vstd::arithmetic::power2::lemma2_to64();
    } else {
        let below: u128 = (shift - 1) as u128;
        vstd::arithmetic::power2::lemma_pow2_unfold(shift as nat);
        let half = vstd::arithmetic::power2::pow2(below as nat) as int;
        assert(x * (2 * half) == 2 * (x * half)) by (nonlinear_arith);
        assert(x * half >= 0) by (nonlinear_arith)
            requires
                half >= 0,
        ;
        lemma_u128_shl_is_mul(x, below);
        let y = x << below;
        assert(x << shift == (x << below) << 1u128) by (bit_vector)
            requires
                0 < shift < 128,
                shift == below + 1,
        ;
        assert(y << 1u128 == 2 * y) by (bit_vector)
            requires
                2 * y <= 0xffff_ffff_ffff_ffff_ffff_ffff_ffff_ffffu128,
        ;
    }
}

/// The mask of an IPv4 prefix: `&` with it clears the bits beyond the prefix.
pub fn v4_mask(prefix: u8) -> (r: u32)
    ensures
        forall|a: u32| #[trigger] (r & a) == network_part(32, prefix as nat, a as nat),
{
    if prefix == 0 {
        proof {
            vstd::arithmetic::power2::lemma2_to64();
            assert forall|a: u32| #[trigger] (0u32 & a) == network_part(32, 0, a as nat) by {
                assert(0u32 & a == 0) by (bit_vector);
                vstd::arithmetic::div_mod::lemma_small_mod(
                    a as nat,
                    vstd::arithmetic::power2::pow2(32),
                );
            }
        }
        0
    } else if prefix >= 32 {
        proof {
            vstd::arithmetic::power2::lemma2_to64();
            assert forall|a: u32| #[trigger] (0xffff_ffffu32 & a) == network_part(
                32,
                prefix as nat,
                a as nat,
            ) by {
                assert(0xffff_ffffu32 & a == a) by (bit_vector);
            }
        }
        0xffff_ffff
    } else {
        let shift: u32 = 32 - prefix as u32;
        let mask: u32 = 0xffff_ffffu32 << shift;
        proof {
            assert forall|a: u32| #[trigger] (mask & a) == network_part(
                32,
                prefix as nat,
                a as nat,
            ) by {
                let m = vstd::arithmetic::power2::pow2(shift as nat) as int;
                assert((0xffff_ffffu32 << shift) & a == (a >> shift) << shift) by (bit_vector)
                    requires
                        0 < shift < 32,
                ;
                vstd::bits::lemma_u32_shr_is_div(a, shift);
                vstd::arithmetic::power2::lemma_pow2_pos(shift as nat);
                vstd::arithmetic::div_mod::lemma_fundamental_div_mod(a as int, m);
                vstd::arithmetic::div_mod::lemma_mod_bound(a as int, m);
                vstd::arithmetic::mul::lemma_mul_is_commutative(a as int / m, m);
                vstd::bits::lemma_u32_shl_is_mul(a >> shift, shift);
            }
        }
        mask
    }
}

/// The mask of an IPv6 prefix: `&` with it clears the bits beyond the prefix.
pub fn v6_mask(prefix: u8) -> (r: u128)
    ensures
        forall|a: u128| #[trigger] (r & a) == network_part(128, prefix as nat, a as nat),
{
    if prefix == 0 {
        proof {
            assert(vstd::arithmetic::power2::pow2(128)
                == 0x1_0000_0000_0000_0000_0000_0000_0000_0000) by {
                vstd::arithmetic::power2::lemma2_to64();
                vstd::arithmetic::power2::lemma_pow2_adds(64, 64);
            }
            assert forall|a: u128| #[trigger] (0u128 & a) == network_part(128, 0, a as nat) by {
                assert(0u128 & a == 0) by (bit_vector);
                vstd::arithmetic::div_mod::lemma_small_mod(
                    a as nat,
                    vstd::arithmetic::power2::pow2(128),
                );
            }
        }
        0
    } else if prefix >= 128 {
        proof {
            vstd::arithmetic::power2::lemma2_to64();
            assert forall|a: u128|
                #[trigger] (0xffff_ffff_ffff_ffff_ffff_ffff_ffff_ffffu128 & a) == network_part(
                    128,
                    prefix as nat,
                    a as nat,
                ) by {
                assert(0xffff_ffff_ffff_ffff_ffff_ffff_ffff_ffffu128 & a == a) by (bit_vector);
            }
        }
        0xffff_ffff_ffff_ffff_ffff_ffff_ffff_ffff
    } else {
        let shift: u128 = 128 - prefix as u128;
        let mask: u128 = 0xffff_ffff_ffff_ffff_ffff_ffff_ffff_ffffu128 << shift;
        proof {
            assert forall|a: u128| #[trigger] (mask & a) == network_part(
                128,
                prefix as nat,
                a as nat,
            ) by {
                let m = vstd::arithmetic::power2::pow2(shift as nat) as int;
                assert((0xffff_ffff_ffff_ffff_ffff_ffff_ffff_ffffu128 << shift) & a == (a >> shift)
                    << shift) by (bit_vector)
                    requires
                        0 < shift < 128,
                ;
                vstd::bits::lemma_u128_shr_is_div(a, shift);
                vstd::arithmetic::power2::lemma_pow2_pos(shift as nat);
                vstd::arithmetic::div_mod::lemma_fundamental_div_mod(a as int, m);
                vstd::arithmetic::div_mod::lemma_mod_bound(a as int, m);
                vstd::arithmetic::mul::lemma_mul_is_commutative(a as int / m, m);
                lemma_u128_shl_is_mul(a >> shift, shift);
            }
        }
        mask
    }
}

/// The address with the bits beyond the prefix cleared.
pub fn mask_v4(addr: Ipv4Addr, prefix: u8) -> (r: Ipv4Addr)
    ensures
        r.bits == network_part(32, prefix as nat, addr.bits as nat),
{
    Ipv4Addr { bits: v4_mask(prefix) & addr.bits }
}

/// The address with the bits beyond the prefix cleared.
pub fn mask_v6(addr: Ipv6Addr, prefix: u8) -> (r: Ipv6Addr)
    ensures
        r.bits == network_part(128, prefix as nat, addr.bits as nat),
{
    Ipv6Addr { bits: v6_mask(prefix) & addr.bits }
}

/// What a text says about a network.
pub enum NetText {
    /// A network.
    Net(IpNet),
    /// Not an address: the text of the address portion.
    InvalidIp(Seq<char>),
    /// Not a prefix length: its text.
    InvalidPrefix(Seq<char>),
}

/// The small number that a text stands for: digits, with a `+` allowed in front.
pub open spec fn small_number(s: Seq<char>) -> Option<nat> {
    let digits = if s.len() > 0 && s[0] == '+' {
        s.skip(1)
    } else {
        s
    };
    if digits.len() > 0 && text::all_digits(digits, 10) && text::number(digits, 10) <= 255 {
        Some(text::number(digits, 10))
    } else {
        None
    }
}

/// The network of an address and a prefix length, if the length fits.
pub open spec fn net_of(addr: IpAddr, prefix: nat) -> NetText {
    match addr {
        IpAddr::V4(v4) => if prefix <= 32 {
            NetText::Net(
                IpNet::V4 {
                    addr: Ipv4Addr { bits: network_part(32, prefix, v4.bits as nat) as u32 },
                    prefix: prefix as u8,
                },
            )
        } else {
            NetText::InvalidPrefix(text::decimal(prefix))
        },
        IpAddr::V6(v6) => if prefix <= 128 {
            NetText::Net(
                IpNet::V6 {
                    addr: Ipv6Addr { bits: network_part(128, prefix, v6.bits as nat) as u128 },
                    prefix: prefix as u8,
                },
            )
        } else {
            NetText::InvalidPrefix(text::decimal(prefix))
        },
    }
}

/// What a text such as `10.0.0.0/8` says. An address alone is a network of
/// itself; white space around either portion does not count; a mapped IPv4
/// address is IPv4.
pub open spec fn net_of_text(s: Seq<char>) -> NetText {
    let slash = text::first_index(s, '/') as int;
    if slash >= s.len() {
        match ip::ip_of_text(text::trim(s)) {
            Some(addr) => match ip::normalized(addr) {
                IpAddr::V4(v4) => NetText::Net(IpNet::V4 { addr: v4, prefix: 32 }),
                IpAddr::V6(v6) => NetText::Net(IpNet::V6 { addr: v6, prefix: 128 }),
            },
            None => NetText::InvalidIp(s),
        }
    } else {
        match small_number(text::trim(s.skip(slash + 1))) {
            None => NetText::InvalidPrefix(s.skip(slash + 1)),
            Some(prefix) => match ip::ip_of_text(text::trim(s.take(slash))) {
                Some(addr) => net_of(ip::normalized(addr), prefix),
                None => NetText::InvalidIp(s.take(slash)),
            },
        }
    }
}

/// Reads a small number.
fn read_small(chars: &Vec<char>, from: usize, to: usize) -> (r: Option<u8>)
    requires
        from <= to <= chars@.len(),
    ensures
        match small_number(chars@.subrange(from as int, to as int)) {
            Some(n) => r == Some(n as u8) && n <= 255,
            None => r is None,
        },
{
    let ghost s = chars@.subrange(from as int, to as int);
    let start: usize = if from < to && chars[from] == '+' {
        from + 1
    } else {
        from
    };
    let ghost digits = chars@.subrange(start as int, to as int);
    proof {
        if start != from {
            assert(s.skip(1) =~= digits);
        }
    }
    if start == to {
        return None;
    }
    let mut value: u32 = 0;
    let mut i: usize = start;
    while i < to
        invariant
            from <= start <= i <= to <= chars@.len(),
            s == chars@.subrange(from as int, to as int),
            digits == chars@.subrange(start as int, to as int),
            value == text::number(digits.take(i - start), 10),
            value <= 255,
            forall|k: int| 0 <= k < i - start ==> text::digit_value(#[trigger] digits[k]) < 10,
            small_number(s) is Some <==> (text::all_digits(digits, 10) && text::number(digits, 10)
                <= 255),
        decreases to - i,
    {
        let digit: u32 = text::digit_of(chars[i]);
        assert(digits[i - start] == chars@[i as int]);
        if digit >= 10 {
            assert(!text::all_digits(digits, 10));
            return None;
        }
        proof {
            let next = digits.take(i - start + 1);
            assert(next.drop_last() =~= digits.take(i - start));
            assert(next.last() == digits[i - start]);
        }
        value = value * 10 + digit;
        i += 1;
        if value > 255 {
            proof {
                lemma_number_grows(digits, i - start);
            }
            return None;
        }
    }
    assert(digits.take(to - start) =~= digits);
    Some(value as u8)
}

proof fn lemma_number_grows(s: Seq<char>, k: int)
    requires
        0 <= k <= s.len(),
    ensures
        text::number(s.take(k), 10) <= text::number(s, 10),
    decreases s.len(),
{
    if k < s.len() {
        lemma_number_grows(s.drop_last(), k);
        assert(s.drop_last().take(k) =~= s.take(k));
    } else {
        assert(s.take(k) =~= s);
    }
}

impl ClientIpError {
    /// The message of the error.
    pub fn to_string(&self) -> (r: String)
        ensures
            r@ == match self {
                ClientIpError::InvalidIp(t) => "invalid IP address: "@ + t@,
                ClientIpError::InvalidPrefix(t) => "invalid prefix length: "@ + t@,
            },
    {
        match self {
            ClientIpError::InvalidIp(t) => {
                let mut message: String = "invalid IP address: ".to_owned();
                message.append(t.as_str());
                message
            },
            ClientIpError::InvalidPrefix(t) => {
                let mut message: String = "invalid prefix length: ".to_owned();
                message.append(t.as_str());
                message
            },
        }
    }
}

impl IpNet {
    /// Reads `10.0.0.0/8`, `2001:db8::/32`, or an address alone (which means
    /// `/32` for IPv4 and `/128` for IPv6). A mapped IPv4 address such as
    /// `::ffff:10.0.0.1` is IPv4.
    pub fn parse(s: &str) -> (r: Result<Self, ClientIpError>)
        ensures
            match net_of_text(s@) {
                NetText::Net(net) => r == Ok::<IpNet, ClientIpError>(net),
                NetText::InvalidIp(t) => r matches Err(ClientIpError::InvalidIp(m)) && m@ == t,
                NetText::InvalidPrefix(t) => r matches Err(ClientIpError::InvalidPrefix(m)) && m@
                    == t,
            },
    {
        let chars: Vec<char> = text::chars_of(s);
        let len: usize = chars.len();
        assert(chars@.subrange(0, len as int) =~= s@);
        let slash: usize = text::find(&chars, 0, len, '/');
        proof {
            assert(s@.take(slash as int) =~= chars@.subrange(0, slash as int));
            if slash < len {
                assert(s@.skip(slash + 1) =~= chars@.subrange(slash + 1, len as int));
            } else {
                assert(s@.take(slash as int) =~= s@);
            }
        }
        let prefix: Option<u8> = if slash < len {
            let bounds: (usize, usize) = text::trimmed(&chars, slash + 1, len);
            match read_small(&chars, bounds.0, bounds.1) {
                Some(prefix) => Some(prefix),
                None => return Err(
                    ClientIpError::InvalidPrefix(text::text_of(&chars, slash + 1, len)),
                ),
            }
        } else {
            None
        };
        let bounds: (usize, usize) = text::trimmed(&chars, 0, slash);
        let addr: IpAddr = match ip::read_ip(&chars, bounds.0, bounds.1) {
            Some(addr) => ip::normalize_ip(addr),
            None => return Err(ClientIpError::InvalidIp(text::text_of(&chars, 0, slash))),
        };
        match (addr, prefix) {
            (IpAddr::V4(addr), None) => Ok(IpNet::V4 { addr, prefix: 32 }),
            (IpAddr::V4(addr), Some(prefix)) => if prefix <= 32 {
                Ok(IpNet::V4 { addr: mask_v4(addr, prefix), prefix })
            } else {
                Err(ClientIpError::InvalidPrefix(prefix_text(prefix)))
            },
            (IpAddr::V6(addr), None) => Ok(IpNet::V6 { addr, prefix: 128 }),
            (IpAddr::V6(addr), Some(prefix)) => if prefix <= 128 {
                Ok(IpNet::V6 { addr: mask_v6(addr, prefix), prefix })
            } else {
                Err(ClientIpError::InvalidPrefix(prefix_text(prefix)))
            },
        }
    }

    /// Whether an address belongs to the network. A mapped IPv4 address is
    /// IPv4, and belongs to IPv4 networks only.
    pub open spec fn covers(self, ip: IpAddr) -> bool {
        match (self, ip::normalized(ip)) {
            (IpNet::V4 { addr, prefix }, IpAddr::V4(other)) => same_network(
                32,
                prefix as nat,
                addr.bits as nat,
                other.bits as nat,
            ),
            (IpNet::V6 { addr, prefix }, IpAddr::V6(other)) => same_network(
                128,
                prefix as nat,
                addr.bits as nat,
                other.bits as nat,
            ),
            _ => false,
        }
    }

    /// Whether an address belongs to the network.
    pub fn contains(&self, ip: IpAddr) -> (r: bool)
        ensures
            r == self.covers(ip),
    {
        let ip: IpAddr = ip::normalize_ip(ip);
        match (self, ip) {
            (IpNet::V4 { addr, prefix }, IpAddr::V4(other)) => {
                let mask: u32 = v4_mask(*prefix);
                proof {
                    lemma_network_parts_agree(
                        32,
                        *prefix as nat,
                        addr.bits as nat,
                        other.bits as nat,
                    );
                }
                mask & addr.bits == mask & other.bits
            },
            (IpNet::V6 { addr, prefix }, IpAddr::V6(other)) => {
                let mask: u128 = v6_mask(*prefix);
                proof {
                    lemma_network_parts_agree(
                        128,
                        *prefix as nat,
                        addr.bits as nat,
                        other.bits as nat,
                    );
                }
                mask & addr.bits == mask & other.bits
            },
            _ => false,
        }
    }
}

fn prefix_text(prefix: u8) -> (r: String)
    ensures
        r@ == text::decimal(prefix as nat),
{
    let mut out: String = String::new();
    text::push_numeral(&mut out, prefix as u64, 10);
    assert(out@ =~= text::decimal(prefix as nat));
    out
}

} // verus!
