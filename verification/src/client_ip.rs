//! Client identity for rate limiting behind proxies.
//!
//! Any client can set `X-Forwarded-For`, so a service that believes it blindly
//! hands out a fresh budget per request. The identity here is safe by default.
//!
//! Given the direct peer of a request and a [`ClientIpConfig`]:
//!
//! 1. A peer outside `trusted_proxies` is the client, whatever the headers say.
//!    With no trusted proxies the forwarded header is never read.
//! 2. Behind a trusted peer the forwarded header is split at commas and walked
//!    from right to left: `num_trusted_hops` entries are skipped, and the next
//!    one is the client. A header that is missing, not ASCII or too short, or
//!    an entry that is no address, makes the peer the client.
//! 3. Without a peer there is no identity, and a [`MissingClientPolicy`]
//!    applies.
//!
//! # What `num_trusted_hops` counts
//!
//! Each trusted proxy appends the address it saw, so the rightmost entries are
//! our own. `num_trusted_hops` is how many of them belong to the chain in front
//! of the direct peer. Spoofed entries always stand to the left of these, and a
//! correct hop count never reads them.
//!
//! # Mapped addresses
//!
//! A mapped address `::ffff:a.b.c.d` counts as the IPv4 address that it maps,
//! both for membership in an [`IpNet`] and as the identity.
use http::{HeaderMap, HeaderName, HeaderValue};
use vstd::prelude::*;

use crate::http_headers;
use crate::ip;
use crate::ip::IpAddr;
pub use crate::ip_net::{ClientIpError, IpNet};
use crate::text;

verus! {

/// Configuration for deriving the rate limit key from the client's address.
///
/// The default trusts no proxy: every client is keyed by its socket address.
#[derive(Debug, Clone)]
pub struct ClientIpConfig {
    /// Peers whose forwarded header may be believed. None by default.
    pub trusted_proxies: Vec<IpNet>,
    /// How many entries to skip from the right. One by default.
    pub num_trusted_hops: usize,
    /// The name of the header to read in place of `X-Forwarded-For`, for
    /// platforms with a dedicated one. The same trust rules apply.
    pub trusted_header: Option<HeaderName>,
}

/// Policy for requests without a client identity.
#[derive(Debug, Clone, PartialEq, Eq)]
pub enum MissingClientPolicy {
    /// Fail closed. The default.
    Reject,
    /// Share one bucket under this key.
    FallbackKey(String),
}

/// Where a client identity came from.
#[derive(Debug, Clone, Copy, PartialEq, Eq, Structural)]
pub enum ClientIpSource {
    /// The direct peer's socket address.
    PeerSocket,
    /// An entry of the forwarded header.
    ForwardedHeader,
}

/// A client identity.
#[derive(Debug, Clone, Copy, PartialEq, Eq, Structural)]
pub struct ResolvedClient {
    /// The client's address. A mapped address is given as IPv4.
    pub ip: IpAddr,
    /// Where it came from.
    pub source: ClientIpSource,
}

/// No peer address was available.
#[derive(Debug, Clone, Copy, PartialEq, Eq, Structural)]
pub struct MissingClientIdentity;

impl Default for ClientIpConfig {
    fn default() -> (r: Self)
        ensures
            r.trusted_proxies@.len() == 0,
            r.num_trusted_hops == 1,
            r.trusted_header is None,
    {
        ClientIpConfig { trusted_proxies: Vec::new(), num_trusted_hops: 1, trusted_header: None }
    }
}

impl Default for MissingClientPolicy {
    fn default() -> (r: Self)
        ensures
            r is Reject,
    {
        MissingClientPolicy::Reject
    }
}

impl ClientIpConfig {
    /// Whether one of the trusted proxies covers this peer.
    pub open spec fn covers(&self, peer: IpAddr) -> bool {
        exists|i: int|
            0 <= i < self.trusted_proxies@.len() && #[trigger] self.trusted_proxies@[i].covers(peer)
    }

    /// The text of the name of the header that is read.
    pub open spec fn header_name(&self) -> Seq<char> {
        match self.trusted_header {
            Some(name) => http_headers::name_text(name),
            None => http_headers::lower("x-forwarded-for"@),
        }
    }

    /// Whether the forwarded header of this peer may be believed.
    pub fn trusts(&self, peer: IpAddr) -> (r: bool)
        ensures
            r == self.covers(peer),
    {
        let mut i: usize = 0;
        while i < self.trusted_proxies.len()
            invariant
                i <= self.trusted_proxies@.len(),
                forall|k: int| 0 <= k < i ==> !(#[trigger] self.trusted_proxies@[k]).covers(peer),
            decreases self.trusted_proxies@.len() - i,
        {
            if self.trusted_proxies[i].contains(peer) {
                assert(self.trusted_proxies@[i as int].covers(peer));
                return true;
            }
            i += 1;
        }
        false
    }
}

/// The address in a forwarded header `hops` entries from the right, if there is
/// one.
pub open spec fn forwarded(header: Option<Seq<char>>, hops: nat) -> Option<IpAddr> {
    match header {
        Some(s) => {
            let entries = text::pieces(s, ',');
            if hops < entries.len() {
                ip::ip_of_text(text::trim(entries[entries.len() - 1 - hops]))
            } else {
                None
            }
        },
        None => None,
    }
}

/// The identity of a client, from the text of the forwarded header and the
/// direct peer.
pub open spec fn identity(
    header: Option<Seq<char>>,
    peer: Option<IpAddr>,
    config: ClientIpConfig,
) -> Result<ResolvedClient, MissingClientIdentity> {
    match peer {
        None => Err(MissingClientIdentity),
        Some(peer) => {
            let own = ResolvedClient {
                ip: ip::normalized(peer),
                source: ClientIpSource::PeerSocket,
            };
            if config.covers(peer) {
                match forwarded(header, config.num_trusted_hops as nat) {
                    Some(client) => Ok(
                        ResolvedClient {
                            ip: ip::normalized(client),
                            source: ClientIpSource::ForwardedHeader,
                        },
                    ),
                    None => Ok(own),
                }
            } else {
                Ok(own)
            }
        },
    }
}

/// The text of the header that a configuration reads: that of the first value,
/// where there is one and it is visible ASCII.
pub open spec fn header_text(
    values: Map<Seq<char>, Seq<Seq<u8>>>,
    config: ClientIpConfig,
) -> Option<Seq<char>> {
    if values.contains_key(config.header_name()) && http_headers::visible(
        values[config.header_name()][0],
    ) {
        Some(http_headers::ascii_text(values[config.header_name()][0]))
    } else {
        None
    }
}

/// The text of an optional text.
pub open spec fn optional_text(s: Option<&str>) -> Option<Seq<char>> {
    match s {
        Some(s) => Some(s@),
        None => None,
    }
}

/// The address in a forwarded header, counted from the right.
fn forwarded_address(header: &str, hops: usize) -> (r: Option<IpAddr>)
    ensures
        r == forwarded(Some(header@), hops as nat),
{
    let chars: Vec<char> = text::chars_of(header);
    assert(chars@.subrange(0, chars@.len() as int) =~= header@);
    let entries: Vec<(usize, usize)> = text::split(&chars, 0, chars.len(), ',');
    if hops < entries.len() {
        let entry: (usize, usize) = entries[entries.len() - 1 - hops];
        let trimmed: (usize, usize) = text::trimmed(&chars, entry.0, entry.1);
        ip::read_ip(&chars, trimmed.0, trimmed.1)
    } else {
        None
    }
}

/// The identity of a client, from the text of the forwarded header.
pub fn resolve_forwarded(
    header: Option<&str>,
    peer: Option<IpAddr>,
    config: &ClientIpConfig,
) -> (r: Result<ResolvedClient, MissingClientIdentity>)
    ensures
        r == identity(optional_text(header), peer, *config),
{
    match peer {
        None => Err(MissingClientIdentity),
        Some(peer) => {
            let found: Option<IpAddr> = if config.trusts(peer) {
                match header {
                    Some(s) => forwarded_address(s, config.num_trusted_hops),
                    None => None,
                }
            } else {
                None
            };
            match found {
                Some(client) => Ok(
                    ResolvedClient {
                        ip: ip::normalize_ip(client),
                        source: ClientIpSource::ForwardedHeader,
                    },
                ),
                None => Ok(
                    ResolvedClient {
                        ip: ip::normalize_ip(peer),
                        source: ClientIpSource::PeerSocket,
                    },
                ),
            }
        },
    }
}

/// Resolves the client identity of a request: a peer that is not trusted is the
/// client whatever the headers say, behind a trusted one the forwarded header
/// is walked from the right, and where that yields no address the peer is the
/// client. Without a peer there is no identity.
pub fn resolve_client_identity(
    headers: &HeaderMap<HeaderValue>,
    peer: Option<IpAddr>,
    config: &ClientIpConfig,
) -> (r: Result<ResolvedClient, MissingClientIdentity>)
    ensures
        r == identity(header_text(http_headers::header_values(*headers), *config), peer, *config),
{
    proof {
        reveal_strlit("x-forwarded-for");
    }
    let value: Option<&HeaderValue> = match &config.trusted_header {
        Some(name) => http_headers::header_get(headers, name),
        None => http_headers::header_get_text(headers, "x-forwarded-for"),
    };
    match value {
        Some(value) => match value.to_str() {
            Ok(s) => resolve_forwarded(Some(s), peer, config),
            Err(_) => resolve_forwarded(None, peer, config),
        },
        None => resolve_forwarded(None, peer, config),
    }
}

} // verus!
