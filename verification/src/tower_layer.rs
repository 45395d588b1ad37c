//! What a middleware does with a request: the key it is counted under, the
//! answer where it is refused, and the header fields where it is not.
use http::header::MaxSizeReached;
use http::{HeaderMap, HeaderValue};
use std::time::Instant;
use vstd::prelude::*;

use crate::backend::RateLimitBackend;
use crate::client_ip;
use crate::client_ip::{ClientIpConfig, MissingClientPolicy};
use crate::http_headers;
use crate::ip::IpAddr;
use crate::ip_format;
use crate::limiter::RateLimiter;
use crate::metrics;
use crate::metrics::RateLimitResult;
use crate::quota::Quota;
use crate::text;

verus! {

/// Where the rate limit key of a request comes from.
#[derive(Debug, Clone)]
pub enum KeySource {
    /// The client's address.
    ClientIp {
        /// How the address is found.
        config: ClientIpConfig,
        /// What happens to a request without a client identity.
        missing_policy: MissingClientPolicy,
    },
    /// A key that the caller takes from the request: an API key, a tenant.
    /// Forwarded headers are never read.
    Custom,
}

/// The answer to a request that is refused.
#[derive(Debug, Clone, Copy, PartialEq, Eq, Structural)]
pub enum Refusal {
    /// `503`: the request has no client identity.
    Unidentified,
    /// `429`: the limit is exceeded.
    LimitExceeded,
}

impl Refusal {
    /// The HTTP status code of the answer.
    pub open spec fn code(self) -> u16 {
        match self {
            Refusal::Unidentified => 503,
            Refusal::LimitExceeded => 429,
        }
    }

    /// The seconds in the `retry-after` field of the answer, where it has one.
    pub open spec fn wait_secs(self) -> Option<u64> {
        match self {
            Refusal::Unidentified => None,
            Refusal::LimitExceeded => Some(1),
        }
    }

    /// The HTTP status code of the answer.
    pub fn status(&self) -> (r: u16)
        ensures
            r == self.code(),
    {
        match self {
            Refusal::Unidentified => 503,
            Refusal::LimitExceeded => 429,
        }
    }

    /// The seconds in the `retry-after` field of the answer, where it has one.
    pub fn retry_after(&self) -> (r: Option<u64>)
        ensures
            r == self.wait_secs(),
    {
        match self {
            Refusal::Unidentified => None,
            Refusal::LimitExceeded => Some(1),
        }
    }
}

/// What becomes of a request.
#[derive(Debug)]
pub enum Admission {
    /// It is refused, and never reaches the inner service.
    Refused(Refusal),
    /// It goes on to the inner service, and the result is told in the header
    /// fields of the response.
    Admitted(RateLimitResult),
}

/// The key of a request; none where the request is to be refused.
pub open spec fn key_of(
    source: KeySource,
    values: Map<Seq<char>, Seq<Seq<u8>>>,
    peer: Option<IpAddr>,
    custom: Seq<char>,
) -> Option<Seq<char>> {
    match source {
        KeySource::ClientIp { config, missing_policy } => match client_ip::identity(
            client_ip::header_text(values, config),
            peer,
            config,
        ) {
            Ok(client) => Some(ip_format::ip_text(client.ip)),
            Err(_) => match missing_policy {
                MissingClientPolicy::Reject => None,
                MissingClientPolicy::FallbackKey(key) => Some(key@),
            },
        },
        KeySource::Custom => Some(custom),
    }
}

impl Default for KeySource {
    fn default() -> (r: Self)
        ensures
            r matches KeySource::ClientIp { config, missing_policy }
                && config.trusted_proxies@.len() == 0 && config.num_trusted_hops == 1
                && config.trusted_header is None && missing_policy is Reject,
    {
        KeySource::ClientIp {
            config: ClientIpConfig::default(),
            missing_policy: MissingClientPolicy::default(),
        }
    }
}

impl KeySource {
    /// The source with client addresses found as configured.
    pub open spec fn by_client_ip(self, config: ClientIpConfig) -> Self {
        match self {
            KeySource::ClientIp { missing_policy, .. } => KeySource::ClientIp {
                config,
                missing_policy,
            },
            KeySource::Custom => KeySource::ClientIp {
                config,
                missing_policy: MissingClientPolicy::Reject,
            },
        }
    }

    /// The source with another policy for requests without a client identity.
    pub open spec fn under_policy(self, policy: MissingClientPolicy) -> Self {
        match self {
            KeySource::ClientIp { config, .. } => KeySource::ClientIp {
                config,
                missing_policy: policy,
            },
            KeySource::Custom => KeySource::Custom,
        }
    }

    /// Finds client addresses as configured. The policy for requests without an
    /// identity stays, and is the default after a custom key.
    pub fn with_client_ip(self, config: ClientIpConfig) -> (r: Self)
        ensures
            r == self.by_client_ip(config),
    {
        match self {
            KeySource::ClientIp { missing_policy, .. } => KeySource::ClientIp {
                config,
                missing_policy,
            },
            KeySource::Custom => KeySource::ClientIp {
                config,
                missing_policy: MissingClientPolicy::Reject,
            },
        }
    }

    /// Sets the policy for requests without a client identity. It has no effect
    /// on custom keys.
    pub fn with_missing_client_policy(self, policy: MissingClientPolicy) -> (r: Self)
        ensures
            r == self.under_policy(policy),
    {
        match self {
            KeySource::ClientIp { config, .. } => KeySource::ClientIp {
                config,
                missing_policy: policy,
            },
            KeySource::Custom => KeySource::Custom,
        }
    }

    /// The key of a request, from its headers, its direct peer and the key that
    /// the caller took from it.
    pub fn request_key(
        &self,
        headers: &HeaderMap<HeaderValue>,
        peer: Option<IpAddr>,
        custom: &str,
    ) -> (r: Result<String, Refusal>)
        ensures
            match key_of(*self, http_headers::header_values(*headers), peer, custom@) {
                Some(key) => r matches Ok(found) && found@ == key,
                None => r == Err::<String, Refusal>(Refusal::Unidentified),
            },
    {
        match self {
            KeySource::ClientIp { config, missing_policy } => {
                match client_ip::resolve_client_identity(headers, peer, config) {
                    Ok(client) => Ok(client.ip.to_string()),
                    Err(_) => match missing_policy {
                        MissingClientPolicy::Reject => Err(Refusal::Unidentified),
                        MissingClientPolicy::FallbackKey(key) => Ok(key.as_str().to_owned()),
                    },
                }
            },
            KeySource::Custom => Ok(custom.to_owned()),
        }
    }
}

/// What becomes of a request with this result.
pub open spec fn answer_to(result: RateLimitResult) -> Admission {
    if result.allowed {
        Admission::Admitted(result)
    } else {
        Admission::Refused(Refusal::LimitExceeded)
    }
}

/// What becomes of a request once its key has been checked.
pub fn answer(result: RateLimitResult) -> (r: Admission)
    ensures
        r == answer_to(result),
{
    if result.allowed {
        Admission::Admitted(result)
    } else {
        Admission::Refused(Refusal::LimitExceeded)
    }
}

/// A rate limiter for the requests to a service.
///
/// By default the key is the client's socket address; forwarded headers are
/// believed only for the peers in [`ClientIpConfig::trusted_proxies`].
pub struct RateLimitLayer<B: RateLimitBackend> {
    limiter: RateLimiter<B>,
    key_source: KeySource,
}

impl<B: RateLimitBackend> RateLimitLayer<B> {
    /// The limiter.
    pub closed spec fn limiter(&self) -> RateLimiter<B> {
        self.limiter
    }

    /// Where keys come from.
    pub closed spec fn source(&self) -> KeySource {
        self.key_source
    }

    /// A layer that applies `quota` through the given backend. It trusts no
    /// proxy, and refuses requests without a client identity.
    pub fn new(quota: Quota, backend: B) -> (r: Self)
        ensures
            r.limiter().quota() == quota,
            r.limiter().backend() == backend,
            r.source() matches KeySource::ClientIp { config, missing_policy }
                && config.trusted_proxies@.len() == 0 && config.num_trusted_hops == 1
                && config.trusted_header is None && missing_policy is Reject,
    {
        RateLimitLayer {
            limiter: RateLimiter::new(quota, backend),
            key_source: KeySource::default(),
        }
    }

    /// Believes the forwarded header of the given proxies only. The policy for
    /// requests without an identity stays, and is the default after a custom
    /// key.
    pub fn with_client_ip(self, config: ClientIpConfig) -> (r: Self)
        ensures
            r.limiter() == self.limiter(),
            r.source() == self.source().by_client_ip(config),
    {
        RateLimitLayer {
            limiter: self.limiter,
            key_source: self.key_source.with_client_ip(config),
        }
    }

    /// Sets the policy for requests without a client identity. It has no effect
    /// on a layer with custom keys.
    pub fn with_missing_client_policy(self, policy: MissingClientPolicy) -> (r: Self)
        ensures
            r.limiter() == self.limiter(),
            r.source() == self.source().under_policy(policy),
    {
        RateLimitLayer {
            limiter: self.limiter,
            key_source: self.key_source.with_missing_client_policy(policy),
        }
    }

    /// Counts requests under keys that the caller takes from them.
    pub fn with_key_extractor(self) -> (r: Self)
        ensures
            r.limiter() == self.limiter(),
            r.source() is Custom,
    {
        RateLimitLayer { limiter: self.limiter, key_source: KeySource::Custom }
    }

    /// Decides what becomes of a request. One without a key is refused before
    /// anything is counted; any other is counted under its key, and refused
    /// where the limiter denies it.
    pub fn decide(
        &mut self,
        headers: &HeaderMap<HeaderValue>,
        peer: Option<IpAddr>,
        custom: &str,
    ) -> (r: Admission)
        requires
            B::accepts(old(self).limiter().quota()),
        ensures
            final(self).source() == old(self).source(),
            match key_of(
                old(self).source(),
                http_headers::header_values(*headers),
                peer,
                custom@,
            ) {
                None => r == Admission::Refused(Refusal::Unidentified) && final(self).limiter()
                    == old(self).limiter(),
                Some(key) => exists|result: RateLimitResult| #[trigger]
                    RateLimiter::checked(
                        old(self).limiter(),
                        key,
                        final(self).limiter(),
                        result,
                    ) && r == answer_to(result),
            },
    {
        match self.key_source.request_key(headers, peer, custom) {
            Ok(key) => {
                let result: RateLimitResult = self.limiter.check(key.as_str());
                assert(RateLimiter::checked(old(self).limiter(), key@, self.limiter(), result));
                answer(result)
            },
            Err(refusal) => Admission::Refused(refusal),
        }
    }
}

/// The decimal digits of a number in ASCII.
pub open spec fn decimal_bytes(n: nat) -> Seq<u8> {
    Seq::new(
        text::decimal(n).len(),
        |i: int| (0x30 + text::digit_value(text::decimal(n)[i])) as u8,
    )
}

/// The value of a header field that holds a number.
pub fn u64_header_value(v: u64) -> (r: Option<HeaderValue>)
    ensures
        r matches Some(value) && http_headers::header_bytes(value) == decimal_bytes(v as nat),
{
    let digits: String = metrics::decimal_text(v);
    let chars: Vec<char> = text::chars_of(digits.as_str());
    let mut bytes: Vec<u8> = Vec::new();
    let mut i: usize = 0;
    proof {
        text::lemma_numeral(v as nat, 10);
    }
    while i < chars.len()
        invariant
            i <= chars@.len(),
            chars@ == text::decimal(v as nat),
            text::all_digits(chars@, 10),
            bytes@ == decimal_bytes(v as nat).take(i as int),
            http_headers::field_bytes(bytes@),
        decreases chars@.len() - i,
    {
        let digit: u32 = text::digit_of(chars[i]);
        let ghost done = bytes@;
        bytes.push(0x30 + digit as u8);
        assert(decimal_bytes(v as nat).take(i + 1) =~= done.push((0x30 + digit) as u8));
        i += 1;
    }
    assert(decimal_bytes(v as nat).take(i as int) =~= decimal_bytes(v as nat));
    match HeaderValue::from_bytes(bytes.as_slice()) {
        Ok(value) => Some(value),
        Err(_) => None,
    }
}

/// Header fields with the first `count` of those that tell a result at `now`:
/// the limit, what remains, and the seconds until the reset.
pub open spec fn told_fields(
    values: Map<Seq<char>, Seq<Seq<u8>>>,
    result: RateLimitResult,
    now: Instant,
    count: int,
) -> Map<Seq<char>, Seq<Seq<u8>>>
    decreases count,
{
    if count <= 0 {
        values
    } else if count == 1 {
        told_fields(values, result, now, 0).insert(
            http_headers::lower("X-RateLimit-Limit"@),
            seq![decimal_bytes(result.limit as nat)],
        )
    } else if count == 2 {
        told_fields(values, result, now, 1).insert(
            http_headers::lower("X-RateLimit-Remaining"@),
            seq![decimal_bytes(result.remaining as nat)],
        )
    } else {
        told_fields(values, result, now, 2).insert(
            http_headers::lower("X-RateLimit-Reset"@),
            seq![decimal_bytes(result.reset_secs(now))],
        )
    }
}

proof fn lemma_one_more_name(
    before: Map<Seq<char>, Seq<Seq<u8>>>,
    name: Seq<char>,
    held: Seq<Seq<u8>>,
)
    requires
        before.insert(name, held).dom().finite(),
    ensures
        before.insert(name, held).dom().len() <= before.dom().len() + 1,
{
    vstd::set_lib::lemma_set_subset_finite(before.insert(name, held).dom(), before.dom());
    assert(before.insert(name, held).dom() =~= before.dom().insert(name));
}

/// Sets one header field to a number.
fn put_number(headers: &mut HeaderMap<HeaderValue>, name: &'static str, v: u64) -> (r: Result<
    (),
    MaxSizeReached,
>)
    requires
        http_headers::plain_name(name@),
    ensures
        http_headers::header_values(*final(headers)) == if r is Ok {
            http_headers::header_values(*old(headers)).insert(
                http_headers::lower(name@),
                seq![decimal_bytes(v as nat)],
            )
        } else {
            http_headers::header_values(*old(headers))
        },
        http_headers::header_values(*final(headers)).dom().finite(),
        http_headers::header_values(*old(headers)).dom().len() < 6554 ==> r is Ok,
        http_headers::header_values(*final(headers)).dom().len() <= http_headers::header_values(
            *old(headers),
        ).dom().len() + 1,
{
    match u64_header_value(v) {
        Some(value) => match http_headers::header_put(headers, name, value) {
            Ok(_) => {
                proof {
                    lemma_one_more_name(
                        http_headers::header_values(*old(headers)),
                        http_headers::lower(name@),
                        seq![decimal_bytes(v as nat)],
                    );
                }
                Ok(())
            },
            Err(full) => Err(full),
        },
        None => Ok(()),
    }
}

/// Tells a result in the header fields of a response, each in place of any
/// field of the same name. The reset is told in whole seconds from `now`.
///
/// It fails where the map is too full for another name, which does not happen
/// with fewer than 6552 names in it; the fields set until then stay.
pub fn insert_rate_limit_headers(
    headers: &mut HeaderMap<HeaderValue>,
    result: &RateLimitResult,
    now: Instant,
) -> (r: Result<(), MaxSizeReached>)
    ensures
        r is Ok ==> http_headers::header_values(*final(headers)) == told_fields(
            http_headers::header_values(*old(headers)),
            *result,
            now,
            3,
        ),
        r is Err ==> exists|count: int|
            0 <= count < 3 && http_headers::header_values(*final(headers)) == told_fields(
                http_headers::header_values(*old(headers)),
                *result,
                now,
                count,
            ),
        http_headers::header_values(*old(headers)).dom().len() < 6552 ==> r is Ok,
{
    proof {
        reveal_with_fuel(told_fields, 4);
        reveal_strlit("X-RateLimit-Limit");
        reveal_strlit("X-RateLimit-Remaining");
        reveal_strlit("X-RateLimit-Reset");
    }
    let ghost before = http_headers::header_values(*headers);
    match put_number(headers, "X-RateLimit-Limit", result.limit) {
        Ok(()) => {},
        Err(full) => {
            assert(http_headers::header_values(*headers) == told_fields(before, *result, now, 0));
            return Err(full);
        },
    }
    match put_number(headers, "X-RateLimit-Remaining", result.remaining) {
        Ok(()) => {},
        Err(full) => {
            assert(http_headers::header_values(*headers) == told_fields(before, *result, now, 1));
            return Err(full);
        },
    }
    match put_number(headers, "X-RateLimit-Reset", result.secs_to_reset(now)) {
        Ok(()) => Ok(()),
        Err(full) => {
            assert(http_headers::header_values(*headers) == told_fields(before, *result, now, 2));
            Err(full)
        },
    }
}

} // verus!
