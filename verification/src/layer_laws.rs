//! What the keys of requests promise.
use vstd::prelude::*;

use crate::backend::InMemoryBackend;
use crate::check_laws;
use crate::client_ip;
use crate::client_ip::{ClientIpConfig, MissingClientPolicy};
use crate::clock;
use crate::http_headers;
use crate::ip::IpAddr;
use crate::ip_format;
use crate::ip_laws;
use crate::limiter::RateLimiter;
use crate::metrics::RateLimitResult;
use crate::text;
use crate::tower_layer;
use crate::tower_layer::{Admission, KeySource, Refusal};
use std::time::Instant;

verus! {

/// A client that connects directly has one key: nothing that it puts into the
/// header fields gives it another.
pub proof fn law_untrusted_peer_has_one_key(
    config: ClientIpConfig,
    missing_policy: MissingClientPolicy,
    peer: IpAddr,
    one: Map<Seq<char>, Seq<Seq<u8>>>,
    two: Map<Seq<char>, Seq<Seq<u8>>>,
    custom: Seq<char>,
)
    requires
        !config.covers(peer),
    ensures
        ({
            let source = KeySource::ClientIp { config, missing_policy };
            tower_layer::key_of(source, one, Some(peer), custom) == tower_layer::key_of(
                source,
                two,
                Some(peer),
                custom,
            )
        }),
{
}

/// Requests of different clients have different keys, and so separate budgets.
pub proof fn law_clients_have_keys_of_their_own(
    config: ClientIpConfig,
    missing_policy: MissingClientPolicy,
    one: Map<Seq<char>, Seq<Seq<u8>>>,
    peer_one: IpAddr,
    two: Map<Seq<char>, Seq<Seq<u8>>>,
    peer_two: IpAddr,
    custom: Seq<char>,
)
    requires
        ({
            let a = client_ip::identity(
                client_ip::header_text(one, config),
                Some(peer_one),
                config,
            );
            let b = client_ip::identity(
                client_ip::header_text(two, config),
                Some(peer_two),
                config,
            );
            (a->Ok_0).ip != (b->Ok_0).ip
        }),
    ensures
        ({
            let source = KeySource::ClientIp { config, missing_policy };
            tower_layer::key_of(source, one, Some(peer_one), custom) != tower_layer::key_of(
                source,
                two,
                Some(peer_two),
                custom,
            )
        }),
{
    let a = client_ip::identity(client_ip::header_text(one, config), Some(peer_one), config);
    let b = client_ip::identity(client_ip::header_text(two, config), Some(peer_two), config);
    ip_laws::law_texts_tell_addresses_apart((a->Ok_0).ip, (b->Ok_0).ip);
}

/// A custom key is the key: neither the header fields nor the peer matter.
pub proof fn law_custom_key_is_the_key(
    values: Map<Seq<char>, Seq<Seq<u8>>>,
    peer: Option<IpAddr>,
    custom: Seq<char>,
)
    ensures
        tower_layer::key_of(KeySource::Custom, values, peer, custom) == Some(custom),
{
}

/// A request is refused for want of a key exactly where client addresses are
/// the keys, the peer is unknown, and the policy is to reject.
pub proof fn law_refused_only_without_identity(
    source: KeySource,
    values: Map<Seq<char>, Seq<Seq<u8>>>,
    peer: Option<IpAddr>,
    custom: Seq<char>,
)
    ensures
        tower_layer::key_of(source, values, peer, custom) is None <==> peer is None && (
        source matches KeySource::ClientIp { missing_policy, .. } && missing_policy is Reject),
{
}

/// All requests without an identity share one key where the policy names one.
pub proof fn law_fallback_key_is_shared(
    config: ClientIpConfig,
    key: String,
    values: Map<Seq<char>, Seq<Seq<u8>>>,
    custom: Seq<char>,
)
    ensures
        tower_layer::key_of(
            KeySource::ClientIp { config, missing_policy: MissingClientPolicy::FallbackKey(key) },
            values,
            None,
            custom,
        ) == Some(key@),
{
}

/// The key of a client is the text of its address, and without an identity it is
/// the one that the policy names, if it names one.
pub proof fn law_key_of_a_client_is_its_address(
    config: ClientIpConfig,
    missing_policy: MissingClientPolicy,
    values: Map<Seq<char>, Seq<Seq<u8>>>,
    peer: Option<IpAddr>,
    custom: Seq<char>,
)
    ensures
        ({
            let key = tower_layer::key_of(
                KeySource::ClientIp { config, missing_policy },
                values,
                peer,
                custom,
            );
            match client_ip::identity(client_ip::header_text(values, config), peer, config) {
                Ok(client) => key == Some(ip_format::ip_text(client.ip)),
                Err(_) => key == match missing_policy {
                    MissingClientPolicy::Reject => None,
                    MissingClientPolicy::FallbackKey(shared) => Some(shared@),
                },
            }
        }),
{
}

/// Clients do not touch each other: a request of one client leaves the entry of
/// every client with another address as it was, and counts under its own.
pub proof fn law_clients_do_not_touch_each_other(
    before: RateLimiter<InMemoryBackend>,
    after: RateLimiter<InMemoryBackend>,
    r: RateLimitResult,
    config: ClientIpConfig,
    missing_policy: MissingClientPolicy,
    values: Map<Seq<char>, Seq<Seq<u8>>>,
    peer: IpAddr,
    custom: Seq<char>,
    other: IpAddr,
)
    requires
        ({
            let source = KeySource::ClientIp { config, missing_policy };
            RateLimiter::checked(
                before,
                tower_layer::key_of(source, values, Some(peer), custom)->0,
                after,
                r,
            )
        }),
        (client_ip::identity(client_ip::header_text(values, config), Some(peer), config)->Ok_0).ip
            != other,
    ensures
        ({
            let own = ip_format::ip_text(
                (client_ip::identity(
                    client_ip::header_text(values, config),
                    Some(peer),
                    config,
                )->Ok_0).ip,
            );
            let theirs = ip_format::ip_text(other);
            let held = before.backend().arrivals();
            let now_held = after.backend().arrivals();
            &&& now_held.contains_key(own)
            &&& now_held.contains_key(theirs) == held.contains_key(theirs)
            &&& now_held.contains_key(theirs) ==> now_held[theirs] == held[theirs]
        }),
{
    let own = (client_ip::identity(
        client_ip::header_text(values, config),
        Some(peer),
        config,
    )->Ok_0).ip;
    ip_laws::law_texts_tell_addresses_apart(own, other);
    check_laws::law_limiter_isolates_keys(
        before,
        ip_format::ip_text(own),
        after,
        r,
        ip_format::ip_text(other),
    );
}

/// A request without an identity is answered with `503`, and one over the limit
/// with `429` and a retry after one second.
pub proof fn law_answers_of_refusals()
    ensures
        Refusal::Unidentified.code() == 503,
        Refusal::Unidentified.wait_secs() is None,
        Refusal::LimitExceeded.code() == 429,
        Refusal::LimitExceeded.wait_secs() == Some(1u64),
{
}

/// A request goes on exactly where its check allows it, and then with the result
/// of that check; where it is denied it is refused for the limit.
pub proof fn law_denied_requests_never_go_on(result: RateLimitResult)
    ensures
        match tower_layer::answer_to(result) {
            Admission::Admitted(told) => result.allowed && told == result,
            Admission::Refused(refusal) => !result.allowed && refusal is LimitExceeded,
        },
{
}

/// A configuration of client addresses leaves the policy as it is, and a policy
/// leaves the configuration; custom keys have neither, and get the default
/// policy with a configuration.
pub proof fn law_settings_are_independent(
    config: ClientIpConfig,
    missing_policy: MissingClientPolicy,
    new_config: ClientIpConfig,
    new_policy: MissingClientPolicy,
)
    ensures
        (KeySource::ClientIp { config, missing_policy }).by_client_ip(new_config) == (
        KeySource::ClientIp { config: new_config, missing_policy }),
        (KeySource::ClientIp { config, missing_policy }).under_policy(new_policy) == (
        KeySource::ClientIp { config, missing_policy: new_policy }),
        KeySource::Custom.by_client_ip(new_config) == (KeySource::ClientIp {
            config: new_config,
            missing_policy: MissingClientPolicy::Reject,
        }),
        KeySource::Custom.under_policy(new_policy) == KeySource::Custom,
{
}

/// The value of a header field that tells a number is its decimal text.
pub proof fn law_number_is_told_in_decimal(n: nat)
    ensures
        http_headers::ascii_text(tower_layer::decimal_bytes(n)) == text::decimal(n),
{
    text::lemma_numeral(n, 10);
    let s = text::decimal(n);
    let t = http_headers::ascii_text(tower_layer::decimal_bytes(n));
    assert forall|i: int| 0 <= i < s.len() implies t[i] == s[i] by {
        assert(text::digit_value(s[i]) < 10);
        lemma_digit_byte(s[i]);
    }
    assert(t =~= s);
}

proof fn lemma_digit_byte(c: char)
    requires
        text::digit_value(c) < 10,
    ensures
        ((0x30 + text::digit_value(c)) as u8) as char == c,
{
}

/// The header fields of an admitted request: the limit, what remains and the
/// whole seconds until the reset are told under their three names, each alone,
/// and every other field is as it was.
pub proof fn law_fields_of_an_admitted_request(
    values: Map<Seq<char>, Seq<Seq<u8>>>,
    result: RateLimitResult,
    now: Instant,
    name: Seq<char>,
)
    ensures
        ({
            let told = tower_layer::told_fields(values, result, now, 3);
            let secs = clock::nanos_between(result.reset_at, now) / 1_000_000_000;
            let limit = "x-ratelimit-limit"@;
            let remaining = "x-ratelimit-remaining"@;
            let reset = "x-ratelimit-reset"@;
            &&& told.contains_key(limit) && told[limit].len() == 1
            &&& http_headers::ascii_text(told[limit][0]) == text::decimal(result.limit as nat)
            &&& told.contains_key(remaining) && told[remaining].len() == 1
            &&& http_headers::ascii_text(told[remaining][0]) == text::decimal(
                result.remaining as nat,
            )
            &&& told.contains_key(reset) && told[reset].len() == 1
            &&& http_headers::ascii_text(told[reset][0]) == text::decimal(secs)
            &&& name != limit && name != remaining && name != reset ==> told.contains_key(name)
                == values.contains_key(name) && (values.contains_key(name) ==> told[name]
                == values[name])
        }),
{
    reveal_with_fuel(tower_layer::told_fields, 4);
    reveal_strlit("X-RateLimit-Limit");
    reveal_strlit("X-RateLimit-Remaining");
    reveal_strlit("X-RateLimit-Reset");
    reveal_strlit("x-ratelimit-limit");
    reveal_strlit("x-ratelimit-remaining");
    reveal_strlit("x-ratelimit-reset");
    assert(http_headers::lower("X-RateLimit-Limit"@) =~= "x-ratelimit-limit"@);
    assert(http_headers::lower("X-RateLimit-Remaining"@) =~= "x-ratelimit-remaining"@);
    assert(http_headers::lower("X-RateLimit-Reset"@) =~= "x-ratelimit-reset"@);
    assert("x-ratelimit-limit"@.len() == 17);
    assert("x-ratelimit-remaining"@.len() == 21);
    assert("x-ratelimit-reset"@.len() == 17);
    assert("x-ratelimit-limit"@[12] != "x-ratelimit-reset"@[12]);
    law_number_is_told_in_decimal(result.limit as nat);
    law_number_is_told_in_decimal(result.remaining as nat);
    law_number_is_told_in_decimal(result.reset_secs(now));
}

} // verus!
