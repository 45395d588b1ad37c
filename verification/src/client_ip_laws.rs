//! What client identity promises.
use vstd::prelude::*;

use crate::client_ip;
use crate::client_ip::{ClientIpConfig, ClientIpSource, MissingClientIdentity, ResolvedClient};
use crate::http_headers;
use crate::ip;
use crate::ip::IpAddr;
use crate::ip_format;
use crate::ip_laws;
use crate::text;
use crate::text_laws;

verus! {

/// A peer that is not trusted is the client, whatever the header holds.
pub proof fn law_untrusted_peer_is_the_client(
    header: Option<Seq<char>>,
    peer: IpAddr,
    config: ClientIpConfig,
)
    requires
        !config.covers(peer),
    ensures
        client_ip::identity(header, Some(peer), config) == Ok::<
            ResolvedClient,
            MissingClientIdentity,
        >(ResolvedClient { ip: ip::normalized(peer), source: ClientIpSource::PeerSocket }),
{
}

/// Without trusted proxies every peer is the client, whatever the header holds.
pub proof fn law_no_proxies_no_header(
    header: Option<Seq<char>>,
    peer: IpAddr,
    config: ClientIpConfig,
)
    requires
        config.trusted_proxies@.len() == 0,
    ensures
        client_ip::identity(header, Some(peer), config) == Ok::<
            ResolvedClient,
            MissingClientIdentity,
        >(ResolvedClient { ip: ip::normalized(peer), source: ClientIpSource::PeerSocket }),
{
}

proof fn lemma_pieces_join(a: Seq<char>, b: Seq<char>, sep: char)
    ensures
        text::pieces(a + seq![sep] + b, sep) == text::pieces(a, sep) + text::pieces(b, sep),
        text::pieces(b, sep).len() > 0,
{
    text_laws::law_pieces_of_joined_texts(a, b, sep);
}

/// Entries to the left of the chosen one are never read: where the header holds
/// more entries than the trusted hops, nothing that is put in front of it
/// changes the identity.
pub proof fn law_entries_to_the_left_do_not_matter(
    spoofed: Seq<char>,
    header: Seq<char>,
    peer: Option<IpAddr>,
    config: ClientIpConfig,
)
    requires
        config.num_trusted_hops < text::pieces(header, ',').len(),
    ensures
        client_ip::identity(Some(spoofed + seq![','] + header), peer, config)
            == client_ip::identity(Some(header), peer, config),
{
    lemma_pieces_join(spoofed, header, ',');
}

/// Behind a trusted peer, a header that is missing or has no more entries than
/// the trusted hops makes the peer the client.
pub proof fn law_short_header_falls_back_to_the_peer(
    header: Option<Seq<char>>,
    peer: IpAddr,
    config: ClientIpConfig,
)
    requires
        header matches Some(s) ==> text::pieces(s, ',').len() <= config.num_trusted_hops,
    ensures
        client_ip::identity(header, Some(peer), config) == Ok::<
            ResolvedClient,
            MissingClientIdentity,
        >(ResolvedClient { ip: ip::normalized(peer), source: ClientIpSource::PeerSocket }),
{
}

/// Behind a trusted peer, a chosen entry that is no address makes the peer the
/// client: no other entry is tried.
pub proof fn law_malformed_entry_falls_back_to_the_peer(
    header: Seq<char>,
    peer: IpAddr,
    config: ClientIpConfig,
)
    requires
        ({
            let entries = text::pieces(header, ',');
            let hops = config.num_trusted_hops as int;
            hops < entries.len() && ip::ip_of_text(text::trim(entries[entries.len() - 1 - hops]))
                is None
        }),
    ensures
        client_ip::identity(Some(header), Some(peer), config) == Ok::<
            ResolvedClient,
            MissingClientIdentity,
        >(ResolvedClient { ip: ip::normalized(peer), source: ClientIpSource::PeerSocket }),
{
}

/// There is an identity exactly where there is a peer.
pub proof fn law_identity_needs_a_peer(
    header: Option<Seq<char>>,
    peer: Option<IpAddr>,
    config: ClientIpConfig,
)
    ensures
        client_ip::identity(header, peer, config) is Ok <==> peer is Some,
{
}

/// A resolved address is in normal form: no mapped IPv4 address is ever an
/// identity.
pub proof fn law_identity_is_in_normal_form(
    header: Option<Seq<char>>,
    peer: Option<IpAddr>,
    config: ClientIpConfig,
)
    ensures
        client_ip::identity(header, peer, config) matches Ok(client) ==> ip::normalized(client.ip)
            == client.ip,
{
}

/// A mapped peer is treated as the IPv4 peer that it maps.
pub proof fn law_peers_count_by_their_normal_form(
    header: Option<Seq<char>>,
    peer: IpAddr,
    config: ClientIpConfig,
)
    ensures
        client_ip::identity(header, Some(peer), config) == client_ip::identity(
            header,
            Some(ip::normalized(peer)),
            config,
        ),
{
    let normal = ip::normalized(peer);
    assert forall|i: int| 0 <= i < config.trusted_proxies@.len() implies (
    #[trigger] config.trusted_proxies@[i]).covers(peer) == config.trusted_proxies@[i].covers(
        normal,
    ) by {}
    assert(config.covers(peer) == config.covers(normal));
}

/// Whether a text is nothing but white space.
pub open spec fn blank(s: Seq<char>) -> bool {
    forall|i: int| 0 <= i < s.len() ==> text::is_white_space(#[trigger] s[i])
}

proof fn lemma_plain_is_not_white(c: char)
    requires
        text::digit_value(c) < 16 || c == '.' || c == ':',
    ensures
        !text::is_white_space(c),
        c != ',',
{
}

proof fn lemma_white_is_no_comma(c: char)
    requires
        text::is_white_space(c),
    ensures
        c != ',',
{
}

proof fn lemma_entry(front: Seq<char>, client: IpAddr, back: Seq<char>)
    requires
        blank(front),
        blank(back),
    ensures
        text_laws::lacks(front + ip_format::ip_text(client) + back, ','),
        ip::ip_of_text(text::trim(front + ip_format::ip_text(client) + back)) == Some(client),
{
    let middle = ip_format::ip_text(client);
    let entry = front + middle + back;
    ip_laws::law_text_stands_for_its_address(client);
    assert forall|i: int| 0 <= i < middle.len() implies !text::is_white_space(#[trigger] middle[i])
        && middle[i] != ',' by {
        ip_laws::law_text_of_an_address_is_plain(client, i);
        lemma_plain_is_not_white(middle[i]);
    }
    if middle.len() > 0 {
        assert(!text::is_white_space(middle[middle.len() - 1]));
    }
    text_laws::law_trim_leaves_the_middle(front, middle, back);
    assert forall|i: int| 0 <= i < entry.len() implies entry[i] != ',' by {
        if i < front.len() {
            assert(text::is_white_space(front[i]));
            lemma_white_is_no_comma(front[i]);
            assert(entry[i] == front[i]);
        } else if i < front.len() + middle.len() {
            assert(entry[i] == middle[i - front.len()]);
        } else {
            let k = i - front.len() - middle.len();
            assert(text::is_white_space(back[k]));
            lemma_white_is_no_comma(back[k]);
            assert(entry[i] == back[k]);
        }
    }
}

/// Behind a trusted peer the client is found from the right: the address, with
/// white space around it or not, that has exactly as many entries to its right
/// as there are trusted hops. It does not matter what stands to its left, nor
/// what the entries to its right hold.
pub proof fn law_client_is_found_from_the_right(
    left: Seq<char>,
    front: Seq<char>,
    client: IpAddr,
    back: Seq<char>,
    right: Seq<char>,
    peer: IpAddr,
    config: ClientIpConfig,
    proxy: int,
)
    requires
        0 <= proxy < config.trusted_proxies@.len(),
        config.trusted_proxies@[proxy].covers(peer),
        blank(front),
        blank(back),
        text::pieces(right, ',').len() == config.num_trusted_hops,
    ensures
        client_ip::identity(
            Some(
                left + seq![','] + (front + ip_format::ip_text(client) + back + seq![','] + right),
            ),
            Some(peer),
            config,
        ) == Ok::<ResolvedClient, MissingClientIdentity>(
            ResolvedClient { ip: ip::normalized(client), source: ClientIpSource::ForwardedHeader },
        ),
{
    let entry = front + ip_format::ip_text(client) + back;
    let tail = entry + seq![','] + right;
    lemma_entry(front, client, back);
    text_laws::law_unseparated_text_is_one_piece(entry, ',');
    lemma_pieces_join(entry, right, ',');
    lemma_pieces_join(left, tail, ',');
    let p = text::pieces(left, ',');
    let all = text::pieces(left + seq![','] + tail, ',');
    assert(all =~= p + (seq![entry] + text::pieces(right, ',')));
    assert(all[p.len() as int] == entry);
    assert(config.covers(peer));
}

/// Without trusted hops in front of the peer, the client behind a trusted peer is
/// the last entry.
pub proof fn law_last_entry_is_the_client(
    left: Seq<char>,
    front: Seq<char>,
    client: IpAddr,
    back: Seq<char>,
    peer: IpAddr,
    config: ClientIpConfig,
    proxy: int,
)
    requires
        0 <= proxy < config.trusted_proxies@.len(),
        config.trusted_proxies@[proxy].covers(peer),
        blank(front),
        blank(back),
        config.num_trusted_hops == 0,
    ensures
        ({
            let entry = front + ip_format::ip_text(client) + back;
            let found = Ok::<ResolvedClient, MissingClientIdentity>(
                ResolvedClient {
                    ip: ip::normalized(client),
                    source: ClientIpSource::ForwardedHeader,
                },
            );
            &&& client_ip::identity(Some(entry), Some(peer), config) == found
            &&& client_ip::identity(Some(left + seq![','] + entry), Some(peer), config) == found
        }),
{
    let entry = front + ip_format::ip_text(client) + back;
    lemma_entry(front, client, back);
    text_laws::law_unseparated_text_is_one_piece(entry, ',');
    lemma_pieces_join(left, entry, ',');
    let p = text::pieces(left, ',');
    assert(text::pieces(left + seq![','] + entry, ',') =~= p + seq![entry]);
    assert(config.covers(peer));
}

/// A peer that no trusted network covers is the client, whatever the header
/// holds.
pub proof fn law_peer_outside_every_proxy_is_the_client(
    header: Option<Seq<char>>,
    peer: IpAddr,
    config: ClientIpConfig,
)
    requires
        forall|i: int|
            0 <= i < config.trusted_proxies@.len() ==> !(
            #[trigger] config.trusted_proxies@[i]).covers(peer),
    ensures
        client_ip::identity(header, Some(peer), config) == Ok::<
            ResolvedClient,
            MissingClientIdentity,
        >(ResolvedClient { ip: ip::normalized(peer), source: ClientIpSource::PeerSocket }),
{
}

/// The header that is read is the one that the configuration names, and
/// `x-forwarded-for` where it names none: the first value, as the text of its
/// bytes, where they are visible ASCII, spaces and tabs.
pub proof fn law_header_that_is_read(
    values: Map<Seq<char>, Seq<Seq<u8>>>,
    config: ClientIpConfig,
    name: Seq<char>,
)
    requires
        name == match config.trusted_header {
            Some(own) => http_headers::name_text(own),
            None => "x-forwarded-for"@,
        },
    ensures
        ({
            let bytes = values[name][0];
            let visible = forall|i: int|
                0 <= i < bytes.len() ==> #[trigger] bytes[i] == 9 || (32 <= bytes[i] && bytes[i]
                    <= 126);
            match client_ip::header_text(values, config) {
                Some(s) => values.contains_key(name) && visible && s.len() == bytes.len() && (
                forall|i: int| 0 <= i < s.len() ==> #[trigger] s[i] == bytes[i] as char),
                None => !values.contains_key(name) || !visible,
            }
        }),
{
    reveal_strlit("x-forwarded-for");
    assert(http_headers::lower("x-forwarded-for"@) =~= "x-forwarded-for"@);
    let bytes = values[name][0];
    if http_headers::visible(bytes) {
        assert forall|i: int| 0 <= i < bytes.len() implies #[trigger] bytes[i] == 9 || (32
            <= bytes[i] && bytes[i] <= 126) by {}
    }
}

} // verus!
