//! HTTP header fields, held in [`http::HeaderMap`].
//!
//! A map holds, for the text of each field name, the values that were given for
//! it, in order. Where a name is given as a text, its capitals are made small.
use http::header::{InvalidHeaderValue, MaxSizeReached, ToStrError};
use http::{HeaderMap, HeaderName, HeaderValue};
use vstd::prelude::*;

verus! {

/// A map of header fields.
#[verifier::external_type_specification]
#[verifier::external_body]
#[verifier::reject_recursive_types(T)]
pub struct ExHeaderMap<T>(http::HeaderMap<T>);

/// The value of a header field.
#[verifier::external_type_specification]
#[verifier::external_body]
pub struct ExHeaderValue(http::HeaderValue);

/// The name of a header field.
#[verifier::external_type_specification]
#[verifier::external_body]
pub struct ExHeaderName(http::HeaderName);

/// A value with bytes that no header field can hold.
#[verifier::external_type_specification]
#[verifier::external_body]
pub struct ExInvalidHeaderValue(http::header::InvalidHeaderValue);

/// A value with bytes that are not visible ASCII.
#[verifier::external_type_specification]
#[verifier::external_body]
pub struct ExToStrError(http::header::ToStrError);

/// A map that cannot take another name.
#[verifier::external_type_specification]
#[verifier::external_body]
pub struct ExMaxSizeReached(http::header::MaxSizeReached);

/// The values that a map holds for each name, by the text of the name, oldest
/// first.
pub uninterp spec fn header_values(map: HeaderMap<HeaderValue>) -> Map<Seq<char>, Seq<Seq<u8>>>;

/// The text of a name, as `HeaderName::as_str` returns it: two names are equal
/// where their texts are.
pub uninterp spec fn name_text(name: HeaderName) -> Seq<char>;

/// The bytes that a value holds.
pub uninterp spec fn header_bytes(value: HeaderValue) -> Seq<u8>;

/// A character with ASCII capitals made small.
pub open spec fn lower_char(c: char) -> char {
    if 'A' <= c && c <= 'Z' {
        (c as u32 + 32) as char
    } else {
        c
    }
}

/// A text with ASCII capitals made small.
pub open spec fn lower(s: Seq<char>) -> Seq<char> {
    Seq::new(s.len(), |i: int| lower_char(s[i]))
}

/// Whether a text is made of ASCII letters, digits and hyphens only, and short
/// enough for the name of a header field.
pub open spec fn plain_name(s: Seq<char>) -> bool {
    &&& 1 <= s.len() < 0x8000
    &&& forall|i: int|
        0 <= i < s.len() ==> {
            ||| 'a' <= #[trigger] s[i] && s[i] <= 'z'
            ||| 'A' <= s[i] && s[i] <= 'Z'
            ||| '0' <= s[i] && s[i] <= '9'
            ||| s[i] == '-'
        }
}

/// Whether a header field can hold these bytes.
pub open spec fn field_bytes(bytes: Seq<u8>) -> bool {
    forall|i: int| 0 <= i < bytes.len() ==> (32 <= #[trigger] bytes[i] && bytes[i] != 127)
        || bytes[i] == 9
}

/// Whether these bytes are visible ASCII, spaces and tabs.
pub open spec fn visible(bytes: Seq<u8>) -> bool {
    forall|i: int| 0 <= i < bytes.len() ==> 32 <= #[trigger] bytes[i] < 127 || bytes[i] == 9
}

/// The text of bytes that are ASCII.
pub open spec fn ascii_text(bytes: Seq<u8>) -> Seq<char> {
    Seq::new(bytes.len(), |i: int| bytes[i] as char)
}

/// `HeaderMap::get` by a name: the first value held for the name, if there is
/// one.
#[verifier::external_body]
pub(crate) fn header_get<'a>(map: &'a HeaderMap<HeaderValue>, name: &HeaderName) -> (r: Option<
    &'a HeaderValue,
>)
    ensures
        match r {
            Some(value) => header_values(*map).contains_key(name_text(*name)) && header_bytes(
                *value,
            ) == header_values(*map)[name_text(*name)][0],
            None => !header_values(*map).contains_key(name_text(*name)),
        },
{
    map.get(name)
}

/// `HeaderMap::get` by a text of letters, digits and hyphens: the first value
/// held for the name, if there is one. Capitals do not matter.
#[verifier::external_body]
pub(crate) fn header_get_text<'a>(map: &'a HeaderMap<HeaderValue>, name: &str) -> (r: Option<
    &'a HeaderValue,
>)
    requires
        plain_name(name@),
    ensures
        match r {
            Some(value) => header_values(*map).contains_key(lower(name@)) && header_bytes(*value)
                == header_values(*map)[lower(name@)][0],
            None => !header_values(*map).contains_key(lower(name@)),
        },
{
    map.get(name)
}

/// `HeaderMap::try_insert` by a static text: the value takes the place of all
/// that were held for the name. A map that cannot take another name is left as
/// it is; that needs more than a fifth of its largest table to be in use.
/// A text that is no header name panics.
#[verifier::external_body]
pub(crate) fn header_put(
    map: &mut HeaderMap<HeaderValue>,
    name: &'static str,
    value: HeaderValue,
) -> (r: Result<Option<HeaderValue>, MaxSizeReached>)
    requires
        plain_name(name@),
    ensures
        header_values(*final(map)) == if r is Ok {
            header_values(*old(map)).insert(lower(name@), seq![header_bytes(value)])
        } else {
            header_values(*old(map))
        },
        header_values(*final(map)).dom().finite(),
        header_values(*old(map)).dom().len() < 6554 ==> r is Ok,
{
    map.try_insert(name, value)
}

/// `HeaderValue::to_str`: the text of the value, where its bytes are visible
/// ASCII.
pub assume_specification[ HeaderValue::to_str ](value: &HeaderValue) -> (r: Result<
    &str,
    ToStrError,
>)
    ensures
        match r {
            Ok(s) => visible(header_bytes(*value)) && s@ == ascii_text(header_bytes(*value)),
            Err(_) => !visible(header_bytes(*value)),
        },
;

/// `HeaderValue::from_bytes`: a value of these bytes, where a header field can
/// hold them.
pub assume_specification[ HeaderValue::from_bytes ](src: &[u8]) -> (r: Result<
    HeaderValue,
    InvalidHeaderValue,
>)
    ensures
        match r {
            Ok(value) => field_bytes(src@) && header_bytes(value) == src@,
            Err(_) => !field_bytes(src@),
        },
;

} // verus!
