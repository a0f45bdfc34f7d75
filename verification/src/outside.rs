//! Calls into the standard library and other crates, each with the contract
//! that the rest of the library relies on.

use vstd::prelude::*;

use crate::api_client;
use crate::net::IpAddr;
use crate::text;

verus! {

/// The 128 bits of the UUID that a text spells, in any of the forms that
/// `uuid::Uuid::parse_str` reads; nothing where it spells none.
pub uninterp spec fn uuid_value(text: Seq<char>) -> Option<u128>;

/// `uuid::Uuid::parse_str`, and `Uuid::as_u128` of what it read. The result
/// depends on the text alone.
#[verifier::external_body]
pub(crate) fn parse_uuid(text: &str) -> (value: Option<u128>)
    ensures
        value == uuid_value(text@),
{
    match uuid::Uuid::parse_str(text) {
        Ok(id) => Some(id.as_u128()),
        Err(_) => None,
    }
}

/// Whether a path holds nothing that some platform reads as a separator or a
/// prefix of its own: no backslash, no colon unless a slash comes first, and
/// not two slashes at its start.
pub open spec fn has_plain_separators(path: Seq<char>) -> bool {
    &&& !path.contains('\\')
    &&& path.contains(':') ==> path[0] == '/'
    &&& !(path.len() >= 2 && path[0] == '/' && path[1] == '/')
}

/// Whether the slash at `at` parts a path into a directory, which does not end
/// in a slash or in a component `.`, and a final component, which is not `.`.
pub open spec fn parts_plainly(path: Seq<char>, at: int) -> bool {
    &&& has_plain_separators(path)
    &&& text::is_last_of(path, '/', at)
    &&& 0 < at < path.len() - 1
    &&& path[at - 1] != '/'
    &&& !(path[at - 1] == '.' && (at == 1 || path[at - 2] == '/'))
    &&& path.skip(at + 1) != seq!['.']
}

/// Whether a path is a single component of the root directory, and not `.`.
pub open spec fn lies_in_root(path: Seq<char>) -> bool {
    &&& has_plain_separators(path)
    &&& text::is_last_of(path, '/', 0)
    &&& path.len() > 1
    &&& path.skip(1) != seq!['.']
}

/// Whether a path is a single component, and not `.`.
pub open spec fn is_bare_name(path: Seq<char>) -> bool {
    &&& has_plain_separators(path)
    &&& !path.contains('/')
    &&& path.len() > 0
    &&& path != seq!['.']
}

/// What is known of the directory of a path. It is a proper prefix of the path.
/// Of a path that a slash parts plainly it is all before that slash; of a
/// component of the root directory it is the root directory, and of a bare
/// name it is the empty path.
pub open spec fn may_be_directory(path: Seq<char>, directory: Option<String>) -> bool {
    &&& match directory {
        Some(text) => text@.len() < path.len() && text@ == path.take(text@.len() as int),
        None => true,
    }
    &&& forall|at: int| #[trigger]
        parts_plainly(path, at) ==> directory is Some && directory->0@ == path.take(at)
    &&& lies_in_root(path) ==> directory is Some && directory->0@ == seq!['/']
    &&& is_bare_name(path) ==> directory is Some && directory->0@.len() == 0
}

/// `std::path::Path::parent`: the path without its final component, so a proper
/// prefix of it, and nothing for the empty path. Where the components are
/// parted by single slashes, it is all before the last slash, on any platform
/// that takes a slash for a separator, as Unix and Windows do. Left unsaid is
/// which prefix it is where a path holds a backslash, has two slashes at its
/// start, or holds a colon and does not begin with a slash, which platforms
/// read differently; or where the separators ahead of the final component are
/// repeated or enclose a `.`, or end the path, which the components pass over.
#[verifier::external_body]
pub(crate) fn directory_of(path: &str) -> (directory: Option<String>)
    ensures
        may_be_directory(path@, directory),
        path@.len() == 0 ==> directory is None,
{
    std::path::Path::new(path).parent().map(|d| d.to_string_lossy().into_owned())
}

/// `std::str::from_utf8`: the text that the bytes encode, and nothing where
/// they are not UTF-8.
#[verifier::external_body]
pub(crate) fn text_of_bytes(bytes: &[u8]) -> (text: Option<String>)
    ensures
        match text {
            Some(decoded) => vstd::utf8::valid_utf8(bytes@) && decoded@ == vstd::utf8::decode_utf8(
                bytes@,
            ),
            None => !vstd::utf8::valid_utf8(bytes@),
        },
{
    match std::str::from_utf8(bytes) {
        Ok(text) => Some(text.to_owned()),
        Err(_) => None,
    }
}

/// The JSON object with these members, in order, each a text or null, as
/// `serde_json::Serializer` writes it; nothing where it fails.
pub uninterp spec fn json_object(members: Seq<(Seq<char>, Option<Seq<char>>)>) -> Option<Seq<u8>>;

/// `Serializer::collect_map` of `serde_json::Serializer`, writing to a `Vec`.
/// The result depends on the members alone.
#[verifier::external_body]
pub(crate) fn write_json_object(members: &Vec<(String, Option<String>)>) -> (json: Option<Vec<u8>>)
    ensures
        match json {
            Some(bytes) => json_object(api_client::member_views(members@)) == Some(bytes@),
            None => json_object(api_client::member_views(members@)) is None,
        },
{
    let mut bytes: Vec<u8> = Vec::new();
    let entries = members.iter().map(|member| (&member.0, &member.1));
    match serde::Serializer::collect_map(&mut serde_json::Serializer::new(&mut bytes), entries) {
        Ok(()) => Some(bytes),
        Err(_) => None,
    }
}

/// An optional text by its characters.
pub open spec fn optional_view(text: Option<&str>) -> Option<Seq<char>> {
    match text {
        Some(value) => Some(value@),
        None => None,
    }
}

/// The URI made of these parts, as text; nothing where one of them cannot be
/// read or they make no URI together.
pub uninterp spec fn uri_text(
    scheme: Option<Seq<char>>,
    authority: Option<Seq<char>>,
    path_and_query: Seq<char>,
) -> Option<Seq<char>>;

/// `http::Uri::from_parts` of the parts read by `FromStr`, and the `Display` of
/// the URI. The result depends on the parts alone.
#[verifier::external_body]
pub(crate) fn assemble_uri(
    scheme: Option<&str>,
    authority: Option<&str>,
    path_and_query: &str,
) -> (uri: Option<String>)
    ensures
        match uri {
            Some(text) => uri_text(optional_view(scheme), optional_view(authority), path_and_query@)
                == Some(text@),
            None => uri_text(optional_view(scheme), optional_view(authority), path_and_query@)
                is None,
        },
{
    let mut parts = axum::http::uri::Parts::default();
    if let Some(text) = scheme {
        parts.scheme = Some(text.parse().ok()?);
    }
    if let Some(text) = authority {
        parts.authority = Some(text.parse().ok()?);
    }
    parts.path_and_query = Some(path_and_query.parse().ok()?);
    axum::http::Uri::from_parts(parts).ok().map(|uri| uri.to_string())
}

/// Whether a header value made of these bytes can be read as text: visible
/// ASCII and tabs.
pub open spec fn is_header_text(bytes: Seq<u8>) -> bool {
    forall|i: int| 0 <= i < bytes.len() ==> 32 <= #[trigger] bytes[i] < 127 || bytes[i] == 9
}

/// `http::HeaderValue::to_str` of the value with these bytes: the text where
/// every byte is visible ASCII or a tab, else nothing.
#[verifier::external_body]
pub(crate) fn header_text(bytes: &[u8]) -> (text: Option<String>)
    ensures
        match text {
            Some(value) => is_header_text(bytes@) && value@ == Seq::new(
                bytes@.len(),
                |i: int| bytes@[i] as char,
            ),
            None => !is_header_text(bytes@),
        },
{
    let value = axum::http::HeaderValue::from_bytes(bytes).ok()?;
    value.to_str().ok().map(|text| text.to_owned())
}

/// Whether a text can be a header value: none of its bytes is a control
/// character other than a tab.
pub open spec fn is_header_value(text: Seq<char>) -> bool {
    let bytes = vstd::utf8::encode_utf8(text);
    forall|i: int|
        0 <= i < bytes.len() ==> (#[trigger] bytes[i] >= 32 && bytes[i] != 127) || bytes[i] == 9
}

/// `http::HeaderValue::from_str`: it takes a text without control characters
/// other than tabs.
#[verifier::external_body]
pub(crate) fn can_be_header_value(text: &str) -> (can: bool)
    ensures
        can == is_header_value(text@),
{
    axum::http::HeaderValue::from_str(text).is_ok()
}

/// The bits of the IPv6 address that a text spells; nothing where it spells none.
pub uninterp spec fn ipv6_value(text: Seq<char>) -> Option<u128>;

/// `FromStr` of `core::net::Ipv6Addr`. The result depends on the text alone.
#[verifier::external_body]
pub(crate) fn parse_ipv6(text: &str) -> (bits: Option<u128>)
    ensures
        bits == ipv6_value(text@),
{
    match text.parse::<core::net::Ipv6Addr>() {
        Ok(address) => Some(u128::from(address)),
        Err(_) => None,
    }
}

/// How the IPv6 address with these bits is written.
pub uninterp spec fn ipv6_text(bits: u128) -> Seq<char>;

/// `Display` of `core::net::Ipv6Addr`. The result depends on the bits alone.
#[verifier::external_body]
pub(crate) fn format_ipv6(bits: u128) -> (text: String)
    ensures
        text@ == ipv6_text(bits),
{
    core::net::Ipv6Addr::from(bits).to_string()
}

/// The address that a text spells; nothing where it spells none.
pub uninterp spec fn ip_value(text: Seq<char>) -> Option<IpAddr>;

/// `FromStr` of `core::net::IpAddr`. The result depends on the text alone.
#[verifier::external_body]
pub(crate) fn parse_ip(text: &str) -> (address: Option<IpAddr>)
    ensures
        address == ip_value(text@),
{
    match text.parse::<core::net::IpAddr>() {
        Ok(core::net::IpAddr::V4(address)) => Some(IpAddr::V4(u32::from(address))),
        Ok(core::net::IpAddr::V6(address)) => Some(IpAddr::V6(u128::from(address))),
        Err(_) => None,
    }
}

/// The address of the socket address that a text spells; nothing where it
/// spells none.
pub uninterp spec fn socket_ip(text: Seq<char>) -> Option<IpAddr>;

/// `FromStr` of `core::net::SocketAddr`, and `SocketAddr::ip`. The result
/// depends on the text alone.
#[verifier::external_body]
pub(crate) fn parse_socket_ip(text: &str) -> (address: Option<IpAddr>)
    ensures
        address == socket_ip(text@),
{
    match text.parse::<core::net::SocketAddr>() {
        Ok(core::net::SocketAddr::V4(socket)) => Some(IpAddr::V4(u32::from(*socket.ip()))),
        Ok(core::net::SocketAddr::V6(socket)) => Some(IpAddr::V6(u128::from(*socket.ip()))),
        Err(_) => None,
    }
}

} // verus!
