//! HTTP-facing logic: admin authentication, sessions, device detection, and
//! the decisions the route handlers make. Routing and responses are the
//! server's part.

pub mod auth;
pub mod handlers;
pub mod middleware;
pub mod mobile;
pub mod session;
pub mod session_memory;

use vstd::prelude::*;

verus! {

// ── Request headers ───────────────────────────────────────────────────────────

#[verifier::external_type_specification]
#[verifier::external_body]
#[verifier::reject_recursive_types(T)]
pub struct ExHeaderMap<T>(axum::http::HeaderMap<T>);

#[verifier::external_type_specification]
#[verifier::external_body]
pub struct ExHeaderValue(axum::http::HeaderValue);

/// What a header map holds: by lower-case header name, the bytes of the
/// first value given for that name.
pub uninterp spec fn header_values(headers: axum::http::HeaderMap) -> Map<Seq<char>, Seq<u8>>;

/// A header name in the form `HeaderMap::get` looks up as given: non-empty,
/// lower-case letters, digits and `-`.
pub open spec fn lower_header_name(name: Seq<char>) -> bool {
    &&& name.len() > 0
    &&& forall|i: int|
        0 <= i < name.len() ==> ('a' <= #[trigger] name[i] && name[i] <= 'z') || ('0' <= name[i]
            && name[i] <= '9') || name[i] == '-'
}

/// Bytes that `HeaderValue::to_str` accepts: visible ASCII and tab.
pub open spec fn visible_ascii(b: Seq<u8>) -> bool {
    forall|i: int| 0 <= i < b.len() ==> (32 <= #[trigger] b[i] && b[i] < 127) || b[i] == 9
}

/// ASCII bytes read as characters.
pub open spec fn ascii_text(b: Seq<u8>) -> Seq<char> {
    b.map_values(|x: u8| x as char)
}

/// The text of the header `name`: its first value when that is visible
/// ASCII; `None` when the header is absent or its value is not.
pub open spec fn header_text_spec(headers: axum::http::HeaderMap, name: Seq<char>) -> Option<
    Seq<char>,
> {
    if header_values(headers).contains_key(name) && visible_ascii(header_values(headers)[name]) {
        Some(ascii_text(header_values(headers)[name]))
    } else {
        None
    }
}

/// The text of a request header: `HeaderMap::get(name)`, then
/// `HeaderValue::to_str`. `get` gives the first value stored under the
/// name; `to_str` accepts a value only when every byte is visible ASCII or
/// a tab, and then reads it as that text.
#[verifier::external_body]
pub(crate) fn header_text(headers: &axum::http::HeaderMap, name: &str) -> (r: Option<String>)
    requires
        lower_header_name(name@),
    ensures
        r matches Some(s) ==> header_values(*headers).contains_key(name@) && visible_ascii(
            header_values(*headers)[name@],
        ) && s@ == ascii_text(header_values(*headers)[name@]),
        r is None ==> !(header_values(*headers).contains_key(name@) && visible_ascii(
            header_values(*headers)[name@],
        )),
{
    match headers.get(name) {
        Some(v) => match v.to_str() {
            Ok(s) => Some(s.to_string()),
            Err(_) => None,
        },
        None => None,
    }
}

} // verus!
