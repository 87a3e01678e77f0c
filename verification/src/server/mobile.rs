//! Mobile user-agent detection.

use vstd::prelude::*;

use crate::server::{header_text, header_text_spec};
use crate::text::{chars_of, contains, find_exec};

verus! {

/// A user agent names a phone: it is not empty and holds `Mobile`,
/// `iPhone`, `iPod`, `BlackBerry`, `IEMobile` or `Opera Mini`.
pub open spec fn is_mobile_ua(ua: Seq<char>) -> bool {
    &&& ua.len() > 0
    &&& {
        ||| contains(ua, "Mobile"@)
        ||| contains(ua, "iPhone"@)
        ||| contains(ua, "iPod"@)
        ||| contains(ua, "BlackBerry"@)
        ||| contains(ua, "IEMobile"@)
        ||| contains(ua, "Opera Mini"@)
    }
}

/// The `User-Agent` text of a request; empty when the header is absent or
/// not visible ASCII.
pub open spec fn user_agent_of(headers: axum::http::HeaderMap) -> Seq<char> {
    match header_text_spec(headers, "user-agent"@) {
        Some(s) => s,
        None => seq![],
    }
}

fn holds(v: &Vec<char>, p: &str) -> (b: bool)
    ensures
        b == contains(v@, p@),
{
    let pv = chars_of(p);
    assert(v@.subrange(0, v@.len() as int) =~= v@);
    find_exec(v, v.len(), &pv, 0).is_some()
}

/// Whether a user agent names a phone. Tablets (iPad, Android without
/// "Mobile") count as desktop, so they receive the full three-column layout.
pub fn is_mobile_user_agent(ua: &str) -> (r: bool)
    ensures
        r == is_mobile_ua(ua@),
{
    let v = chars_of(ua);
    if v.len() == 0 {
        return false;
    }
    holds(&v, "Mobile") || holds(&v, "iPhone") || holds(&v, "iPod") || holds(&v, "BlackBerry")
        || holds(&v, "IEMobile") || holds(&v, "Opera Mini")
}

/// Returns `true` when the request's `User-Agent` header indicates a phone.
///
/// Tablets (iPad, Android without "Mobile") are treated as desktop so they
/// receive the full three-column layout.
pub fn detect(headers: &axum::http::HeaderMap) -> (r: bool)
    ensures
        r == is_mobile_ua(user_agent_of(*headers)),
{
    proof {
        reveal_strlit("user-agent");
    }
    match header_text(headers, "user-agent") {
        Some(ua) => is_mobile_user_agent(ua.as_str()),
        None => {
            assert(is_mobile_ua(seq![]) == false);
            false
        },
    }
}

} // verus!
