//! Response headers added to every response, and the request path as the
//! request log shows it.

use vstd::prelude::*;

use crate::text::{chars_of, range_eq, starts_with};

verus! {

/// The security-related response headers set on every response, as
/// `(name, value)` pairs.
pub fn security_header_pairs() -> (r: Vec<(&'static str, &'static str)>)
    ensures
        r@.len() == 4,
        r@[0].0@ == "X-Content-Type-Options"@ && r@[0].1@ == "nosniff"@,
        r@[1].0@ == "X-Frame-Options"@ && r@[1].1@ == "DENY"@,
        r@[2].0@ == "Referrer-Policy"@ && r@[2].1@ == "strict-origin-when-cross-origin"@,
        r@[3].0@ == "Content-Security-Policy"@ && r@[3].1@ == "default-src 'self'; style-src 'self' 'unsafe-inline' https://raw.githubusercontent.com; script-src 'self' 'unsafe-inline' https://raw.githubusercontent.com; img-src 'self' data: https:"@,
{
    let mut v: Vec<(&'static str, &'static str)> = Vec::new();
    v.push(("X-Content-Type-Options", "nosniff"));
    v.push(("X-Frame-Options", "DENY"));
    v.push(("Referrer-Policy", "strict-origin-when-cross-origin"));
    v.push(
        (
            "Content-Security-Policy",
            "default-src 'self'; style-src 'self' 'unsafe-inline' https://raw.githubusercontent.com; script-src 'self' 'unsafe-inline' https://raw.githubusercontent.com; img-src 'self' data: https:",
        ),
    );
    v
}

/// The prefix of the one-time login links, whose token must not be logged.
pub open spec fn auth_prefix() -> Seq<char> {
    seq!['/', 'a', 'u', 't', 'h', '/']
}

/// The request path as logged: a path under `/auth/` is logged as
/// `/auth/[REDACTED]`, any other path as it is.
pub open spec fn logged_path_spec(path: Seq<char>) -> Seq<char> {
    if starts_with(path, auth_prefix()) {
        "/auth/[REDACTED]"@
    } else {
        path
    }
}

/// The request path as the request log shows it, with login tokens hidden.
pub fn logged_path(path: &str) -> (r: &str)
    ensures
        r@ == logged_path_spec(path@),
{
    let v = chars_of(path);
    let prefix = vec!['/', 'a', 'u', 't', 'h', '/'];
    assert(prefix@ =~= auth_prefix());
    if v.len() >= 6 && range_eq(&v, 0, 6, &prefix) {
        "/auth/[REDACTED]"
    } else {
        proof {
            if starts_with(path@, auth_prefix()) {
                assert(v@.subrange(0, 6) =~= auth_prefix());
            }
        }
        path
    }
}

} // verus!
