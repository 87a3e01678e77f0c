//! Admin authentication.
//!
//! Authentication is token-based: the operator sets a secret token in config.
//! Visiting `/auth/<token>` activates a short-lived server-side session backed
//! by a cookie. No passwords, no user accounts.

use vstd::prelude::*;

use crate::server::session::SessionStore;
use crate::text::push_char;

verus! {

/// Name of the cookie that carries the admin session token.
pub const ADMIN_COOKIE: &'static str = "admin_session";

/// Minutes an admin session stays valid.
pub const SESSION_MINUTES: u64 = 30;

/// Seconds that must pass between two activation attempts.
pub const AUTH_RETRY_SECS: u64 = 2;

// ── Session check ─────────────────────────────────────────────────────────────

/// Whether a request carries a valid, unexpired admin session: `cookie` is
/// the value of its `ADMIN_COOKIE` cookie, if it has one. Without the cookie
/// the answer is `false` and the store is not asked; with it, the answer is
/// what `sessions.is_active` returns for that value and a session of
/// `SESSION_MINUTES` minutes.
pub fn is_admin_session<S: SessionStore + ?Sized>(sessions: &S, cookie: Option<&str>) -> (r: bool)
    ensures
        cookie is None ==> !r,
        cookie matches Some(v) ==> call_ensures(S::is_active, (sessions, v, SESSION_MINUTES), r),
{
    match cookie {
        Some(value) => sessions.is_active(value, SESSION_MINUTES),
        None => false,
    }
}

// ── Token comparison ──────────────────────────────────────────────────────────

proof fn lemma_push_eq<T>(a: Seq<T>, b: Seq<T>, x: T, y: T)
    ensures
        (a.push(x) == b.push(y)) <==> (a == b && x == y),
{
    if a.push(x) == b.push(y) {
        assert(a.push(x).drop_last() =~= a);
        assert(b.push(y).drop_last() =~= b);
        assert(a.push(x).last() == x);
        assert(b.push(y).last() == y);
    }
}

/// Constant-time byte-slice equality to resist timing attacks: every byte
/// pair is looked at, whatever the first difference.
pub fn constant_time_eq(a: &[u8], b: &[u8]) -> (r: bool)
    ensures
        r == (a@ == b@),
{
    if a.len() != b.len() {
        return false;
    }
    let mut acc: u8 = 0;
    let mut i: usize = 0;
    assert(a@.take(0) =~= b@.take(0));
    while i < a.len()
        invariant
            i <= a@.len(),
            a@.len() == b@.len(),
            (acc == 0) == (a@.take(i as int) == b@.take(i as int)),
        decreases a@.len() - i,
    {
        let x = a[i];
        let y = b[i];
        proof {
            assert((acc | (x ^ y)) == 0 <==> (acc == 0 && x == y)) by (bit_vector);
            assert(a@.take(i + 1) =~= a@.take(i as int).push(x));
            assert(b@.take(i + 1) =~= b@.take(i as int).push(y));
            lemma_push_eq(a@.take(i as int), b@.take(i as int), x, y);
        }
        acc = acc | (x ^ y);
        i = i + 1;
    }
    assert(a@.take(a@.len() as int) =~= a@);
    assert(b@.take(b@.len() as int) =~= b@);
    acc == 0
}

proof fn lemma_utf8_injective(a: &str, b: &str)
    ensures
        vstd::utf8::encode_utf8(a@) == vstd::utf8::encode_utf8(b@) ==> a@ == b@,
{
    vstd::utf8::encode_utf8_decode_utf8(a@);
    vstd::utf8::encode_utf8_decode_utf8(b@);
}

/// Whether two texts are equal, compared byte by byte in constant time.
pub fn tokens_match(a: &str, b: &str) -> (r: bool)
    ensures
        r == (a@ == b@),
{
    proof {
        lemma_utf8_injective(a, b);
    }
    constant_time_eq(a.as_bytes(), b.as_bytes())
}

// ── Activation decision ───────────────────────────────────────────────────────

/// What an activation attempt comes to.
#[derive(Debug, Clone, Copy, PartialEq, Eq, Structural)]
pub enum AuthOutcome {
    /// The previous attempt was too recent; the attempt is not recorded.
    TooManyRequests,
    /// The attempt is recorded; the token does not match.
    Unauthorized,
    /// The attempt is recorded; the token matches, so a session starts.
    Authorized,
}

pub open spec fn auth_outcome_spec(
    secs_since_last: Option<u64>,
    token: Seq<char>,
    configured: Option<Seq<char>>,
) -> AuthOutcome {
    let too_soon = match secs_since_last {
        Some(s) => s < AUTH_RETRY_SECS,
        None => false,
    };
    if too_soon {
        AuthOutcome::TooManyRequests
    } else if token != (match configured {
        Some(c) => c,
        None => seq![],
    }) {
        AuthOutcome::Unauthorized
    } else {
        AuthOutcome::Authorized
    }
}

/// The decision on an attempt to activate an admin session with `token`:
/// refused when the previous attempt was less than `AUTH_RETRY_SECS`
/// seconds ago, then compared (in constant time) with the configured token,
/// an unset one standing for the empty token.
pub fn auth_outcome(secs_since_last: Option<u64>, token: &str, configured: Option<&str>) -> (r:
    AuthOutcome)
    ensures
        r == auth_outcome_spec(
            secs_since_last,
            token@,
            match configured {
                Some(c) => Some(c@),
                None => None,
            },
        ),
{
    proof {
        reveal_strlit("");
        assert(""@ =~= Seq::<char>::empty());
    }
    match secs_since_last {
        Some(s) => {
            if s < AUTH_RETRY_SECS {
                return AuthOutcome::TooManyRequests;
            }
        },
        None => {},
    }
    let expected = match configured {
        Some(c) => c,
        None => "",
    };
    if !tokens_match(token, expected) {
        return AuthOutcome::Unauthorized;
    }
    AuthOutcome::Authorized
}

// ── Session tokens ────────────────────────────────────────────────────────────

pub open spec fn hex_table() -> Seq<char> {
    seq!['0', '1', '2', '3', '4', '5', '6', '7', '8', '9', 'a', 'b', 'c', 'd', 'e', 'f']
}

/// The last `n` lower-case hexadecimal digits of `x`, zero-padded
/// (`{:0nx}` when `x < 16^n`).
pub open spec fn hex_fixed(x: nat, n: nat) -> Seq<char>
    decreases n,
{
    if n == 0 {
        seq![]
    } else {
        hex_fixed(x / 16, (n - 1) as nat).push(hex_table()[(x % 16) as int])
    }
}

/// `a + b` wrapped to 64 bits.
pub open spec fn wrap_add(a: u64, b: u64) -> nat {
    if a + b > u64::MAX {
        (a + b - 0x1_0000_0000_0000_0000) as nat
    } else {
        (a + b) as nat
    }
}

/// A 64-character session token built from two hash values:
/// `{a:016x}{b:016x}{a^b:016x}{a+b:016x}`, the sum wrapping.
pub open spec fn session_token_spec(a: u64, b: u64) -> Seq<char> {
    hex_fixed(a as nat, 16) + hex_fixed(b as nat, 16) + hex_fixed((a ^ b) as nat, 16) + hex_fixed(
        wrap_add(a, b),
        16,
    )
}

fn hex_char(d: u64) -> (c: char)
    requires
        d < 16,
    ensures
        c == hex_table()[d as int],
{
    if d == 0 {
        '0'
    } else if d == 1 {
        '1'
    } else if d == 2 {
        '2'
    } else if d == 3 {
        '3'
    } else if d == 4 {
        '4'
    } else if d == 5 {
        '5'
    } else if d == 6 {
        '6'
    } else if d == 7 {
        '7'
    } else if d == 8 {
        '8'
    } else if d == 9 {
        '9'
    } else if d == 10 {
        'a'
    } else if d == 11 {
        'b'
    } else if d == 12 {
        'c'
    } else if d == 13 {
        'd'
    } else if d == 14 {
        'e'
    } else {
        'f'
    }
}

fn push_hex(s: &mut String, x: u64, n: usize)
    ensures
        final(s)@ == old(s)@ + hex_fixed(x as nat, n as nat),
    decreases n,
{
    if n > 0 {
        push_hex(s, x / 16, n - 1);
        push_char(s, hex_char(x % 16));
        proof {
            assert(hex_fixed(x as nat, n as nat) == hex_fixed((x / 16) as nat, (n - 1) as nat).push(
                hex_table()[(x % 16) as int],
            ));
        }
    } else {
        assert(old(s)@ + Seq::<char>::empty() =~= old(s)@);
    }
}

/// The session token text for two hash values `a` and `b`.
pub fn session_token(a: u64, b: u64) -> (r: String)
    ensures
        r@ == session_token_spec(a, b),
        r@.len() == 64,
{
    let sum = if a <= u64::MAX - b {
        a + b
    } else {
        a - (u64::MAX - b) - 1
    };
    let mut s = String::new();
    push_hex(&mut s, a, 16);
    push_hex(&mut s, b, 16);
    push_hex(&mut s, a ^ b, 16);
    push_hex(&mut s, sum, 16);
    proof {
        assert(sum as nat == wrap_add(a, b));
        lemma_hex_fixed_len(a as nat, 16);
        lemma_hex_fixed_len(b as nat, 16);
        lemma_hex_fixed_len((a ^ b) as nat, 16);
        lemma_hex_fixed_len(wrap_add(a, b), 16);
        assert(s@ =~= session_token_spec(a, b));
    }
    s
}

proof fn lemma_hex_fixed_len(x: nat, n: nat)
    ensures
        hex_fixed(x, n).len() == n,
    decreases n,
{
    if n > 0 {
        lemma_hex_fixed_len(x / 16, (n - 1) as nat);
    }
}

} // verus!
