//! In-memory admin session state.
//!
//! One session at a time and the time of the last activation attempt.
//! Times are monotonic clock readings in nanoseconds since a fixed origin;
//! the caller reads the clock and guards the state against concurrent use.

use vstd::prelude::*;

use crate::server::auth::tokens_match;

verus! {

/// The session store's state: the active session's token and activation
/// time, and the time of the last activation attempt.
pub struct SessionM {
    pub session: Option<(Seq<char>, u64)>,
    pub last_attempt: Option<u64>,
}

/// Whole seconds from `from` to `now` (nanosecond readings); zero when
/// `now` is earlier.
pub open spec fn elapsed_secs(from: u64, now: u64) -> nat {
    if now >= from {
        ((now - from) / 1_000_000_000) as nat
    } else {
        0
    }
}

/// A cookie token opens the session when it equals the session's token and
/// fewer than `minutes` minutes have passed since activation.
pub open spec fn session_active_spec(m: SessionM, cookie: Seq<char>, minutes: u64, now: u64) -> bool {
    match m.session {
        Some((t, at)) => elapsed_secs(at, now) < minutes * 60 && cookie == t,
        None => false,
    }
}

#[derive(Debug)]
pub struct InMemorySessionStore {
    session: Option<(String, u64)>,
    last_attempt: Option<u64>,
}

impl InMemorySessionStore {
    pub closed spec fn model(&self) -> SessionM {
        SessionM {
            session: match self.session {
                Some((t, at)) => Some((t@, at)),
                None => None,
            },
            last_attempt: self.last_attempt,
        }
    }

    /// No session and no attempt yet.
    pub fn new() -> (r: InMemorySessionStore)
        ensures
            r.model() == (SessionM { session: None, last_attempt: None }),
    {
        InMemorySessionStore { session: None, last_attempt: None }
    }

    /// The time of the previous activation attempt, if one exists.
    pub fn last_auth_attempt(&self) -> (r: Option<u64>)
        ensures
            r == self.model().last_attempt,
    {
        self.last_attempt
    }

    /// Record that an activation attempt happened at `now`.
    pub fn record_auth_attempt(&mut self, now: u64)
        ensures
            final(self).model() == (SessionM { last_attempt: Some(now), ..old(self).model() }),
    {
        self.last_attempt = Some(now);
    }

    /// Activate a new session with the given token at `now`, replacing any
    /// earlier one.
    pub fn activate(&mut self, token: String, now: u64)
        ensures
            final(self).model() == (SessionM {
                session: Some((token@, now)),
                ..old(self).model()
            }),
    {
        self.session = Some((token, now));
    }

    /// Whether `cookie_token` matches an active session that is younger
    /// than `session_minutes` at `now`; tokens are compared in constant time.
    pub fn is_active(&self, cookie_token: &str, session_minutes: u64, now: u64) -> (r: bool)
        requires
            session_minutes * 60 <= u64::MAX,
        ensures
            r == session_active_spec(self.model(), cookie_token@, session_minutes, now),
    {
        match &self.session {
            Some((token, activated_at)) => {
                let elapsed = if now >= *activated_at {
                    (now - *activated_at) / 1_000_000_000
                } else {
                    0
                };
                elapsed < session_minutes * 60 && tokens_match(cookie_token, token.as_str())
            },
            None => false,
        }
    }

    /// Invalidate the current session.
    pub fn clear(&mut self)
        ensures
            final(self).model() == (SessionM { session: None, ..old(self).model() }),
    {
        self.session = None;
    }
}

// ── Laws ──────────────────────────────────────────────────────────────────────

/// A session activated with a token is open to that token until its time
/// runs out.
pub proof fn lemma_activated_session_open(
    m: SessionM,
    token: Seq<char>,
    at: u64,
    minutes: u64,
    now: u64,
)
    requires
        elapsed_secs(at, now) < minutes * 60,
    ensures
        session_active_spec(SessionM { session: Some((token, at)), ..m }, token, minutes, now),
{
}

/// Only the session's own token opens it.
pub proof fn lemma_other_token_refused(m: SessionM, cookie: Seq<char>, minutes: u64, now: u64)
    requires
        m.session matches Some((t, _)) && cookie != t,
    ensures
        !session_active_spec(m, cookie, minutes, now),
{
}

/// A session is closed once `minutes` minutes have passed.
pub proof fn lemma_session_expires(m: SessionM, cookie: Seq<char>, minutes: u64, now: u64)
    requires
        m.session matches Some((_, at)) && elapsed_secs(at, now) >= minutes * 60,
    ensures
        !session_active_spec(m, cookie, minutes, now),
{
}

/// After `clear`, no token opens a session.
pub proof fn lemma_cleared_session_closed(m: SessionM, cookie: Seq<char>, minutes: u64, now: u64)
    ensures
        !session_active_spec(SessionM { session: None, ..m }, cookie, minutes, now),
{
}

} // verus!
