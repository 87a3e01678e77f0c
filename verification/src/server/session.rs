//! `SessionStore` trait — the interface for admin session management.
//!
//! Swapping the in-memory store for Redis or a database requires changing
//! only the implementation module and where it is created.

use std::time::Instant;

use vstd::prelude::*;

verus! {

#[verifier::external_type_specification]
#[verifier::external_body]
pub struct ExInstant(std::time::Instant);

pub trait SessionStore: Send + Sync {
    /// The time of the previous activation attempt, if one exists.
    fn last_auth_attempt(&self) -> Option<Instant>;

    /// Record that an activation attempt just happened.
    fn record_auth_attempt(&self);

    /// Activate a new session with the given token.
    fn activate(&self, token: String);

    /// Check whether `cookie_token` matches an active, unexpired session.
    fn is_active(&self, cookie_token: &str, session_minutes: u64) -> bool;

    /// Invalidate the current session.
    fn clear(&self);
}

} // verus!
