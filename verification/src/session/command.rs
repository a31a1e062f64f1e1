//! The commands that peers of a session publish to each other.
use super::registry::UserRegistry;
use vstd::prelude::*;

verus! {

/// A command published to the peers of a session.
pub enum SessionCommand {
    /// A peer asks to take part as `user`.
    Register { user: String },
    /// The host closes registrations: these users take part, starting at `session_start`
    /// (a date in RFC 3339 form).
    LockSession { registered_users: UserRegistry, session_start: String },
    /// A payload for the other peers.
    Push(Vec<u8>),
}

} // verus!
