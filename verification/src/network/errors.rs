//! Failures of the local network link.
use vstd::prelude::*;

verus! {

/// A failure of the local network link.
#[derive(Debug, Clone, Copy, PartialEq, Eq, Structural)]
pub enum NetMessageError {
    /// The endpoint did not answer in time.
    ConnectionTimeout,
    /// Another event came than the one awaited.
    UnexpectedEvent,
}

impl NetMessageError {
    /// What went wrong, for the user.
    pub fn message(&self) -> (s: String)
        ensures
            s@ == match self {
                NetMessageError::ConnectionTimeout => "remote endpoint connection timeout"@,
                NetMessageError::UnexpectedEvent => "unexpected"@,
            },
    {
        match self {
            NetMessageError::ConnectionTimeout => "remote endpoint connection timeout".to_owned(),
            NetMessageError::UnexpectedEvent => "unexpected".to_owned(),
        }
    }
}

} // verus!
