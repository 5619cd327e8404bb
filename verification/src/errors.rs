//! What can go wrong around a relay session, and which failures end it.

use vstd::prelude::*;

verus! {

/// The kinds of failure that the relay tells apart.
#[derive(Debug, Clone, Copy, PartialEq, Eq, Structural)]
pub enum ErrorKind {
    /// Reading from or writing to the connection failed.
    Transport,
    /// A frame held no well-formed message.
    Protocol,
    /// A lookup or a write in the store failed.
    Persistence,
    /// The connection that a subscription needs could not be opened.
    ListenerStart,
    /// One notification could not be parsed.
    NotificationParse,
    /// The outbound queue was full.
    Backpressure,
}

impl ErrorKind {
    /// Only a transport or a protocol failure ends the session: each of
    /// the others is confined to the operation that met it.
    pub open spec fn spec_is_fatal(self) -> bool {
        self == ErrorKind::Transport || self == ErrorKind::Protocol
    }

    /// Whether a failure of this kind ends the session.
    #[verifier::when_used_as_spec(spec_is_fatal)]
    pub fn is_fatal(self) -> (fatal: bool)
        ensures
            fatal == self.spec_is_fatal(),
    {
        match self {
            ErrorKind::Transport => true,
            ErrorKind::Protocol => true,
            ErrorKind::Persistence => false,
            ErrorKind::ListenerStart => false,
            ErrorKind::NotificationParse => false,
            ErrorKind::Backpressure => false,
        }
    }
}

/// Reading from or writing to the connection failed.
#[derive(Debug, Clone, Copy, PartialEq, Eq, Structural)]
pub struct TransportError;

/// A lookup or a write in the store failed.
#[derive(Debug, Clone, Copy, PartialEq, Eq, Structural)]
pub struct PersistenceError;

/// The connection that a subscription needs could not be opened.
#[derive(Debug, Clone, Copy, PartialEq, Eq, Structural)]
pub struct ListenerStartError;

/// One notification of the change feed could not be parsed.
#[derive(Debug, Clone, Copy, PartialEq, Eq, Structural)]
pub struct NotificationParseError;

} // verus!
