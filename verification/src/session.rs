//! The peer session as a pure state machine: handshake order, keep-alive,
//! and how each kind of trouble tears the session down.

use vstd::prelude::*;
use crate::Error;

verus! {

/// Where one peer connection stands.
#[derive(Debug, Clone, Copy, PartialEq, Eq, Structural)]
pub enum SessionState {
    /// The socket is being opened.
    Connecting,
    /// Our version message is out; the peer's is awaited.
    AwaitingVersion,
    /// The peer's version was acceptable; its verack is awaited.
    AwaitingVerack,
    /// Handshake complete; requests may flow.
    Ready,
    /// Torn down; only a new session can talk to the peer again.
    Failed,
}

/// What the transport observed.
#[derive(Debug, Clone, Copy, PartialEq, Eq, Structural)]
pub enum SessionEvent {
    /// The socket opened.
    Connected,
    /// The peer's version message arrived; `services_ok` says whether it
    /// was well-formed and its services suffice.
    VersionReceived { services_ok: bool },
    /// The peer's verack arrived.
    VerackReceived,
    /// The peer pinged us.
    PingReceived { nonce: u64 },
    /// A message outside the expected exchange arrived.
    UnsolicitedMessage,
    /// A frame carried the wrong network magic.
    BadMagic,
    /// A frame could not be decoded.
    MalformedFrame,
    /// The socket failed.
    SocketError,
}

/// What the caller must do next.
#[derive(Debug, Clone)]
pub enum SessionAction {
    /// Send our version message.
    SendVersion,
    /// Send our verack.
    SendVerack,
    /// Answer a ping.
    SendPong { nonce: u64 },
    /// Note the stray message and carry on.
    LogUnhandled,
    /// Release the socket and surface the error.
    Close { err: Error },
    /// Nothing; await the next event.
    Wait,
}

/// The transition table of a session. Protocol-integrity trouble (wrong
/// magic, undecodable frame) and socket failure are fatal to the session;
/// a stray message is logged and tolerated; the handshake admits exactly
/// version-then-verack.
pub open spec fn session_step_spec(s: SessionState, ev: SessionEvent) -> (
    SessionState,
    SessionAction,
) {
    match ev {
        SessionEvent::BadMagic => (
            SessionState::Failed,
            SessionAction::Close { err: Error::InvalidMagic },
        ),
        SessionEvent::MalformedFrame => (
            SessionState::Failed,
            SessionAction::Close { err: Error::SerializationError },
        ),
        SessionEvent::SocketError => {
            if s is Connecting {
                (SessionState::Failed, SessionAction::Close { err: Error::ConnectionError })
            } else {
                (SessionState::Failed, SessionAction::Close { err: Error::ConnectionBroken })
            }
        },
        SessionEvent::Connected => {
            if s is Connecting {
                (SessionState::AwaitingVersion, SessionAction::SendVersion)
            } else {
                (s, SessionAction::LogUnhandled)
            }
        },
        SessionEvent::VersionReceived { services_ok } => {
            if s is AwaitingVersion {
                if services_ok {
                    (SessionState::AwaitingVerack, SessionAction::SendVerack)
                } else {
                    (SessionState::Failed, SessionAction::Close { err: Error::InvalidReply })
                }
            } else {
                (s, SessionAction::LogUnhandled)
            }
        },
        SessionEvent::VerackReceived => {
            if s is AwaitingVerack {
                (SessionState::Ready, SessionAction::Wait)
            } else {
                (s, SessionAction::LogUnhandled)
            }
        },
        SessionEvent::PingReceived { nonce } => {
            if s is Ready {
                (SessionState::Ready, SessionAction::SendPong { nonce })
            } else {
                (s, SessionAction::LogUnhandled)
            }
        },
        SessionEvent::UnsolicitedMessage => (s, SessionAction::LogUnhandled),
    }
}

/// Drive the session one event forward. Besides following the table, the
/// step never resurrects a failed session, and a session becomes `Ready`
/// only by completing the handshake in order.
pub fn session_step(s: SessionState, ev: SessionEvent) -> (r: (SessionState, SessionAction))
    ensures
        r == session_step_spec(s, ev),
        s is Failed ==> r.0 is Failed,
        r.0 is Ready ==> (s is Ready && !(ev is SocketError) && !(ev is BadMagic) && !(ev
            is MalformedFrame)) || (s is AwaitingVerack && ev is VerackReceived),
{
    match ev {
        SessionEvent::BadMagic => (
            SessionState::Failed,
            SessionAction::Close { err: Error::InvalidMagic },
        ),
        SessionEvent::MalformedFrame => (
            SessionState::Failed,
            SessionAction::Close { err: Error::SerializationError },
        ),
        SessionEvent::SocketError => {
            if matches!(s, SessionState::Connecting) {
                (SessionState::Failed, SessionAction::Close { err: Error::ConnectionError })
            } else {
                (SessionState::Failed, SessionAction::Close { err: Error::ConnectionBroken })
            }
        },
        SessionEvent::Connected => {
            if matches!(s, SessionState::Connecting) {
                (SessionState::AwaitingVersion, SessionAction::SendVersion)
            } else {
                (s, SessionAction::LogUnhandled)
            }
        },
        SessionEvent::VersionReceived { services_ok } => {
            if matches!(s, SessionState::AwaitingVersion) {
                if services_ok {
                    (SessionState::AwaitingVerack, SessionAction::SendVerack)
                } else {
                    (SessionState::Failed, SessionAction::Close { err: Error::InvalidReply })
                }
            } else {
                (s, SessionAction::LogUnhandled)
            }
        },
        SessionEvent::VerackReceived => {
            if matches!(s, SessionState::AwaitingVerack) {
                (SessionState::Ready, SessionAction::Wait)
            } else {
                (s, SessionAction::LogUnhandled)
            }
        },
        SessionEvent::PingReceived { nonce } => {
            if matches!(s, SessionState::Ready) {
                (SessionState::Ready, SessionAction::SendPong { nonce })
            } else {
                (s, SessionAction::LogUnhandled)
            }
        },
        SessionEvent::UnsolicitedMessage => (s, SessionAction::LogUnhandled),
    }
}

} // verus!
