//! Per-session lifecycle: `Connecting -> Upgraded -> Active -> Closed`.
//!
//! A session is the pairing of one connected peer's inbound and outbound byte
//! paths. It advances on the outcomes of the surrounding I/O: the upgrade
//! handshake, insertion into the registry, and the first failure or graceful
//! close observed on either path. A closed session never becomes active
//! again; reconnecting requires a brand-new handshake.

use vstd::prelude::*;

verus! {

/// The lifecycle states of one client session.
#[derive(Clone, Copy, Debug, PartialEq, Eq, Structural)]
pub enum SessionState {
    /// An upgrade request has arrived; the handshake has not completed.
    Connecting,
    /// The handshake succeeded; the session is not yet in the registry.
    Upgraded,
    /// The session is registered: it receives broadcasts and may forward
    /// bytes onto the channel.
    Active,
    /// The session is over; it takes no further part in the bridge.
    Closed,
}

/// The observations that drive a session from one state to the next.
#[derive(Clone, Copy, Debug, PartialEq, Eq, Structural)]
pub enum SessionEvent {
    /// The protocol upgrade handshake completed successfully.
    UpgradeOk,
    /// The protocol upgrade handshake failed.
    UpgradeFailed,
    /// The session was inserted into the client registry.
    Registered,
    /// The peer closed its side gracefully.
    ReceiveClosed,
    /// A receive call on the session's stream failed.
    ReceiveFailed,
    /// A send to the session's sink failed (observed by the broadcaster).
    SendFailed,
}

/// The transition relation of the session lifecycle.
///
/// `Connecting` advances to `Upgraded` only on a successful handshake;
/// `Upgraded` advances to `Active` only on registry insertion; `Active` ends
/// on the first of peer close, receive failure or send failure; `Closed` is
/// terminal. Any event that a state has no use for leaves `Active` in place
/// and aborts a connection still being set up.
pub open spec fn spec_step(s: SessionState, e: SessionEvent) -> SessionState {
    match s {
        SessionState::Connecting => match e {
            SessionEvent::UpgradeOk => SessionState::Upgraded,
            _ => SessionState::Closed,
        },
        SessionState::Upgraded => match e {
            SessionEvent::Registered => SessionState::Active,
            _ => SessionState::Closed,
        },
        SessionState::Active => match e {
            SessionEvent::ReceiveClosed => SessionState::Closed,
            SessionEvent::ReceiveFailed => SessionState::Closed,
            SessionEvent::SendFailed => SessionState::Closed,
            _ => SessionState::Active,
        },
        SessionState::Closed => SessionState::Closed,
    }
}

/// Advance a session by one observed event.
pub fn step(s: SessionState, e: SessionEvent) -> (r: SessionState)
    ensures
        r == spec_step(s, e),
{
    match s {
        SessionState::Connecting => match e {
            SessionEvent::UpgradeOk => SessionState::Upgraded,
            _ => SessionState::Closed,
        },
        SessionState::Upgraded => match e {
            SessionEvent::Registered => SessionState::Active,
            _ => SessionState::Closed,
        },
        SessionState::Active => match e {
            SessionEvent::ReceiveClosed => SessionState::Closed,
            SessionEvent::ReceiveFailed => SessionState::Closed,
            SessionEvent::SendFailed => SessionState::Closed,
            _ => SessionState::Active,
        },
        SessionState::Closed => SessionState::Closed,
    }
}

/// A closed session stays closed: no event whatsoever revives it.
pub proof fn lemma_closed_is_terminal(e: SessionEvent)
    ensures
        spec_step(SessionState::Closed, e) == SessionState::Closed,
{
}

/// A session is active only by way of registration: the sole transitions
/// into `Active` start from `Upgraded` (on insertion) or from `Active`
/// itself. In particular there is no way back from `Closed` to `Active`.
pub proof fn lemma_no_reactivation(s: SessionState, e: SessionEvent)
    ensures
        spec_step(s, e) == SessionState::Active ==> s == SessionState::Upgraded || s
            == SessionState::Active,
{
}

} // verus!
