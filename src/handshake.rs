//! Association set-up and tear-down: from a state and an event to the next
//! state and what to send or start.
use vstd::prelude::*;

verus! {

#[derive(Clone, Copy, Debug, PartialEq, Eq, Structural)]
pub enum AssociationState {
    Closed,
    CookieWait,
    CookieEchoed,
    Established,
    ShutdownPending,
    ShutdownSent,
    ShutdownReceived,
    ShutdownAckSent,
}

#[derive(Clone, Copy, Debug, PartialEq, Eq, Structural)]
pub enum HandshakeEvent {
    /// The user opens the association.
    Associate,
    RecvInit,
    RecvInitAck,
    /// A COOKIE-ECHO; `valid` when its MAC checks and it has not expired.
    RecvCookieEcho { valid: bool },
    RecvCookieAck,
    /// The user closes the association.
    UserClose,
    /// No data is left inflight.
    InflightDrained,
    RecvShutdown,
    RecvShutdownAck,
    RecvShutdownComplete,
    /// T1-init, T1-cookie or T2-shutdown went past its retransmission limit.
    RetransmitsExhausted,
    RecvAbort,
}

#[derive(Clone, Copy, Debug, PartialEq, Eq, Structural)]
pub enum HandshakeAction {
    Nothing,
    /// Send INIT and start T1-init.
    SendInit,
    /// Send INIT-ACK with a signed state cookie.
    SendInitAck,
    /// Send COOKIE-ECHO, stop T1-init and start T1-cookie.
    SendCookieEcho,
    SendCookieAck,
    /// Send SHUTDOWN and start T2-shutdown.
    SendShutdown,
    /// Send SHUTDOWN-ACK and start T2-shutdown.
    SendShutdownAck,
    SendShutdownComplete,
    /// Give up: the peer is unreachable.
    ReportUnreachable,
    /// The peer aborted.
    ReportAbort,
}

/// The transition table; events a state does not expect are discarded.
pub open spec fn handshake_step(s: AssociationState, e: HandshakeEvent) -> (
    AssociationState,
    HandshakeAction,
) {
    match (s, e) {
        (_, HandshakeEvent::RecvAbort) => (AssociationState::Closed, HandshakeAction::ReportAbort),
        (AssociationState::Closed, HandshakeEvent::Associate) => (
            AssociationState::CookieWait,
            HandshakeAction::SendInit,
        ),
        (AssociationState::Closed, HandshakeEvent::RecvInit) => (
            AssociationState::Closed,
            HandshakeAction::SendInitAck,
        ),
        (AssociationState::Closed, HandshakeEvent::RecvCookieEcho { valid }) => if valid {
            (AssociationState::Established, HandshakeAction::SendCookieAck)
        } else {
            (AssociationState::Closed, HandshakeAction::Nothing)
        },
        (AssociationState::CookieWait, HandshakeEvent::RecvInitAck) => (
            AssociationState::CookieEchoed,
            HandshakeAction::SendCookieEcho,
        ),
        (AssociationState::CookieEchoed, HandshakeEvent::RecvCookieAck) => (
            AssociationState::Established,
            HandshakeAction::Nothing,
        ),
        (AssociationState::Established, HandshakeEvent::UserClose) => (
            AssociationState::ShutdownPending,
            HandshakeAction::Nothing,
        ),
        (AssociationState::ShutdownPending, HandshakeEvent::InflightDrained) => (
            AssociationState::ShutdownSent,
            HandshakeAction::SendShutdown,
        ),
        (AssociationState::ShutdownSent, HandshakeEvent::RecvShutdownAck) => (
            AssociationState::Closed,
            HandshakeAction::SendShutdownComplete,
        ),
        (AssociationState::Established, HandshakeEvent::RecvShutdown) => (
            AssociationState::ShutdownReceived,
            HandshakeAction::Nothing,
        ),
        (AssociationState::ShutdownReceived, HandshakeEvent::InflightDrained) => (
            AssociationState::ShutdownAckSent,
            HandshakeAction::SendShutdownAck,
        ),
        (AssociationState::ShutdownAckSent, HandshakeEvent::RecvShutdownComplete) => (
            AssociationState::Closed,
            HandshakeAction::Nothing,
        ),
        (AssociationState::CookieWait, HandshakeEvent::RetransmitsExhausted)
        | (AssociationState::CookieEchoed, HandshakeEvent::RetransmitsExhausted)
        | (AssociationState::ShutdownSent, HandshakeEvent::RetransmitsExhausted)
        | (AssociationState::ShutdownAckSent, HandshakeEvent::RetransmitsExhausted) => (
            AssociationState::Closed,
            HandshakeAction::ReportUnreachable,
        ),
        _ => (s, HandshakeAction::Nothing),
    }
}

/// One step of set-up or tear-down.
pub fn handshake_next(s: AssociationState, e: HandshakeEvent) -> (r: (
    AssociationState,
    HandshakeAction,
))
    ensures
        r == handshake_step(s, e),
{
    match (s, e) {
        (_, HandshakeEvent::RecvAbort) => (AssociationState::Closed, HandshakeAction::ReportAbort),
        (AssociationState::Closed, HandshakeEvent::Associate) => (
            AssociationState::CookieWait,
            HandshakeAction::SendInit,
        ),
        (AssociationState::Closed, HandshakeEvent::RecvInit) => (
            AssociationState::Closed,
            HandshakeAction::SendInitAck,
        ),
        (AssociationState::Closed, HandshakeEvent::RecvCookieEcho { valid }) => if valid {
            (AssociationState::Established, HandshakeAction::SendCookieAck)
        } else {
            (AssociationState::Closed, HandshakeAction::Nothing)
        },
        (AssociationState::CookieWait, HandshakeEvent::RecvInitAck) => (
            AssociationState::CookieEchoed,
            HandshakeAction::SendCookieEcho,
        ),
        (AssociationState::CookieEchoed, HandshakeEvent::RecvCookieAck) => (
            AssociationState::Established,
            HandshakeAction::Nothing,
        ),
        (AssociationState::Established, HandshakeEvent::UserClose) => (
            AssociationState::ShutdownPending,
            HandshakeAction::Nothing,
        ),
        (AssociationState::ShutdownPending, HandshakeEvent::InflightDrained) => (
            AssociationState::ShutdownSent,
            HandshakeAction::SendShutdown,
        ),
        (AssociationState::ShutdownSent, HandshakeEvent::RecvShutdownAck) => (
            AssociationState::Closed,
            HandshakeAction::SendShutdownComplete,
        ),
        (AssociationState::Established, HandshakeEvent::RecvShutdown) => (
            AssociationState::ShutdownReceived,
            HandshakeAction::Nothing,
        ),
        (AssociationState::ShutdownReceived, HandshakeEvent::InflightDrained) => (
            AssociationState::ShutdownAckSent,
            HandshakeAction::SendShutdownAck,
        ),
        (AssociationState::ShutdownAckSent, HandshakeEvent::RecvShutdownComplete) => (
            AssociationState::Closed,
            HandshakeAction::Nothing,
        ),
        (AssociationState::CookieWait, HandshakeEvent::RetransmitsExhausted)
        | (AssociationState::CookieEchoed, HandshakeEvent::RetransmitsExhausted)
        | (AssociationState::ShutdownSent, HandshakeEvent::RetransmitsExhausted)
        | (AssociationState::ShutdownAckSent, HandshakeEvent::RetransmitsExhausted) => (
            AssociationState::Closed,
            HandshakeAction::ReportUnreachable,
        ),
        _ => (s, HandshakeAction::Nothing),
    }
}

/// The retransmission timeout after one more expiry: doubled, capped at
/// `rto_max`.
pub fn backoff_rto(rto: u64, rto_max: u64) -> (r: u64)
    ensures
        r == if 2 * rto as int > rto_max as int {
            rto_max as int
        } else {
            2 * rto as int
        },
{
    if rto > rto_max / 2 {
        rto_max
    } else {
        2 * rto
    }
}

} // verus!
