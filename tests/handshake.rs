use sctp::handshake::{
    backoff_rto, handshake_next, AssociationState as S, HandshakeAction as A,
    HandshakeEvent as E,
};

#[test]
fn active_open_then_graceful_close() {
    let (s, a) = handshake_next(S::Closed, E::Associate);
    assert_eq!((s, a), (S::CookieWait, A::SendInit));
    let (s, a) = handshake_next(s, E::RecvInitAck);
    assert_eq!((s, a), (S::CookieEchoed, A::SendCookieEcho));
    let (s, a) = handshake_next(s, E::RecvCookieAck);
    assert_eq!((s, a), (S::Established, A::Nothing));
    let (s, _) = handshake_next(s, E::UserClose);
    assert_eq!(s, S::ShutdownPending);
    let (s, a) = handshake_next(s, E::InflightDrained);
    assert_eq!((s, a), (S::ShutdownSent, A::SendShutdown));
    let (s, a) = handshake_next(s, E::RecvShutdownAck);
    assert_eq!((s, a), (S::Closed, A::SendShutdownComplete));
}

#[test]
fn passive_open_then_peer_close() {
    assert_eq!(handshake_next(S::Closed, E::RecvInit), (S::Closed, A::SendInitAck));
    assert_eq!(
        handshake_next(S::Closed, E::RecvCookieEcho { valid: false }),
        (S::Closed, A::Nothing)
    );
    let (s, a) = handshake_next(S::Closed, E::RecvCookieEcho { valid: true });
    assert_eq!((s, a), (S::Established, A::SendCookieAck));
    let (s, _) = handshake_next(s, E::RecvShutdown);
    assert_eq!(s, S::ShutdownReceived);
    let (s, a) = handshake_next(s, E::InflightDrained);
    assert_eq!((s, a), (S::ShutdownAckSent, A::SendShutdownAck));
    assert_eq!(handshake_next(s, E::RecvShutdownComplete), (S::Closed, A::Nothing));
}

#[test]
fn failures_close_the_association() {
    assert_eq!(
        handshake_next(S::CookieWait, E::RetransmitsExhausted),
        (S::Closed, A::ReportUnreachable)
    );
    assert_eq!(handshake_next(S::Established, E::RecvAbort), (S::Closed, A::ReportAbort));
    assert_eq!(handshake_next(S::Established, E::RecvInitAck), (S::Established, A::Nothing));
}

#[test]
fn rto_backoff_doubles_up_to_max() {
    assert_eq!(backoff_rto(1000, 60000), 2000);
    assert_eq!(backoff_rto(40000, 60000), 60000);
    assert_eq!(backoff_rto(30000, 60000), 60000);
    assert_eq!(backoff_rto(u64::MAX, u64::MAX), u64::MAX);
}
