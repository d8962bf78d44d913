use sctp::association::{next_ack_state, AckEvent, AckState};
use sctp::congestion::{schedule_fresh, CongestionControl, RtoManager};

#[test]
fn schedule_stops_at_smaller_window() {
    let pending = vec![500, 500, 500, 500];
    assert_eq!(schedule_fresh(&pending, 0, 1200, 4000), 2);
    assert_eq!(schedule_fresh(&pending, 0, 4000, 1200), 2);
    assert_eq!(schedule_fresh(&pending, 200, 1200, 4000), 2);
    assert_eq!(schedule_fresh(&pending, 300, 1200, 4000), 1);
    assert_eq!(schedule_fresh(&pending, 0, 10_000, 10_000), 4);
}

#[test]
fn schedule_zero_window_probe() {
    let pending = vec![500, 500];
    assert_eq!(schedule_fresh(&pending, 0, 1200, 0), 1);
    assert_eq!(schedule_fresh(&pending, 100, 1200, 0), 0);
    assert_eq!(schedule_fresh(&vec![], 0, 1200, 0), 0);
}

#[test]
fn schedule_nothing_when_over_window() {
    assert_eq!(schedule_fresh(&vec![1], 5000, 1200, 4000), 0);
}

#[test]
fn slow_start_and_avoidance() {
    let mut cc = CongestionControl {
        cwnd: 2400,
        ssthresh: 4800,
        partial_bytes_acked: 0,
        mtu: 1200,
    };
    cc.on_sack(3000, true);
    assert_eq!(cc.cwnd, 3600);
    cc.on_sack(500, true);
    assert_eq!(cc.cwnd, 4100);
    cc.on_sack(1000, true);
    assert_eq!(cc.cwnd, 5100);
    cc.on_sack(3000, true);
    assert_eq!(cc.partial_bytes_acked, 3000);
    assert_eq!(cc.cwnd, 5100);
    cc.on_sack(3000, false);
    assert_eq!(cc.partial_bytes_acked, 6000);
    assert_eq!(cc.cwnd, 5100);
    cc.on_sack(100, true);
    assert_eq!(cc.partial_bytes_acked, 1000);
    assert_eq!(cc.cwnd, 6300);
}

#[test]
fn loss_reactions() {
    let mut cc = CongestionControl {
        cwnd: 20000,
        ssthresh: 30000,
        partial_bytes_acked: 0,
        mtu: 1200,
    };
    cc.on_fast_retransmit();
    assert_eq!(cc.ssthresh, 10000);
    assert_eq!(cc.cwnd, 10000);
    cc.on_retransmission_timeout();
    assert_eq!(cc.ssthresh, 5000);
    assert_eq!(cc.cwnd, 1200);
    cc.on_retransmission_timeout();
    assert_eq!(cc.ssthresh, 4800);
}

#[test]
fn rtt_estimator() {
    let mut rto = RtoManager::new(3000, 1000, 60000);
    assert_eq!(rto.rto, 3000);
    assert_eq!(rto.set_new_rtt(400), 1200);
    assert_eq!(rto.srtt, 400);
    assert_eq!(rto.rttvar, 200);
    assert_eq!(rto.set_new_rtt(800), 1450);
    assert_eq!(rto.rttvar, 250);
    assert_eq!(rto.srtt, 450);
    let mut slow = RtoManager::new(3000, 1000, 60000);
    assert_eq!(slow.set_new_rtt(20000), 60000);
}

#[test]
fn ack_state_machine() {
    assert_eq!(next_ack_state(AckState::Idle, AckEvent::DataInOrder), AckState::Delayed);
    assert_eq!(next_ack_state(AckState::Immediate, AckEvent::DataInOrder), AckState::Immediate);
    assert_eq!(next_ack_state(AckState::Delayed, AckEvent::GapOrDuplicate), AckState::Immediate);
    assert_eq!(next_ack_state(AckState::Delayed, AckEvent::SecondData), AckState::Immediate);
    assert_eq!(next_ack_state(AckState::Immediate, AckEvent::SackSent), AckState::Idle);
}
