use sctp::association::{AckState, AssociationInternal, Reply, ACCEPT_CH_SIZE, CT_FORWARD_TSN};
use sctp::chunk::{ChunkForwardTsn, ChunkForwardTsnStream, ChunkPayloadData};
use sctp::queue::GapAckBlock;

#[test]
fn test_create_forward_tsn_forward_one_abandoned() {
    let mut a = AssociationInternal::default();

    a.cumulative_tsn_ack_point = 9;
    a.advanced_peer_tsn_ack_point = 10;
    a.inflight_queue.push_no_check(ChunkPayloadData {
        beginning_fragment: true,
        ending_fragment: true,
        tsn: 10,
        stream_identifier: 1,
        stream_sequence_number: 2,
        user_data: b"ABC".to_vec(),
        nsent: 1,
        abandoned: true,
        ..Default::default()
    });

    let fwdtsn = a.create_forward_tsn();

    assert_eq!(10, fwdtsn.new_cumulative_tsn, "should be able to serialize");
    assert_eq!(1, fwdtsn.streams.len(), "there should be one stream");
    assert_eq!(1, fwdtsn.streams[0].identifier, "si should be 1");
    assert_eq!(2, fwdtsn.streams[0].sequence, "ssn should be 2");
}

#[test]
fn test_create_forward_tsn_forward_two_abandoned_with_the_same_si() {
    let mut a = AssociationInternal::default();

    a.cumulative_tsn_ack_point = 9;
    a.advanced_peer_tsn_ack_point = 12;
    a.inflight_queue.push_no_check(ChunkPayloadData {
        beginning_fragment: true,
        ending_fragment: true,
        tsn: 10,
        stream_identifier: 1,
        stream_sequence_number: 2,
        user_data: b"ABC".to_vec(),
        nsent: 1,
        abandoned: true,
        ..Default::default()
    });
    a.inflight_queue.push_no_check(ChunkPayloadData {
        beginning_fragment: true,
        ending_fragment: true,
        tsn: 11,
        stream_identifier: 1,
        stream_sequence_number: 3,
        user_data: b"DEF".to_vec(),
        nsent: 1,
        abandoned: true,
        ..Default::default()
    });
    a.inflight_queue.push_no_check(ChunkPayloadData {
        beginning_fragment: true,
        ending_fragment: true,
        tsn: 12,
        stream_identifier: 2,
        stream_sequence_number: 1,
        user_data: b"123".to_vec(),
        nsent: 1,
        abandoned: true,
        ..Default::default()
    });

    let fwdtsn = a.create_forward_tsn();

    assert_eq!(12, fwdtsn.new_cumulative_tsn, "should be able to serialize");
    assert_eq!(2, fwdtsn.streams.len(), "there should be two stream");

    let mut si1ok = false;
    let mut si2ok = false;
    for s in &fwdtsn.streams {
        match s.identifier {
            1 => {
                assert_eq!(3, s.sequence, "ssn should be 3");
                si1ok = true;
            }
            2 => {
                assert_eq!(1, s.sequence, "ssn should be 1");
                si2ok = true;
            }
            _ => assert!(false, "unexpected stream indentifier"),
        }
    }
    assert!(si1ok, "si=1 should be present");
    assert!(si2ok, "si=2 should be present");
}

#[test]
fn test_handle_forward_tsn_forward_3unreceived_chunks() {
    let mut a = AssociationInternal::default();

    a.use_forward_tsn = true;
    let prev_tsn = a.peer_last_tsn;

    let fwdtsn = ChunkForwardTsn {
        new_cumulative_tsn: a.peer_last_tsn + 3,
        streams: vec![ChunkForwardTsnStream {
            identifier: 0,
            sequence: 0,
        }],
    };

    let p = a.handle_forward_tsn(&fwdtsn);

    let delayed_ack_triggered = a.delayed_ack_triggered;
    let immediate_ack_triggered = a.immediate_ack_triggered;
    assert_eq!(
        a.peer_last_tsn,
        prev_tsn + 3,
        "peerLastTSN should advance by 3 "
    );
    assert!(delayed_ack_triggered, "delayed sack should be triggered");
    assert!(
        !immediate_ack_triggered,
        "immediate sack should NOT be triggered"
    );
    assert!(p.is_empty(), "should return empty");
}

#[test]
fn test_handle_forward_tsn_forward_1for1_missing() {
    let mut a = AssociationInternal::default();

    a.use_forward_tsn = true;
    let prev_tsn = a.peer_last_tsn;

    // this chunk is blocked by the missing chunk at tsn=1
    let plt = a.peer_last_tsn;
    a.payload_queue.push(
        ChunkPayloadData {
            beginning_fragment: true,
            ending_fragment: true,
            tsn: plt + 2,
            stream_identifier: 0,
            stream_sequence_number: 1,
            user_data: b"ABC".to_vec(),
            ..Default::default()
        },
        plt,
    );

    let fwdtsn = ChunkForwardTsn {
        new_cumulative_tsn: a.peer_last_tsn + 1,
        streams: vec![ChunkForwardTsnStream {
            identifier: 0,
            sequence: 1,
        }],
    };

    let p = a.handle_forward_tsn(&fwdtsn);

    let delayed_ack_triggered = a.delayed_ack_triggered;
    let immediate_ack_triggered = a.immediate_ack_triggered;
    assert_eq!(
        a.peer_last_tsn,
        prev_tsn + 2,
        "peerLastTSN should advance by 2"
    );
    assert!(delayed_ack_triggered, "delayed sack should be triggered");
    assert!(
        !immediate_ack_triggered,
        "immediate sack should NOT be triggered"
    );
    assert!(p.is_empty(), "should return empty");
}

#[test]
fn test_handle_forward_tsn_forward_1for2_missing() {
    let mut a = AssociationInternal::default();

    a.use_forward_tsn = true;
    let prev_tsn = a.peer_last_tsn;

    // this chunk is blocked by the missing chunk at tsn=1
    let plt = a.peer_last_tsn;
    a.payload_queue.push(
        ChunkPayloadData {
            beginning_fragment: true,
            ending_fragment: true,
            tsn: plt + 3,
            stream_identifier: 0,
            stream_sequence_number: 1,
            user_data: b"ABC".to_vec(),
            ..Default::default()
        },
        plt,
    );

    let fwdtsn = ChunkForwardTsn {
        new_cumulative_tsn: a.peer_last_tsn + 1,
        streams: vec![ChunkForwardTsnStream {
            identifier: 0,
            sequence: 1,
        }],
    };

    let p = a.handle_forward_tsn(&fwdtsn);

    let immediate_ack_triggered = a.immediate_ack_triggered;
    assert_eq!(
        a.peer_last_tsn,
        prev_tsn + 1,
        "peerLastTSN should advance by 1"
    );
    assert!(
        immediate_ack_triggered,
        "immediate sack should be triggered"
    );
    assert!(p.is_empty(), "should return empty");
}

#[test]
fn test_handle_forward_tsn_dup_forward_tsn_chunk_should_generate_sack() {
    let mut a = AssociationInternal::default();

    a.use_forward_tsn = true;
    let prev_tsn = a.peer_last_tsn;

    let fwdtsn = ChunkForwardTsn {
        new_cumulative_tsn: a.peer_last_tsn,
        streams: vec![ChunkForwardTsnStream {
            identifier: 0,
            sequence: 1,
        }],
    };

    let p = a.handle_forward_tsn(&fwdtsn);

    let ack_state = a.ack_state;
    assert_eq!(a.peer_last_tsn, prev_tsn, "peerLastTSN should not advance");
    assert_eq!(AckState::Immediate, ack_state, "sack should be requested");
    assert!(p.is_empty(), "should return empty");
}

#[test]
fn test_assoc_create_new_stream() {
    let mut a = AssociationInternal::new(ACCEPT_CH_SIZE);

    for i in 0..ACCEPT_CH_SIZE {
        let s = a.create_stream(i as u16, true);
        if let Some(s) = s {
            let result = a.get_stream(s.stream_identifier);
            assert!(result.is_some(), "should be in a.streams map");
        } else {
            assert!(false, "{} should success", i);
        }
    }

    let new_si = ACCEPT_CH_SIZE as u16;
    let s = a.create_stream(new_si, true);
    assert!(s.is_none(), "should be none");
    let result = a.get_stream(new_si);
    assert!(result.is_none(), "should NOT be in a.streams map");

    let to_be_ignored = ChunkPayloadData {
        beginning_fragment: true,
        ending_fragment: true,
        tsn: a.peer_last_tsn + 1,
        stream_identifier: new_si,
        user_data: b"ABC".to_vec(),
        ..Default::default()
    };

    let p = a.handle_data(&to_be_ignored);
    assert!(p.is_empty(), "should return empty");
    assert!(a.get_stream(new_si).is_none());
    assert_eq!(a.peer_last_tsn, 0);
    assert!(a.payload_queue.is_empty());
}

#[test]
fn forward_tsn_ignored_when_not_negotiated() {
    let mut a = AssociationInternal::default();
    let fwdtsn = ChunkForwardTsn {
        new_cumulative_tsn: 5,
        streams: vec![],
    };
    let p = a.handle_forward_tsn(&fwdtsn);
    assert_eq!(
        p,
        vec![Reply::UnrecognizedChunkType {
            chunk_type: CT_FORWARD_TSN
        }]
    );
    assert_eq!(a.peer_last_tsn, 0);
    assert_eq!(a.ack_state, AckState::Idle);
}

#[test]
fn forward_tsn_stops_at_gap_in_inflight() {
    let mut a = AssociationInternal::default();
    a.cumulative_tsn_ack_point = 9;
    a.advanced_peer_tsn_ack_point = 13;
    for (tsn, si, ssn) in [(10u32, 1u16, 5u16), (11, 2, 7), (13, 3, 1)] {
        a.inflight_queue.push_no_check(ChunkPayloadData {
            tsn,
            stream_identifier: si,
            stream_sequence_number: ssn,
            abandoned: true,
            ..Default::default()
        });
    }
    let f = a.create_forward_tsn();
    assert_eq!(f.new_cumulative_tsn, 13);
    assert_eq!(
        f.streams,
        vec![
            ChunkForwardTsnStream {
                identifier: 1,
                sequence: 5
            },
            ChunkForwardTsnStream {
                identifier: 2,
                sequence: 7
            },
        ]
    );
}

#[test]
fn forward_tsn_keeps_serially_greater_ssn() {
    let mut a = AssociationInternal::default();
    a.cumulative_tsn_ack_point = u32::MAX;
    a.advanced_peer_tsn_ack_point = 1;
    a.inflight_queue.push_no_check(ChunkPayloadData {
        tsn: 0,
        stream_identifier: 4,
        stream_sequence_number: 65535,
        ..Default::default()
    });
    a.inflight_queue.push_no_check(ChunkPayloadData {
        tsn: 1,
        stream_identifier: 4,
        stream_sequence_number: 0,
        ..Default::default()
    });
    let f = a.create_forward_tsn();
    assert_eq!(f.new_cumulative_tsn, 1);
    assert_eq!(
        f.streams,
        vec![ChunkForwardTsnStream {
            identifier: 4,
            sequence: 0
        }]
    );
}

#[test]
fn forward_tsn_empty_when_nothing_advanced() {
    let mut a = AssociationInternal::default();
    a.cumulative_tsn_ack_point = 9;
    a.advanced_peer_tsn_ack_point = 9;
    let f = a.create_forward_tsn();
    assert_eq!(f.new_cumulative_tsn, 9);
    assert!(f.streams.is_empty());
}

fn data(tsn: u32, si: u16) -> ChunkPayloadData {
    ChunkPayloadData {
        beginning_fragment: true,
        ending_fragment: true,
        tsn,
        stream_identifier: si,
        user_data: b"ABC".to_vec(),
        ..Default::default()
    }
}

#[test]
fn data_in_order_advances_and_delays_sack() {
    let mut a = AssociationInternal::new(4);
    let p = a.handle_data(&data(1, 7));
    assert!(p.is_empty());
    assert_eq!(a.peer_last_tsn, 1);
    assert!(a.delayed_ack_triggered);
    assert!(!a.immediate_ack_triggered);
    assert!(a.get_stream(7).is_some());
    assert_eq!(a.accept_stream().map(|s| s.stream_identifier), Some(7));
    assert!(a.accept_stream().is_none());
}

#[test]
fn data_with_gap_then_fill() {
    let mut a = AssociationInternal::new(4);
    a.handle_data(&data(2, 0));
    assert_eq!(a.peer_last_tsn, 0);
    assert!(a.immediate_ack_triggered);
    assert_eq!(a.payload_queue.len(), 1);
    a.handle_data(&data(3, 0));
    a.handle_data(&data(1, 0));
    assert_eq!(a.peer_last_tsn, 3);
    assert!(a.payload_queue.is_empty());
}

#[test]
fn duplicate_data_requests_immediate_sack() {
    let mut a = AssociationInternal::new(4);
    a.handle_data(&data(1, 0));
    assert_eq!(a.ack_state, AckState::Delayed);
    assert!(a.duplicate_tsns.is_empty());
    a.handle_data(&data(1, 0));
    assert_eq!(a.ack_state, AckState::Immediate);
    assert_eq!(a.peer_last_tsn, 1);
    assert_eq!(a.duplicate_tsns, vec![1]);
}

#[test]
fn peer_last_tsn_wraps() {
    let mut a = AssociationInternal::new(4);
    a.peer_last_tsn = u32::MAX;
    a.handle_data(&data(0, 0));
    assert_eq!(a.peer_last_tsn, 0);
}

#[test]
fn create_stream_without_accept_ignores_queue() {
    let mut a = AssociationInternal::default();
    assert!(a.create_stream(3, true).is_none());
    let s = a.create_stream(3, false);
    assert_eq!(s.map(|h| h.stream_identifier), Some(3));
    assert!(a.get_stream(3).is_some());
    assert!(a.accept_stream().is_none());
    let again = a.create_stream(3, true);
    assert_eq!(again.map(|h| h.stream_identifier), Some(3));
}

fn inflight(tsn: u32) -> ChunkPayloadData {
    ChunkPayloadData {
        tsn,
        stream_identifier: 1,
        user_data: b"XYZ".to_vec(),
        nsent: 1,
        ..Default::default()
    }
}

#[test]
fn sack_advances_and_marks_gap_blocks() {
    let mut a = AssociationInternal::default();
    a.cumulative_tsn_ack_point = 9;
    a.advanced_peer_tsn_ack_point = 9;
    for t in 10..15 {
        a.inflight_queue.push_no_check(inflight(t));
    }
    assert_eq!(a.retransmit_candidates(), vec![10, 11, 12, 13, 14]);
    let blocks = vec![GapAckBlock { start: 2, end: 2 }];
    assert!(a.handle_sack(11, &blocks));
    assert_eq!(a.cumulative_tsn_ack_point, 11);
    assert_eq!(a.advanced_peer_tsn_ack_point, 11);
    assert_eq!(a.inflight_queue.len(), 3);
    assert!(a.inflight_queue.get(11).is_none());
    assert!(a.inflight_queue.get(13).unwrap().acked);
    assert_eq!(a.retransmit_candidates(), vec![12, 14]);
}

#[test]
fn stale_sack_is_ignored() {
    let mut a = AssociationInternal::default();
    a.cumulative_tsn_ack_point = 20;
    a.advanced_peer_tsn_ack_point = 25;
    a.inflight_queue.push_no_check(inflight(21));
    assert!(!a.handle_sack(19, &vec![GapAckBlock { start: 2, end: 2 }]));
    assert_eq!(a.cumulative_tsn_ack_point, 20);
    assert!(!a.inflight_queue.get(21).unwrap().acked);
    assert!(a.handle_sack(20, &vec![]));
    assert_eq!(a.advanced_peer_tsn_ack_point, 25);
    assert_eq!(a.inflight_queue.len(), 1);
}

#[test]
fn abandoned_fragments_are_not_retransmitted() {
    let mut a = AssociationInternal::default();
    a.cumulative_tsn_ack_point = 0;
    let mut c = inflight(1);
    c.abandoned = true;
    a.inflight_queue.push_no_check(c);
    a.inflight_queue.push_no_check(inflight(2));
    assert_eq!(a.retransmit_candidates(), vec![2]);
}

#[test]
fn forward_tsn_skips_ssns_on_named_streams() {
    let mut a = AssociationInternal::new(4);
    a.use_forward_tsn = true;
    assert!(a.create_stream(0, false).is_some());
    assert!(a.create_stream(1, false).is_some());
    let fwdtsn = ChunkForwardTsn {
        new_cumulative_tsn: 3,
        streams: vec![
            ChunkForwardTsnStream {
                identifier: 0,
                sequence: 4,
            },
            ChunkForwardTsnStream {
                identifier: 9,
                sequence: 2,
            },
        ],
    };
    let p = a.handle_forward_tsn(&fwdtsn);
    assert!(p.is_empty());
    assert_eq!(a.peer_last_tsn, 3);
    assert_eq!(a.get_stream(0).unwrap().reassembly.next_ssn, 5);
    assert_eq!(a.get_stream(1).unwrap().reassembly.next_ssn, 0);
    assert!(a.get_stream(9).is_none());
}

#[test]
fn third_miss_triggers_fast_retransmit() {
    let mut a = AssociationInternal::default();
    a.cumulative_tsn_ack_point = 9;
    a.advanced_peer_tsn_ack_point = 9;
    for t in 10..15 {
        a.inflight_queue.push_no_check(inflight(t));
    }
    let blocks = vec![GapAckBlock { start: 2, end: 3 }];
    assert!(a.handle_sack(10, &blocks));
    assert!(a.note_fast_retransmits(&blocks).is_empty());
    assert!(a.note_fast_retransmits(&blocks).is_empty());
    assert_eq!(a.note_fast_retransmits(&blocks), vec![11]);
    assert_eq!(a.inflight_queue.get(11).unwrap().miss_indicator, 3);
    assert_eq!(a.inflight_queue.get(12).unwrap().miss_indicator, 0);
    assert_eq!(a.inflight_queue.get(14).unwrap().miss_indicator, 0);
    assert!(a.note_fast_retransmits(&blocks).is_empty());
    assert!(a.note_fast_retransmits(&vec![]).is_empty());
    assert_eq!(a.inflight_queue.get(11).unwrap().miss_indicator, 4);
}

#[test]
fn second_data_chunk_forces_immediate_sack() {
    let mut a = AssociationInternal::new(4);
    a.handle_data(&data(1, 0));
    assert_eq!(a.ack_state, AckState::Delayed);
    assert!(a.delayed_ack_triggered);
    assert!(!a.immediate_ack_triggered);
    a.handle_data(&data(2, 0));
    assert_eq!(a.ack_state, AckState::Immediate);
    assert!(a.immediate_ack_triggered);
    assert_eq!(a.peer_last_tsn, 2);
}

#[test]
fn queued_chunk_keeps_its_data() {
    let mut a = AssociationInternal::new(4);
    a.handle_data(&data(3, 0));
    let c = a.payload_queue.get(3).unwrap();
    assert_eq!(c.user_data, b"ABC".to_vec());
    assert!(c.beginning_fragment && c.ending_fragment);
}

#[test]
fn advanced_point_moves_over_abandoned_fragments() {
    let mut a = AssociationInternal::default();
    a.cumulative_tsn_ack_point = 9;
    a.advanced_peer_tsn_ack_point = 9;
    for t in 10..13 {
        let mut c = inflight(t);
        c.abandoned = t < 12;
        a.inflight_queue.push_no_check(c);
    }
    a.advance_over_abandoned();
    assert_eq!(a.advanced_peer_tsn_ack_point, 11);
    let f = a.create_forward_tsn();
    assert_eq!(f.new_cumulative_tsn, 11);
    a.advance_over_abandoned();
    assert_eq!(a.advanced_peer_tsn_ack_point, 11);
}

#[test]
fn sack_marks_only_reported_fragments() {
    let mut a = AssociationInternal::default();
    a.cumulative_tsn_ack_point = 0;
    for t in 1..6 {
        a.inflight_queue.push_no_check(inflight(t));
    }
    assert!(a.handle_sack(1, &vec![GapAckBlock { start: 3, end: 3 }]));
    assert!(!a.inflight_queue.get(2).unwrap().acked);
    assert!(!a.inflight_queue.get(3).unwrap().acked);
    assert!(a.inflight_queue.get(4).unwrap().acked);
    assert!(!a.inflight_queue.get(5).unwrap().acked);
    assert_eq!(a.inflight_queue.get(4).unwrap().user_data, b"XYZ".to_vec());
}
