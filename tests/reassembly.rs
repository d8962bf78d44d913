use sctp::chunk::ChunkPayloadData;
use sctp::reassembly::{assemble, Message, ReassemblyQueue};

fn frag(tsn: u32, b: bool, e: bool, data: &[u8]) -> ChunkPayloadData {
    ChunkPayloadData {
        beginning_fragment: b,
        ending_fragment: e,
        tsn,
        stream_identifier: 3,
        stream_sequence_number: 7,
        user_data: data.to_vec(),
        ..Default::default()
    }
}

#[test]
fn assemble_joins_fragments() {
    let frags = vec![
        frag(5, true, false, b"AB"),
        frag(6, false, false, b"C"),
        frag(7, false, true, b"DE"),
    ];
    assert_eq!(assemble(&frags), Some(b"ABCDE".to_vec()));
    assert_eq!(assemble(&vec![frag(9, true, true, b"X")]), Some(b"X".to_vec()));
}

#[test]
fn assemble_rejects_broken_runs() {
    assert_eq!(assemble(&vec![]), None);
    assert_eq!(
        assemble(&vec![frag(5, true, false, b"A"), frag(7, false, true, b"B")]),
        None
    );
    assert_eq!(
        assemble(&vec![frag(5, true, false, b"A"), frag(6, true, true, b"B")]),
        None
    );
    assert_eq!(
        assemble(&vec![frag(5, true, true, b"A"), frag(6, false, true, b"B")]),
        None
    );
    assert_eq!(assemble(&vec![frag(5, false, true, b"A")]), None);
    let mut other = frag(6, false, true, b"B");
    other.stream_sequence_number = 8;
    assert_eq!(assemble(&vec![frag(5, true, false, b"A"), other]), None);
    assert_eq!(
        assemble(&vec![frag(u32::MAX, true, false, b"A"), frag(0, false, true, b"B")]),
        Some(b"AB".to_vec())
    );
}

fn msg(ssn: u16, data: &[u8]) -> Message {
    Message {
        ssn,
        payload_type: 51,
        data: data.to_vec(),
    }
}

#[test]
fn ordered_reads_follow_ssn() {
    let mut q = ReassemblyQueue::new(3);
    assert!(q.push(msg(1, b"second")));
    assert!(q.read().is_none());
    assert!(q.push(msg(0, b"first")));
    assert!(!q.push(msg(0, b"again")));
    let m = q.read().unwrap();
    assert_eq!((m.ssn, m.data), (0, b"first".to_vec()));
    let m = q.read().unwrap();
    assert_eq!((m.ssn, m.data), (1, b"second".to_vec()));
    assert!(q.read().is_none());
    assert_eq!(q.next_ssn, 2);
    assert!(!q.push(msg(1, b"late")));
}

#[test]
fn forward_ssn_skips_messages() {
    let mut q = ReassemblyQueue::new(0);
    assert!(q.push(msg(3, b"after gap")));
    q.forward_ssn(2);
    assert_eq!(q.next_ssn, 3);
    assert_eq!(q.read().unwrap().data, b"after gap".to_vec());
    q.forward_ssn(1);
    assert_eq!(q.next_ssn, 4);
    q.next_ssn = u16::MAX;
    q.forward_ssn(u16::MAX);
    assert_eq!(q.next_ssn, 0);
}

#[test]
fn forward_ssn_drops_skipped_messages() {
    let mut q = ReassemblyQueue::new(0);
    assert!(q.push(msg(1, b"one")));
    assert!(q.push(msg(4, b"four")));
    q.forward_ssn(2);
    assert_eq!(q.next_ssn, 3);
    assert_eq!(q.pending.len(), 1);
    assert!(q.read().is_none());
    q.forward_ssn(3);
    let m = q.read().unwrap();
    assert_eq!((m.ssn, m.payload_type, m.data), (4, 51, b"four".to_vec()));
    assert!(q.pending.is_empty());
}
