//! The association's per-peer state and the handlers that drive it.
use vstd::prelude::*;
use crate::chunk::{ChunkForwardTsn, ChunkForwardTsnStream, ChunkPayloadData};
use crate::forward_tsn::{
    coalesce, distinct_sis, forward_tsn_streams, fwd_streams, has_si, lemma_run_len_stops,
    run_len, run_pairs, run_present, si_pos, walk_span,
};
use crate::queue::{
    gap_acked, lemma_newly_due_unacked, seq_at_tsn, tsn_index, unique_tsns, lemma_unacked_member, newly_due, reported_missing,
    seq_has_tsn, unacked, with_acked, with_miss, GapAckBlock, PayloadQueue,
};
use crate::reassembly::{ssn_plus_one, ReassemblyQueue};
use crate::serial::{
    lemma_not_lte_after, lemma_tsn_dist_plus, lemma_tsn_dist_shift, lemma_tsn_plus_dist,
    lemma_tsn_plus_plus, sna16_lt, sna32_lt, sna32_lte, ssn_dist, tsn_dist, tsn_distance, tsn_lt,
    tsn_lte, tsn_next, tsn_plus,
};

verus! {

/// Room in the queue of streams the peer opened and the user has not
/// accepted yet.
pub const ACCEPT_CH_SIZE: usize = 16;

/// When the next SACK goes out.
#[derive(Clone, Copy, Debug, PartialEq, Eq, Structural)]
pub enum AckState {
    /// Nothing to acknowledge.
    Idle,
    /// Acknowledge when the delayed-ack timer fires.
    Delayed,
    /// Acknowledge with the next packet.
    Immediate,
    /// Acknowledge at once, for fast retransmission at the peer.
    Fast,
}

/// What moves the acknowledgement state.
#[derive(Clone, Copy, Debug, PartialEq, Eq, Structural)]
pub enum AckEvent {
    /// A DATA chunk arrived in order.
    DataInOrder,
    /// A DATA chunk left a gap or was a duplicate.
    GapOrDuplicate,
    /// The second DATA chunk since the last SACK arrived.
    SecondData,
    /// A SACK went out.
    SackSent,
}

/// In-order data delays a SACK from the idle state and leaves a pending
/// immediate SACK as it is; gaps, duplicates and every second DATA chunk
/// ask for one now; sending a SACK settles everything.
pub open spec fn ack_transition(s: AckState, e: AckEvent) -> AckState {
    match e {
        AckEvent::DataInOrder => if s == AckState::Idle {
            AckState::Delayed
        } else {
            s
        },
        AckEvent::GapOrDuplicate => AckState::Immediate,
        AckEvent::SecondData => AckState::Immediate,
        AckEvent::SackSent => AckState::Idle,
    }
}

pub fn next_ack_state(s: AckState, e: AckEvent) -> (r: AckState)
    ensures
        r == ack_transition(s, e),
{
    match e {
        AckEvent::DataInOrder => if s == AckState::Idle {
            AckState::Delayed
        } else {
            s
        },
        AckEvent::GapOrDuplicate => AckState::Immediate,
        AckEvent::SecondData => AckState::Immediate,
        AckEvent::SackSent => AckState::Idle,
    }
}

/// A stream in the association's table.
pub struct Stream {
    pub stream_identifier: u16,
    /// Ordered messages received on the stream, read in SSN order.
    pub reassembly: ReassemblyQueue,
}

/// `b` is `a` with one more stream, `si`, that has received nothing yet.
pub open spec fn stream_added(a: Seq<Stream>, b: Seq<Stream>, si: u16) -> bool {
    &&& b.len() == a.len() + 1
    &&& forall|i: int| 0 <= i < a.len() ==> b[i] == a[i]
    &&& b.last().stream_identifier == si
    &&& b.last().reassembly.next_ssn == 0
    &&& b.last().reassembly.pending@.len() == 0
}

/// The next SSN to read on stream `si` after the FORWARD-TSN pairs `pairs`,
/// in order, skipped messages on it.
pub open spec fn next_after_forwards(next: u16, si: u16, pairs: Seq<ChunkForwardTsnStream>) -> u16
    decreases pairs.len(),
{
    if pairs.len() == 0 {
        next
    } else {
        let n = next_after_forwards(next, si, pairs.drop_last());
        if pairs.last().identifier == si {
            skip_ssn(n, pairs.last().sequence)
        } else {
            n
        }
    }
}

/// Where reading resumes after messages through `ssn` were skipped.
pub open spec fn skip_ssn(next: u16, ssn: u16) -> u16 {
    if ssn_dist(next, ssn) < 0x8000 {
        ssn_plus_one(ssn)
    } else {
        next
    }
}

/// `b` is the table `a` after the FORWARD-TSN pairs `pairs` moved each named
/// stream's next SSN past the skipped messages.
pub open spec fn streams_forwarded(
    a: Seq<Stream>,
    b: Seq<Stream>,
    pairs: Seq<ChunkForwardTsnStream>,
) -> bool {
    &&& b.len() == a.len()
    &&& forall|i: int|
        0 <= i < a.len() ==> (#[trigger] b[i]).stream_identifier == a[i].stream_identifier
            && b[i].reassembly.stream_identifier == a[i].reassembly.stream_identifier
            && b[i].reassembly.wf() && b[i].reassembly.next_ssn == next_after_forwards(
            a[i].reassembly.next_ssn,
            a[i].stream_identifier,
            pairs,
        ) && forall|k: int|
            0 <= k < b[i].reassembly.pending@.len() ==> a[i].reassembly.pending@.contains(
                #[trigger] b[i].reassembly.pending@[k],
            )
}

/// What a user holds for a stream: its identifier, resolved through the
/// association.
#[derive(Clone, Copy, Debug, PartialEq, Eq, Structural)]
pub struct StreamHandle {
    pub stream_identifier: u16,
}

/// Every queued TSN lies in the half space after `p`.
pub open spec fn queued_after(q: Seq<ChunkPayloadData>, p: u32) -> bool {
    forall|u: u32| #[trigger] seq_has_tsn(q, u) ==> 1 <= tsn_dist(p, u) <= 0x8000_0000
}

/// `q1` and `t1` are `q0` and `t0` after `peer_last_tsn` moved on from `t0`
/// over at least `floor` TSNs, then over each queued TSN that follows, each
/// TSN passed leaving the queue.
pub open spec fn advanced_over(
    q0: Seq<ChunkPayloadData>,
    t0: u32,
    floor: int,
    q1: Seq<ChunkPayloadData>,
    t1: u32,
) -> bool {
    let k = tsn_dist(t0, t1);
    &&& floor <= k <= 0x8000_0000
    &&& forall|j: int| floor < j <= k ==> #[trigger] seq_has_tsn(q0, tsn_plus(t0, j))
    &&& !seq_has_tsn(q0, tsn_plus(t1, 1))
    &&& forall|u: u32| #[trigger]
        seq_has_tsn(q1, u) == (seq_has_tsn(q0, u) && !(1 <= tsn_dist(t0, u) <= k))
    &&& forall|i: int| 0 <= i < q1.len() ==> q0.contains(#[trigger] q1[i])
}

/// The acknowledgement flags after TSNs were passed: a SACK is delayed only
/// from the idle state, when nothing is missing and nobody asked for one now.
pub open spec fn ack_after(
    a: &AssociationInternal,
    o: &AssociationInternal,
    sack_immediately: bool,
) -> bool {
    &&& a.ack_state == o.ack_state
    &&& ack_flags_after(a, o, sack_immediately)
}

/// The acknowledgement flags after TSNs were passed.
pub open spec fn ack_flags_after(
    a: &AssociationInternal,
    o: &AssociationInternal,
    sack_immediately: bool,
) -> bool {
    if o.ack_state == AckState::Idle && !sack_immediately && a.payload_queue@.len() == 0 {
        a.delayed_ack_triggered && a.immediate_ack_triggered == o.immediate_ack_triggered
    } else {
        a.immediate_ack_triggered && a.delayed_ack_triggered == o.delayed_ack_triggered
    }
}

/// `c` carries the same fields and bytes as `d`.
pub open spec fn same_chunk(c: ChunkPayloadData, d: ChunkPayloadData) -> bool {
    &&& c.unordered == d.unordered && c.beginning_fragment == d.beginning_fragment
    &&& c.ending_fragment == d.ending_fragment && c.immediate_sack == d.immediate_sack
    &&& c.tsn == d.tsn && c.stream_identifier == d.stream_identifier
    &&& c.stream_sequence_number == d.stream_sequence_number && c.payload_type == d.payload_type
    &&& c.user_data@ == d.user_data@ && c.nsent == d.nsent && c.abandoned == d.abandoned
    &&& c.acked == d.acked && c.miss_indicator == d.miss_indicator
}

/// What a new DATA chunk does to the acknowledgement state: a gap still
/// open asks for a SACK now, and so does the second chunk since one was
/// delayed; otherwise the SACK is delayed.
pub open spec fn data_event(before: AckState, gap_left: bool) -> AckEvent {
    if gap_left {
        AckEvent::GapOrDuplicate
    } else if before == AckState::Delayed {
        AckEvent::SecondData
    } else {
        AckEvent::DataInOrder
    }
}

pub open spec fn has_stream(v: Seq<Stream>, si: u16) -> bool {
    exists|i: int| 0 <= i < v.len() && v[i].stream_identifier == si
}

/// No two streams share an identifier.
pub open spec fn distinct_streams(v: Seq<Stream>) -> bool {
    forall|i: int, j: int|
        0 <= i < v.len() && 0 <= j < v.len() && i != j ==> v[i].stream_identifier
            != v[j].stream_identifier
}

/// Whether `create_stream(si, true)` finds room for a stream that is not
/// in the table yet.
pub open spec fn can_accept(a: &AssociationInternal) -> bool {
    a.accept_queue@.len() < a.accept_capacity
}

/// The cumulative TSN a SACK reports never moves back: after an advance
/// of `peer_last_tsn`, the new value does not precede the old one.
pub proof fn lemma_cumulative_ack_never_recedes(
    q0: Seq<ChunkPayloadData>,
    t0: u32,
    floor: int,
    q1: Seq<ChunkPayloadData>,
    t1: u32,
)
    requires
        advanced_over(q0, t0, floor, q1, t1),
    ensures
        !tsn_lt(t1, t0),
{
}

/// A TSN that the last SACK acknowledged, cumulatively or in a gap-ack
/// block, is never among the TSNs offered for retransmission: the inflight
/// queue holds only TSNs after the cumulative point, and each fragment a
/// block reported is marked acknowledged.
pub proof fn lemma_no_spurious_retransmit(
    q: Seq<ChunkPayloadData>,
    cum: u32,
    blocks: Seq<GapAckBlock>,
    k: int,
)
    requires
        queued_after(q, cum),
        forall|i: int| 0 <= i < q.len() && gap_acked(blocks, cum, #[trigger] q[i].tsn) ==> q[i].acked,
        0 <= k < unacked(q).len(),
    ensures
        !tsn_lte(unacked(q)[k], cum),
        !gap_acked(blocks, cum, unacked(q)[k]),
{
    lemma_unacked_member(q, k);
    let i = choose|i: int|
        0 <= i < q.len() && #[trigger] q[i].tsn == unacked(q)[k] && !q[i].acked && !q[i].abandoned;
    assert(seq_has_tsn(q, q[i].tsn));
}

/// How far past the SACK's cumulative TSN its highest reported TSN lies:
/// the greatest end of its gap-ack blocks, or nothing without blocks.
pub open spec fn highest_reported(blocks: Seq<GapAckBlock>) -> int
    decreases blocks.len(),
{
    if blocks.len() == 0 {
        0
    } else {
        let h = highest_reported(blocks.drop_last());
        if blocks.last().end as int > h {
            blocks.last().end as int
        } else {
            h
        }
    }
}

/// `c` after a SACK with these gap-ack blocks: acknowledged where a block
/// reports it, as it was otherwise.
pub open spec fn after_blocks(blocks: Seq<GapAckBlock>, cum: u32, c: ChunkPayloadData) -> ChunkPayloadData {
    if gap_acked(blocks, cum, c.tsn) {
        with_acked(c)
    } else {
        c
    }
}

proof fn lemma_after_sack(
    kept: Seq<ChunkPayloadData>,
    f: Seq<ChunkPayloadData>,
    q: Seq<ChunkPayloadData>,
    blocks: Seq<GapAckBlock>,
    cum: u32,
)
    requires
        unique_tsns(q),
        f.len() == kept.len(),
        forall|i: int| 0 <= i < kept.len() ==> q.contains(#[trigger] kept[i]),
        forall|i: int| 0 <= i < kept.len() ==> #[trigger] f[i] == after_blocks(blocks, cum, kept[i]),
    ensures
        forall|i: int|
            0 <= i < f.len() ==> #[trigger] f[i] == after_blocks(blocks, cum, seq_at_tsn(q, f[i].tsn)),
{
    assert forall|i: int| 0 <= i < f.len() implies #[trigger] f[i] == after_blocks(
        blocks,
        cum,
        seq_at_tsn(q, f[i].tsn),
    ) by {
        assert(q.contains(kept[i]));
        let j = choose|j: int| 0 <= j < q.len() && q[j] == kept[i];
        assert(f[i].tsn == kept[i].tsn);
        assert(seq_has_tsn(q, kept[i].tsn));
        let k = tsn_index(q, kept[i].tsn);
        assert(q[k].tsn == kept[i].tsn);
        assert(k == j);
    }
}

/// The inflight fragment with TSN `t` exists and has been abandoned.
pub open spec fn abandoned_at(q: Seq<ChunkPayloadData>, t: u32) -> bool {
    seq_has_tsn(q, t) && seq_at_tsn(q, t).abandoned
}

/// What `pop` leaves behind: the elements it keeps were there before.
proof fn lemma_removed_keeps(s: Seq<ChunkPayloadData>, k: int, q0: Seq<ChunkPayloadData>)
    requires
        0 <= k < s.len(),
        forall|i: int| 0 <= i < s.len() ==> q0.contains(#[trigger] s[i]),
    ensures
        forall|i: int| 0 <= i < s.remove(k).len() ==> q0.contains(#[trigger] s.remove(k)[i]),
{
    assert forall|i: int| 0 <= i < s.remove(k).len() implies q0.contains(#[trigger] s.remove(k)[i]) by {
        if i < k {
            assert(s.remove(k)[i] == s[i]);
        } else {
            assert(s.remove(k)[i] == s[i + 1]);
        }
    }
}

/// Reply chunks the receive path asks to send.
#[derive(Clone, Copy, Debug, PartialEq, Eq, Structural)]
pub enum Reply {
    /// An ERROR chunk reporting a chunk type this endpoint does not handle.
    UnrecognizedChunkType { chunk_type: u8 },
}

/// Chunk type of FORWARD-TSN.
pub const CT_FORWARD_TSN: u8 = 192;

/// The state an association keeps for its peer. `wf` holds between calls:
/// TSNs in each queue are unique, the receiver's queued TSNs lie after
/// `peer_last_tsn` and the inflight ones after `cumulative_tsn_ack_point`,
/// which does not pass `advanced_peer_tsn_ack_point`, stream identifiers are
/// unique, and the accept queue keeps to its capacity.
pub struct AssociationInternal {
    pub peer_last_tsn: u32,
    pub cumulative_tsn_ack_point: u32,
    pub advanced_peer_tsn_ack_point: u32,
    pub inflight_queue: PayloadQueue,
    pub payload_queue: PayloadQueue,
    pub ack_state: AckState,
    pub delayed_ack_triggered: bool,
    pub immediate_ack_triggered: bool,
    pub use_forward_tsn: bool,
    pub streams: Vec<Stream>,
    /// Streams the peer opened, waiting for the user to accept them.
    pub accept_queue: Vec<u16>,
    pub accept_capacity: usize,
    /// Duplicate TSNs received since the last SACK, for its duplicate list.
    pub duplicate_tsns: Vec<u32>,
}

impl AssociationInternal {
    /// A closed association whose accept queue holds up to `accept_capacity`
    /// streams.
    pub fn new(accept_capacity: usize) -> (r: Self)
        ensures
            r.wf(),
            r.peer_last_tsn == 0 && r.cumulative_tsn_ack_point == 0
                && r.advanced_peer_tsn_ack_point == 0,
            r.inflight_queue@.len() == 0 && r.payload_queue@.len() == 0,
            r.ack_state == AckState::Idle,
            !r.delayed_ack_triggered && !r.immediate_ack_triggered && !r.use_forward_tsn,
            r.streams@.len() == 0 && r.accept_queue@.len() == 0,
            r.accept_capacity == accept_capacity,
            r.duplicate_tsns@.len() == 0,
    {
        AssociationInternal {
            peer_last_tsn: 0,
            cumulative_tsn_ack_point: 0,
            advanced_peer_tsn_ack_point: 0,
            inflight_queue: PayloadQueue::new(),
            payload_queue: PayloadQueue::new(),
            ack_state: AckState::Idle,
            delayed_ack_triggered: false,
            immediate_ack_triggered: false,
            use_forward_tsn: false,
            streams: Vec::new(),
            accept_queue: Vec::new(),
            accept_capacity,
            duplicate_tsns: Vec::new(),
        }
    }

    pub open spec fn wf(&self) -> bool {
        &&& self.inflight_queue.wf()
        &&& self.payload_queue.wf()
        &&& queued_after(self.payload_queue@, self.peer_last_tsn)
        &&& queued_after(self.inflight_queue@, self.cumulative_tsn_ack_point)
        &&& tsn_lte(self.cumulative_tsn_ack_point, self.advanced_peer_tsn_ack_point)
        &&& distinct_streams(self.streams@)
        &&& forall|i: int| 0 <= i < self.streams@.len() ==> (#[trigger] self.streams@[i]).reassembly.wf()
        &&& self.accept_queue@.len() <= self.accept_capacity
    }

    /// Everything but the receiver's TSN, queue and acknowledgement state is
    /// as in `o`.
    pub open spec fn same_but_receive(&self, o: &Self) -> bool {
        &&& self.same_sender_side(o)
        &&& self.streams@ == o.streams@
    }

    /// The sender's side and the accept queue are as in `o`.
    pub open spec fn same_sender_side(&self, o: &Self) -> bool {
        &&& self.cumulative_tsn_ack_point == o.cumulative_tsn_ack_point
        &&& self.advanced_peer_tsn_ack_point == o.advanced_peer_tsn_ack_point
        &&& self.inflight_queue@ == o.inflight_queue@
        &&& self.use_forward_tsn == o.use_forward_tsn
        &&& self.accept_queue@ == o.accept_queue@
        &&& self.accept_capacity == o.accept_capacity
        &&& self.duplicate_tsns@ == o.duplicate_tsns@
    }

    /// RFC 3758 C4: the FORWARD-TSN that moves the peer to
    /// `advanced_peer_tsn_ack_point`, listing for each stream met on the way
    /// the greatest SSN skipped.
    pub fn create_forward_tsn(&self) -> (r: ChunkForwardTsn)
        requires
            self.wf(),
        ensures
            r.new_cumulative_tsn == self.advanced_peer_tsn_ack_point,
            r.streams@ == forward_tsn_streams(
                self.inflight_queue@,
                self.cumulative_tsn_ack_point,
                self.advanced_peer_tsn_ack_point,
            ),
            distinct_sis(r.streams@),
    {
        let ghost q = self.inflight_queue@;
        let cum = self.cumulative_tsn_ack_point;
        let adv = self.advanced_peer_tsn_ack_point;
        let d = tsn_distance(cum, adv);
        let n: u32 = if 1 <= d && d <= 0x8000_0000 {
            d
        } else {
            0
        };
        let mut streams: Vec<ChunkForwardTsnStream> = Vec::new();
        let mut k: u32 = 0;
        let mut i = tsn_next(cum);
        let mut gap = false;
        while k < n && !gap
            invariant
                self.wf(),
                q == self.inflight_queue@,
                n == walk_span(cum, adv),
                k <= n,
                i == tsn_plus(cum, k + 1),
                run_present(q, cum, k as int),
                gap ==> k < n && !crate::queue::seq_has_tsn(q, tsn_plus(cum, k + 1)),
                streams@ == fwd_streams(run_pairs(q, cum, k as int)),
                distinct_sis(streams@),
            decreases n - k + (if gap { 0int } else { 1int }),
        {
            match self.inflight_queue.get(i) {
                Some(c) => {
                    let si = c.stream_identifier;
                    let ssn = c.stream_sequence_number;
                    let ghost before = streams@;
                    proof {
                        crate::forward_tsn::lemma_coalesce_distinct(before, si, ssn);
                    }
                    let mut j: usize = 0;
                    let mut found = false;
                    while j < streams.len() && !found
                        invariant
                            j <= streams@.len(),
                            streams@ == before,
                            forall|m: int| 0 <= m < j ==> streams@[m].identifier != si,
                            found ==> j < streams@.len() && streams@[j as int].identifier == si,
                        decreases streams@.len() - j + (if found { 0int } else { 1int }),
                    {
                        if streams[j].identifier == si {
                            found = true;
                        } else {
                            j = j + 1;
                        }
                    }
                    if found {
                        assert(has_si(before, si));
                        assert(si_pos(before, si) == j as int);
                        if sna16_lt(streams[j].sequence, ssn) {
                            streams.set(j, ChunkForwardTsnStream { identifier: si, sequence: ssn });
                        }
                    } else {
                        streams.push(ChunkForwardTsnStream { identifier: si, sequence: ssn });
                    }
                    assert(streams@ == coalesce(before, si, ssn));
                    let ghost pairs = run_pairs(q, cum, k as int + 1);
                    assert(pairs.drop_last() =~= run_pairs(q, cum, k as int));
                    assert(pairs.last() == (si, ssn));
                    k = k + 1;
                    i = tsn_next(i);
                    proof {
                        crate::serial::lemma_tsn_plus_plus(cum, k as int, 1);
                    }
                },
                None => {
                    gap = true;
                },
            }
        }
        proof {
            if gap {
                lemma_run_len_stops(q, cum, k as int, n as int);
            } else {
                if k > 0 {
                    assert(run_len(q, cum, k as int) == k);
                }
            }
        }
        ChunkForwardTsn { new_cumulative_tsn: adv, streams }
    }
    /// Moves `peer_last_tsn` over every queued TSN that follows it. On entry
    /// it stands `floor` TSNs after `t0`, and the TSNs passed since `t0` have
    /// left the queue `q0`.
    fn advance_over_queued(
        &mut self,
        Ghost(q0): Ghost<Seq<ChunkPayloadData>>,
        Ghost(t0): Ghost<u32>,
        Ghost(floor): Ghost<int>,
    )
        requires
            old(self).wf(),
            queued_after(q0, t0),
            0 <= floor < 0x8000_0000,
            floor == tsn_dist(t0, old(self).peer_last_tsn),
            forall|i: int|
                0 <= i < old(self).payload_queue@.len() ==> q0.contains(
                    #[trigger] old(self).payload_queue@[i],
                ),
            forall|u: u32| #[trigger]
                old(self).payload_queue.has(u) == (seq_has_tsn(q0, u) && !(1 <= tsn_dist(t0, u)
                    <= floor)),
        ensures
            final(self).wf(),
            advanced_over(q0, t0, floor, final(self).payload_queue@, final(self).peer_last_tsn),
            final(self).same_but_receive(old(self)),
            final(self).ack_state == old(self).ack_state,
            final(self).delayed_ack_triggered == old(self).delayed_ack_triggered,
            final(self).immediate_ack_triggered == old(self).immediate_ack_triggered,
    {
        let ghost mut k: int = floor;
        proof {
            lemma_tsn_plus_dist(t0, old(self).peer_last_tsn);
        }
        loop
            invariant
                self.wf(),
                self.same_but_receive(old(self)),
                self.ack_state == old(self).ack_state,
                self.delayed_ack_triggered == old(self).delayed_ack_triggered,
                self.immediate_ack_triggered == old(self).immediate_ack_triggered,
                queued_after(q0, t0),
                floor <= k <= 0x8000_0000,
                self.peer_last_tsn == tsn_plus(t0, k),
                tsn_dist(t0, self.peer_last_tsn) == k,
                forall|j: int| floor < j <= k ==> #[trigger] seq_has_tsn(q0, tsn_plus(t0, j)),
                forall|i: int|
                    0 <= i < self.payload_queue@.len() ==> q0.contains(
                        #[trigger] self.payload_queue@[i],
                    ),
                forall|u: u32| #[trigger]
                    self.payload_queue.has(u) == (seq_has_tsn(q0, u) && !(1 <= tsn_dist(t0, u)
                        <= k)),
            ensures
                !seq_has_tsn(q0, tsn_plus(self.peer_last_tsn, 1)),
            decreases self.payload_queue@.len(),
        {
            let next = tsn_next(self.peer_last_tsn);
            proof {
                lemma_tsn_plus_plus(t0, k, 1);
                lemma_tsn_dist_plus(t0, k + 1);
            }
            let ghost before = self.payload_queue@;
            let ghost plt = self.peer_last_tsn;
            match self.payload_queue.pop(next) {
                Some(_) => {
                    proof {
                        lemma_removed_keeps(before, crate::queue::tsn_index(before, next), q0);
                    }
                    assert(seq_has_tsn(q0, next));
                    assert(k + 1 <= 0x8000_0000);
                    assert(before.len() > 0);
                    self.peer_last_tsn = next;
                    proof {
                        k = k + 1;
                    }
                    assert forall|u: u32| #[trigger]
                        seq_has_tsn(self.payload_queue@, u) implies 1 <= tsn_dist(next, u)
                        <= 0x8000_0000 by {
                        assert(seq_has_tsn(before, u) && u != next);
                        lemma_tsn_plus_dist(plt, u);
                        lemma_tsn_dist_shift(plt, 1, u);
                    }
                    assert forall|u: u32| #[trigger]
                        self.payload_queue.has(u) == (seq_has_tsn(q0, u) && !(1 <= tsn_dist(
                            t0,
                            u,
                        ) <= k)) by {
                        lemma_tsn_plus_dist(t0, u);
                    }
                },
                None => {
                    assert(!seq_has_tsn(q0, next)) by {
                        if seq_has_tsn(q0, next) {
                            assert(tsn_dist(t0, next) == k + 1);
                        }
                    }
                    break ;
                },
            }
        }
        assert forall|u: u32| #[trigger]
            seq_has_tsn(self.payload_queue@, u) == (seq_has_tsn(q0, u) && !(1 <= tsn_dist(t0, u)
                <= k)) by {
            assert(self.payload_queue.has(u) == seq_has_tsn(self.payload_queue@, u));
        }
    }

    /// Moves each named stream's next SSN past the messages a FORWARD-TSN
    /// skipped; streams not in the table are passed over.
    fn forward_streams(&mut self, pairs: &Vec<ChunkForwardTsnStream>)
        requires
            old(self).wf(),
        ensures
            final(self).wf(),
            final(self).same_sender_side(old(self)),
            final(self).peer_last_tsn == old(self).peer_last_tsn,
            final(self).payload_queue@ == old(self).payload_queue@,
            final(self).ack_state == old(self).ack_state,
            final(self).delayed_ack_triggered == old(self).delayed_ack_triggered,
            final(self).immediate_ack_triggered == old(self).immediate_ack_triggered,
            streams_forwarded(old(self).streams@, final(self).streams@, pairs@),
    {
        let ghost a = old(self).streams@;
        let mut j: usize = 0;
        while j < pairs.len()
            invariant
                self.wf(),
                self.same_sender_side(old(self)),
                self.peer_last_tsn == old(self).peer_last_tsn,
                self.payload_queue@ == old(self).payload_queue@,
                self.ack_state == old(self).ack_state,
                self.delayed_ack_triggered == old(self).delayed_ack_triggered,
                self.immediate_ack_triggered == old(self).immediate_ack_triggered,
                a == old(self).streams@,
                j <= pairs@.len(),
                streams_forwarded(a, self.streams@, pairs@.take(j as int)),
            decreases pairs@.len() - j,
        {
            let si = pairs[j].identifier;
            let ssn = pairs[j].sequence;
            let ghost before = self.streams@;
            assert(pairs@.take(j + 1).drop_last() =~= pairs@.take(j as int));
            match self.find_stream(si) {
                Some(i) => {
                    let mut st = self.streams.remove(i);
                    st.reassembly.forward_ssn(ssn);
                    self.streams.insert(i, st);
                    assert(self.streams@ =~= before.update(i as int, st));
                    assert forall|k: int| 0 <= k < a.len() && k != i implies (#[trigger] before[k]).stream_identifier != si by {
                        assert(before[i as int].stream_identifier == si);
                    }
                    assert(distinct_streams(self.streams@)) by {
                        assert forall|x: int, y: int|
                            0 <= x < self.streams@.len() && 0 <= y < self.streams@.len() && x != y implies
                            self.streams@[x].stream_identifier != self.streams@[y].stream_identifier by {
                            assert(self.streams@[x].stream_identifier == before[x].stream_identifier);
                            assert(self.streams@[y].stream_identifier == before[y].stream_identifier);
                        }
                    }
                },
                None => {
                    assert forall|k: int| 0 <= k < a.len() implies (#[trigger] before[k]).stream_identifier != si by {
                        assert(has_stream(before, before[k].stream_identifier));
                    }
                },
            }
            j = j + 1;
            assert(streams_forwarded(a, self.streams@, pairs@.take(j as int)));
        }
        assert(pairs@.take(pairs@.len() as int) =~= pairs@);
    }

    /// Passes every queued TSN that follows `peer_last_tsn`, then arms the
    /// SACK: delayed when nothing is missing, immediate otherwise.
    pub fn handle_peer_last_tsn_and_acknowledgement(&mut self, sack_immediately: bool)
        requires
            old(self).wf(),
        ensures
            final(self).wf(),
            advanced_over(
                old(self).payload_queue@,
                old(self).peer_last_tsn,
                0,
                final(self).payload_queue@,
                final(self).peer_last_tsn,
            ),
            final(self).same_but_receive(old(self)),
            ack_after(final(self), old(self), sack_immediately),
            !tsn_lt(final(self).peer_last_tsn, old(self).peer_last_tsn),
    {
        let ghost q0 = self.payload_queue@;
        let ghost t0 = self.peer_last_tsn;
        self.advance_over_queued(Ghost(q0), Ghost(t0), Ghost(0));
        proof {
            lemma_cumulative_ack_never_recedes(q0, t0, 0, self.payload_queue@, self.peer_last_tsn);
        }
        self.arm_sack(sack_immediately);
    }

    fn arm_sack(&mut self, sack_immediately: bool)
        ensures
            final(self).peer_last_tsn == old(self).peer_last_tsn,
            final(self).payload_queue@ == old(self).payload_queue@,
            final(self).same_but_receive(old(self)),
            ack_after(final(self), old(self), sack_immediately),
    {
        let has_packet_loss = !self.payload_queue.is_empty();
        if self.ack_state == AckState::Idle && !sack_immediately && !has_packet_loss {
            self.delayed_ack_triggered = true;
        } else {
            self.immediate_ack_triggered = true;
        }
    }

    /// RFC 3758 3.6: moves `peer_last_tsn` to the chunk's new cumulative TSN,
    /// dropping what was queued up to it, then on over queued TSNs. One that
    /// does not move it on is out of date and asks for a SACK at once.
    pub fn handle_forward_tsn(&mut self, c: &ChunkForwardTsn) -> (r: Vec<Reply>)
        requires
            old(self).wf(),
        ensures
            final(self).wf(),
            final(self).same_sender_side(old(self)),
            !(old(self).use_forward_tsn && tsn_lt(old(self).peer_last_tsn, c.new_cumulative_tsn))
                ==> final(self).streams@ == old(self).streams@,
            old(self).use_forward_tsn && tsn_lt(old(self).peer_last_tsn, c.new_cumulative_tsn)
                ==> streams_forwarded(old(self).streams@, final(self).streams@, c.streams@),
            !old(self).use_forward_tsn ==> r@ == seq![
                Reply::UnrecognizedChunkType { chunk_type: CT_FORWARD_TSN },
            ] && final(self).peer_last_tsn == old(self).peer_last_tsn
                && final(self).payload_queue@ == old(self).payload_queue@
                && final(self).ack_state == old(self).ack_state
                && final(self).delayed_ack_triggered == old(self).delayed_ack_triggered
                && final(self).immediate_ack_triggered == old(self).immediate_ack_triggered,
            old(self).use_forward_tsn && !tsn_lt(old(self).peer_last_tsn, c.new_cumulative_tsn)
                ==> r@.len() == 0 && final(self).peer_last_tsn == old(self).peer_last_tsn
                && final(self).payload_queue@ == old(self).payload_queue@
                && final(self).ack_state == AckState::Immediate
                && final(self).delayed_ack_triggered == old(self).delayed_ack_triggered
                && final(self).immediate_ack_triggered == old(self).immediate_ack_triggered,
            old(self).use_forward_tsn && tsn_lt(old(self).peer_last_tsn, c.new_cumulative_tsn)
                ==> r@.len() == 0 && advanced_over(
                old(self).payload_queue@,
                old(self).peer_last_tsn,
                tsn_dist(old(self).peer_last_tsn, c.new_cumulative_tsn),
                final(self).payload_queue@,
                final(self).peer_last_tsn,
            ) && ack_after(final(self), old(self), false),
            !tsn_lt(final(self).peer_last_tsn, old(self).peer_last_tsn),
    {
        if !self.use_forward_tsn {
            return vec![Reply::UnrecognizedChunkType { chunk_type: CT_FORWARD_TSN }];
        }
        if !sna32_lt(self.peer_last_tsn, c.new_cumulative_tsn) {
            self.ack_state = AckState::Immediate;
            return Vec::new();
        }
        let ghost q0 = self.payload_queue@;
        let ghost t0 = self.peer_last_tsn;
        let ghost d = tsn_dist(t0, c.new_cumulative_tsn);
        let ghost mut k: int = 0;
        proof {
            lemma_tsn_plus_dist(t0, t0);
        }
        while sna32_lt(self.peer_last_tsn, c.new_cumulative_tsn)
            invariant
                self.wf(),
                self.same_but_receive(old(self)),
                self.ack_state == old(self).ack_state,
                self.delayed_ack_triggered == old(self).delayed_ack_triggered,
                self.immediate_ack_triggered == old(self).immediate_ack_triggered,
                q0 == old(self).payload_queue@,
                t0 == old(self).peer_last_tsn,
                forall|i: int|
                    0 <= i < self.payload_queue@.len() ==> q0.contains(
                        #[trigger] self.payload_queue@[i],
                    ),
                queued_after(q0, t0),
                0 < d < 0x8000_0000,
                d == tsn_dist(t0, c.new_cumulative_tsn),
                0 <= k <= d,
                self.peer_last_tsn == tsn_plus(t0, k),
                tsn_dist(t0, self.peer_last_tsn) == k,
                tsn_dist(self.peer_last_tsn, c.new_cumulative_tsn) == d - k,
                forall|u: u32| #[trigger]
                    self.payload_queue.has(u) == (seq_has_tsn(q0, u) && !(1 <= tsn_dist(t0, u)
                        <= k)),
            decreases d - k,
        {
            let next = tsn_next(self.peer_last_tsn);
            let ghost plt = self.peer_last_tsn;
            let ghost before = self.payload_queue@;
            proof {
                lemma_tsn_plus_plus(t0, k, 1);
                lemma_tsn_dist_plus(t0, k + 1);
                lemma_tsn_dist_shift(t0, k + 1, c.new_cumulative_tsn);
            }
            let popped = self.payload_queue.pop(next);
            proof {
                if popped is Some {
                    lemma_removed_keeps(before, crate::queue::tsn_index(before, next), q0);
                }
            }
            self.peer_last_tsn = next;
            proof {
                k = k + 1;
            }
            assert forall|u: u32| #[trigger]
                seq_has_tsn(self.payload_queue@, u) implies 1 <= tsn_dist(next, u)
                <= 0x8000_0000 by {
                assert(seq_has_tsn(before, u) && u != next);
                lemma_tsn_plus_dist(plt, u);
                lemma_tsn_dist_shift(plt, 1, u);
            }
            assert forall|u: u32| #[trigger]
                self.payload_queue.has(u) == (seq_has_tsn(q0, u) && !(1 <= tsn_dist(t0, u) <= k)) by {
                lemma_tsn_plus_dist(t0, u);
            }
        }
        let ghost mid = self.payload_queue@;
        assert(k == d);
        assert forall|u: u32| #[trigger]
            seq_has_tsn(mid, u) == (seq_has_tsn(q0, u) && !(1 <= tsn_dist(t0, u) <= d)) by {
            assert(self.payload_queue.has(u) == seq_has_tsn(mid, u));
        }
        self.forward_streams(&c.streams);
        assert forall|u: u32| #[trigger]
            self.payload_queue.has(u) == (seq_has_tsn(q0, u) && !(1 <= tsn_dist(t0, u) <= d)) by {
            assert(self.payload_queue@ == mid);
            assert(seq_has_tsn(mid, u) == (seq_has_tsn(q0, u) && !(1 <= tsn_dist(t0, u) <= d)));
        }
        self.advance_over_queued(Ghost(q0), Ghost(t0), Ghost(d));
        proof {
            lemma_cumulative_ack_never_recedes(
                q0,
                t0,
                d,
                self.payload_queue@,
                self.peer_last_tsn,
            );
        }
        self.arm_sack(false);
        Vec::new()
    }
    /// Takes in a SACK: the cumulative TSN ack `cum_tsn_ack` and its gap-ack
    /// blocks. A SACK whose cumulative TSN is behind the current point is
    /// out of date and changes nothing. Otherwise the point moves to it, the
    /// fragments up to it leave the inflight queue, `advanced_peer_tsn_ack_point`
    /// follows where it was behind, and the fragments the blocks report are
    /// marked acknowledged.
    pub fn handle_sack(&mut self, cum_tsn_ack: u32, gap_ack_blocks: &Vec<GapAckBlock>) -> (r: bool)
        requires
            old(self).wf(),
        ensures
            final(self).wf(),
            r == tsn_lte(old(self).cumulative_tsn_ack_point, cum_tsn_ack),
            !r ==> *final(self) == *old(self),
            r ==> final(self).cumulative_tsn_ack_point == cum_tsn_ack
                && final(self).advanced_peer_tsn_ack_point == (if tsn_lt(
                old(self).advanced_peer_tsn_ack_point,
                cum_tsn_ack,
            ) {
                cum_tsn_ack
            } else {
                old(self).advanced_peer_tsn_ack_point
            }) && final(self).peer_last_tsn == old(self).peer_last_tsn && final(self).payload_queue@
                == old(self).payload_queue@ && final(self).ack_state == old(self).ack_state
                && final(self).streams@ == old(self).streams@,
            r ==> forall|u: u32| #[trigger]
                final(self).inflight_queue.has(u) == (old(self).inflight_queue.has(u) && !(1
                    <= tsn_dist(old(self).cumulative_tsn_ack_point, u) <= tsn_dist(
                    old(self).cumulative_tsn_ack_point,
                    cum_tsn_ack,
                ))),
            r ==> forall|i: int|
                0 <= i < final(self).inflight_queue@.len() ==> #[trigger] final(self).inflight_queue@[i]
                    == after_blocks(
                    gap_ack_blocks@,
                    cum_tsn_ack,
                    seq_at_tsn(old(self).inflight_queue@, final(self).inflight_queue@[i].tsn),
                ),
            r ==> forall|i: int|
                0 <= i < final(self).inflight_queue@.len() && gap_acked(
                    gap_ack_blocks@,
                    cum_tsn_ack,
                    #[trigger] final(self).inflight_queue@[i].tsn,
                ) ==> final(self).inflight_queue@[i].acked,
    {
        if !sna32_lte(self.cumulative_tsn_ack_point, cum_tsn_ack) {
            return false;
        }
        let base = self.cumulative_tsn_ack_point;
        let d = tsn_distance(base, cum_tsn_ack);
        self.inflight_queue.remove_through(base, d);
        let ghost kept = self.inflight_queue@;
        proof {
            assert forall|u: u32| #[trigger] seq_has_tsn(kept, u) == (old(
                self,
            ).inflight_queue.has(u) && !(1 <= tsn_dist(base, u) <= d)) by {
                assert(self.inflight_queue.has(u) == seq_has_tsn(kept, u));
            }
            lemma_tsn_plus_dist(base, cum_tsn_ack);
            assert forall|u: u32| #[trigger] seq_has_tsn(kept, u) implies 1 <= tsn_dist(cum_tsn_ack, u)
                <= 0x8000_0000 by {
                assert(self.inflight_queue.has(u));
                lemma_tsn_dist_shift(base, d as int, u);
            }
        }
        let ghost adv = self.advanced_peer_tsn_ack_point;
        self.cumulative_tsn_ack_point = cum_tsn_ack;
        if sna32_lt(self.advanced_peer_tsn_ack_point, cum_tsn_ack) {
            self.advanced_peer_tsn_ack_point = cum_tsn_ack;
        } else {
            proof {
                let e = tsn_dist(base, adv);
                lemma_tsn_plus_dist(base, adv);
                if d as int <= e {
                    lemma_tsn_dist_shift(base, d as int, adv);
                } else {
                    lemma_tsn_dist_shift(base, e, cum_tsn_ack);
                }
            }
        }
        self.inflight_queue.mark_gap_acked(cum_tsn_ack, gap_ack_blocks);
        proof {
            let f = self.inflight_queue@;
            assert forall|u: u32| #[trigger] seq_has_tsn(f, u) == seq_has_tsn(kept, u) by {
                if seq_has_tsn(f, u) {
                    let k = choose|k: int| 0 <= k < f.len() && f[k].tsn == u;
                    assert(kept[k].tsn == u);
                }
                if seq_has_tsn(kept, u) {
                    let k = choose|k: int| 0 <= k < kept.len() && kept[k].tsn == u;
                    assert(f[k].tsn == u);
                }
            }
            assert forall|u: u32| #[trigger] self.inflight_queue.has(u) == seq_has_tsn(kept, u) by {}
            assert forall|i: int| 0 <= i < kept.len() implies #[trigger] f[i] == after_blocks(
                gap_ack_blocks@,
                cum_tsn_ack,
                kept[i],
            ) by {}
            lemma_after_sack(kept, f, old(self).inflight_queue@, gap_ack_blocks@, cum_tsn_ack);
        }
        true
    }

    /// RFC 3758 C1: moves `advanced_peer_tsn_ack_point` over each inflight
    /// fragment that follows it and has been abandoned, stopping at the first
    /// TSN that is not inflight or not abandoned, or half the TSN space past
    /// the cumulative point.
    #[verifier::rlimit(50)]
    pub fn advance_over_abandoned(&mut self)
        requires
            old(self).wf(),
        ensures
            final(self).wf(),
            final(self).cumulative_tsn_ack_point == old(self).cumulative_tsn_ack_point,
            final(self).inflight_queue@ == old(self).inflight_queue@,
            final(self).peer_last_tsn == old(self).peer_last_tsn,
            final(self).payload_queue@ == old(self).payload_queue@,
            final(self).streams@ == old(self).streams@,
            final(self).ack_state == old(self).ack_state,
            ({
                let k = tsn_dist(old(self).advanced_peer_tsn_ack_point, final(self).advanced_peer_tsn_ack_point);
                &&& forall|j: int| 1 <= j <= k ==> #[trigger] abandoned_at(
                    old(self).inflight_queue@,
                    tsn_plus(old(self).advanced_peer_tsn_ack_point, j),
                )
                &&& (!abandoned_at(
                    old(self).inflight_queue@,
                    tsn_plus(final(self).advanced_peer_tsn_ack_point, 1),
                ) || tsn_dist(
                    old(self).cumulative_tsn_ack_point,
                    tsn_plus(final(self).advanced_peer_tsn_ack_point, 1),
                ) >= 0x8000_0000)
            }),
    {
        let cum = self.cumulative_tsn_ack_point;
        let a0 = self.advanced_peer_tsn_ack_point;
        let ghost e0 = tsn_dist(cum, a0);
        let ghost mut k: int = 0;
        proof {
            lemma_tsn_plus_dist(cum, a0);
            lemma_tsn_plus_dist(a0, a0);
        }
        loop
            invariant
                self.wf(),
                self.cumulative_tsn_ack_point == cum,
                self.inflight_queue@ == old(self).inflight_queue@,
                self.peer_last_tsn == old(self).peer_last_tsn,
                self.payload_queue@ == old(self).payload_queue@,
                self.streams@ == old(self).streams@,
                self.ack_state == old(self).ack_state,
                a0 == old(self).advanced_peer_tsn_ack_point,
                e0 == tsn_dist(cum, a0),
                0 <= k,
                e0 + k < 0x8000_0000,
                self.advanced_peer_tsn_ack_point == tsn_plus(cum, e0 + k),
                tsn_dist(a0, self.advanced_peer_tsn_ack_point) == k,
                tsn_dist(cum, self.advanced_peer_tsn_ack_point) == e0 + k,
                forall|j: int| 1 <= j <= k ==> #[trigger] abandoned_at(
                    old(self).inflight_queue@,
                    tsn_plus(a0, j),
                ),
            ensures
                !abandoned_at(old(self).inflight_queue@, tsn_plus(self.advanced_peer_tsn_ack_point, 1))
                    || tsn_dist(cum, tsn_plus(self.advanced_peer_tsn_ack_point, 1)) >= 0x8000_0000,
            decreases 0x8000_0000 - e0 - k,
        {
            let adv = self.advanced_peer_tsn_ack_point;
            let next = tsn_next(adv);
            proof {
                lemma_tsn_plus_plus(cum, e0 + k, 1);
                lemma_tsn_dist_plus(cum, e0 + k + 1);
                lemma_tsn_plus_plus(a0, k, 1);
                lemma_tsn_dist_plus(a0, k + 1);
                lemma_tsn_plus_plus(cum, e0, k);
            }
            let dn = tsn_distance(cum, next);
            if dn >= 0x8000_0000 {
                break ;
            }
            let go = match self.inflight_queue.get(next) {
                Some(c) => c.abandoned,
                None => false,
            };
            if !go {
                break ;
            }
            self.advanced_peer_tsn_ack_point = next;
            proof {
                k = k + 1;
            }
        }
    }

    /// After a SACK was taken in: each inflight fragment it reports missing
    /// (unacknowledged and before the highest TSN its gap-ack blocks report)
    /// counts one more miss. Returns the TSNs whose count just reached the
    /// fast-retransmit threshold; none of them is acknowledged.
    pub fn note_fast_retransmits(&mut self, gap_ack_blocks: &Vec<GapAckBlock>) -> (r: Vec<u32>)
        requires
            old(self).wf(),
        ensures
            final(self).wf(),
            final(self).peer_last_tsn == old(self).peer_last_tsn,
            final(self).payload_queue@ == old(self).payload_queue@,
            final(self).cumulative_tsn_ack_point == old(self).cumulative_tsn_ack_point,
            final(self).advanced_peer_tsn_ack_point == old(self).advanced_peer_tsn_ack_point,
            final(self).streams@ == old(self).streams@,
            final(self).inflight_queue@.len() == old(self).inflight_queue@.len(),
            forall|i: int|
                0 <= i < old(self).inflight_queue@.len() ==> (#[trigger] final(self).inflight_queue@[i])
                    == if reported_missing(
                    old(self).inflight_queue@[i],
                    old(self).cumulative_tsn_ack_point,
                    highest_reported(gap_ack_blocks@),
                ) {
                    with_miss(old(self).inflight_queue@[i])
                } else {
                    old(self).inflight_queue@[i]
                },
            r@ == newly_due(old(self).inflight_queue@, final(self).inflight_queue@),
            forall|k: int|
                #![trigger r@[k]]
                0 <= k < r@.len() ==> exists|i: int|
                    0 <= i < final(self).inflight_queue@.len()
                        && #[trigger] final(self).inflight_queue@[i].tsn == r@[k]
                        && !final(self).inflight_queue@[i].acked,
    {
        let mut highest: u32 = 0;
        let mut b: usize = 0;
        while b < gap_ack_blocks.len()
            invariant
                b <= gap_ack_blocks@.len(),
                highest as int == highest_reported(gap_ack_blocks@.take(b as int)),
            decreases gap_ack_blocks@.len() - b,
        {
            assert(gap_ack_blocks@.take(b + 1).drop_last() =~= gap_ack_blocks@.take(b as int));
            if gap_ack_blocks[b].end as u32 > highest {
                highest = gap_ack_blocks[b].end as u32;
            }
            b = b + 1;
        }
        assert(gap_ack_blocks@.take(gap_ack_blocks@.len() as int) =~= gap_ack_blocks@);
        let ghost q0 = self.inflight_queue@;
        let r = self.inflight_queue.note_misses(self.cumulative_tsn_ack_point, highest);
        proof {
            let q1 = self.inflight_queue@;
            assert forall|u: u32| #[trigger] seq_has_tsn(q1, u) == seq_has_tsn(q0, u) by {
                if seq_has_tsn(q1, u) {
                    let k = choose|k: int| 0 <= k < q1.len() && q1[k].tsn == u;
                    assert(q0[k].tsn == u);
                }
                if seq_has_tsn(q0, u) {
                    let k = choose|k: int| 0 <= k < q0.len() && q0[k].tsn == u;
                    assert(q1[k].tsn == u);
                }
            }
            assert forall|k: int| #![trigger r@[k]] 0 <= k < r@.len() implies exists|i: int|
                0 <= i < q1.len() && #[trigger] q1[i].tsn == r@[k] && !q1[i].acked by {
                lemma_newly_due_unacked(
                    q0,
                    q1,
                    self.cumulative_tsn_ack_point,
                    highest as int,
                    k,
                );
            }
        }
        r
    }

    /// TSNs of inflight fragments that may be sent again: neither
    /// acknowledged nor abandoned, in queue order. Each lies after the
    /// cumulative TSN ack point.
    pub fn retransmit_candidates(&self) -> (r: Vec<u32>)
        requires
            self.wf(),
        ensures
            r@ == unacked(self.inflight_queue@),
            forall|k: int| 0 <= k < r@.len() ==> !tsn_lte(#[trigger] r@[k], self.cumulative_tsn_ack_point),
    {
        let r = self.inflight_queue.unacked_tsns();
        proof {
            assert forall|k: int| 0 <= k < r@.len() implies !tsn_lte(
                #[trigger] r@[k],
                self.cumulative_tsn_ack_point,
            ) by {
                lemma_no_spurious_retransmit(
                    self.inflight_queue@,
                    self.cumulative_tsn_ack_point,
                    Seq::empty(),
                    k,
                );
            }
        }
        r
    }

    /// Where the stream `si` stands in the table.
    fn find_stream(&self, si: u16) -> (r: Option<usize>)
        ensures
            r matches Some(i) ==> i < self.streams@.len() && self.streams@[i as int].stream_identifier
                == si,
            r is None ==> !has_stream(self.streams@, si),
    {
        let mut i: usize = 0;
        while i < self.streams.len()
            invariant
                i <= self.streams@.len(),
                forall|j: int| 0 <= j < i ==> self.streams@[j].stream_identifier != si,
            decreases self.streams@.len() - i,
        {
            if self.streams[i].stream_identifier == si {
                return Some(i);
            }
            i = i + 1;
        }
        None
    }

    /// The stream `si`, if the table holds it.
    pub fn get_stream(&self, si: u16) -> (r: Option<&Stream>)
        ensures
            r is None <==> !has_stream(self.streams@, si),
            r matches Some(s) ==> s.stream_identifier == si,
    {
        match self.find_stream(si) {
            Some(i) => Some(&self.streams[i]),
            None => None,
        }
    }

    /// Adds stream `si` to the table and hands out its handle. With
    /// `accept`, the stream must also find room in the accept queue, or it
    /// is not created. A stream already in the table is handed out as it is.
    pub fn create_stream(&mut self, si: u16, accept: bool) -> (r: Option<StreamHandle>)
        requires
            old(self).wf(),
        ensures
            final(self).wf(),
            final(self).peer_last_tsn == old(self).peer_last_tsn,
            final(self).cumulative_tsn_ack_point == old(self).cumulative_tsn_ack_point,
            final(self).advanced_peer_tsn_ack_point == old(self).advanced_peer_tsn_ack_point,
            final(self).inflight_queue@ == old(self).inflight_queue@,
            final(self).payload_queue@ == old(self).payload_queue@,
            final(self).ack_state == old(self).ack_state,
            final(self).delayed_ack_triggered == old(self).delayed_ack_triggered,
            final(self).immediate_ack_triggered == old(self).immediate_ack_triggered,
            final(self).use_forward_tsn == old(self).use_forward_tsn,
            final(self).accept_capacity == old(self).accept_capacity,
            final(self).duplicate_tsns@ == old(self).duplicate_tsns@,
            has_stream(old(self).streams@, si) ==> r == Some(StreamHandle { stream_identifier: si })
                && final(self).streams@ == old(self).streams@ && final(self).accept_queue@ == old(
                self,
            ).accept_queue@,
            !has_stream(old(self).streams@, si) && accept && !can_accept(old(self)) ==> r is None
                && final(self).streams@ == old(self).streams@ && final(self).accept_queue@ == old(
                self,
            ).accept_queue@,
            !has_stream(old(self).streams@, si) && accept && can_accept(old(self)) ==> r == Some(
                StreamHandle { stream_identifier: si },
            ) && stream_added(old(self).streams@, final(self).streams@, si)
                && final(self).accept_queue@ == old(self).accept_queue@.push(si),
            !has_stream(old(self).streams@, si) && !accept ==> r == Some(
                StreamHandle { stream_identifier: si },
            ) && stream_added(old(self).streams@, final(self).streams@, si)
                && final(self).accept_queue@ == old(self).accept_queue@,
    {
        if self.find_stream(si).is_some() {
            return Some(StreamHandle { stream_identifier: si });
        }
        if accept {
            if self.accept_queue.len() >= self.accept_capacity {
                return None;
            }
            self.accept_queue.push(si);
        }
        let ghost before = self.streams@;
        self.streams.push(Stream { stream_identifier: si, reassembly: ReassemblyQueue::new(si) });
        assert(distinct_streams(self.streams@)) by {
            assert forall|i: int, j: int|
                0 <= i < self.streams@.len() && 0 <= j < self.streams@.len() && i != j implies
                self.streams@[i].stream_identifier != self.streams@[j].stream_identifier by {
                if i < before.len() && j < before.len() {
                } else if i < before.len() {
                    assert(before[i].stream_identifier != si);
                } else {
                    assert(before[j].stream_identifier != si);
                }
            }
        }
        Some(StreamHandle { stream_identifier: si })
    }

    /// The oldest stream the peer opened that the user has not accepted yet.
    pub fn accept_stream(&mut self) -> (r: Option<StreamHandle>)
        requires
            old(self).wf(),
        ensures
            final(self).wf(),
            final(self).same_but_accept(old(self)),
            old(self).accept_queue@.len() == 0 ==> r is None && final(self).accept_queue@ == old(
                self,
            ).accept_queue@,
            old(self).accept_queue@.len() > 0 ==> r == Some(
                StreamHandle { stream_identifier: old(self).accept_queue@[0] },
            ) && final(self).accept_queue@ == old(self).accept_queue@.drop_first(),
    {
        if self.accept_queue.len() == 0 {
            return None;
        }
        let si = self.accept_queue.remove(0);
        assert(self.accept_queue@ =~= old(self).accept_queue@.drop_first());
        Some(StreamHandle { stream_identifier: si })
    }

    /// Everything but the accept queue is as in `o`.
    pub open spec fn same_but_accept(&self, o: &Self) -> bool {
        &&& self.peer_last_tsn == o.peer_last_tsn
        &&& self.cumulative_tsn_ack_point == o.cumulative_tsn_ack_point
        &&& self.advanced_peer_tsn_ack_point == o.advanced_peer_tsn_ack_point
        &&& self.inflight_queue@ == o.inflight_queue@
        &&& self.payload_queue@ == o.payload_queue@
        &&& self.ack_state == o.ack_state
        &&& self.delayed_ack_triggered == o.delayed_ack_triggered
        &&& self.immediate_ack_triggered == o.immediate_ack_triggered
        &&& self.use_forward_tsn == o.use_forward_tsn
        &&& self.streams@ == o.streams@
        &&& self.accept_capacity == o.accept_capacity
        &&& self.duplicate_tsns@ == o.duplicate_tsns@
    }

    /// Takes in a DATA chunk. For a stream not in the table the chunk opens
    /// one through the accept queue; where the queue is full the chunk is
    /// dropped and nothing changes. A TSN already queued or at or before
    /// `peer_last_tsn` is a duplicate: it is recorded for the next SACK's
    /// duplicate list and asks for that SACK at once. Any other
    /// TSN is queued, `peer_last_tsn` passes the queued TSNs that follow it,
    /// and the SACK is armed.
    pub fn handle_data(&mut self, d: &ChunkPayloadData) -> (r: Vec<Reply>)
        requires
            old(self).wf(),
        ensures
            final(self).wf(),
            r@.len() == 0,
            !tsn_lt(final(self).peer_last_tsn, old(self).peer_last_tsn),
            final(self).cumulative_tsn_ack_point == old(self).cumulative_tsn_ack_point,
            final(self).advanced_peer_tsn_ack_point == old(self).advanced_peer_tsn_ack_point,
            final(self).inflight_queue@ == old(self).inflight_queue@,
            final(self).use_forward_tsn == old(self).use_forward_tsn,
            final(self).accept_capacity == old(self).accept_capacity,
            !has_stream(old(self).streams@, d.stream_identifier) && !can_accept(old(self))
                ==> final(self).same_but_accept(old(self)) && final(self).accept_queue@ == old(
                self,
            ).accept_queue@,
            has_stream(old(self).streams@, d.stream_identifier) ==> final(self).streams@ == old(
                self,
            ).streams@ && final(self).accept_queue@ == old(self).accept_queue@,
            !has_stream(old(self).streams@, d.stream_identifier) && can_accept(old(self))
                ==> stream_added(old(self).streams@, final(self).streams@, d.stream_identifier)
                && final(self).accept_queue@ == old(self).accept_queue@.push(d.stream_identifier),
            has_stream(old(self).streams@, d.stream_identifier) || can_accept(old(self)) ==> if old(
                self,
            ).payload_queue.has(d.tsn) || crate::serial::tsn_lte(d.tsn, old(self).peer_last_tsn) {
                final(self).peer_last_tsn == old(self).peer_last_tsn && final(self).payload_queue@
                    == old(self).payload_queue@ && final(self).duplicate_tsns@ == old(
                    self,
                ).duplicate_tsns@.push(d.tsn) && final(self).ack_state == AckState::Immediate
                    && final(self).delayed_ack_triggered == old(self).delayed_ack_triggered
                    && final(self).immediate_ack_triggered == old(self).immediate_ack_triggered
            } else {
                final(self).ack_state == ack_transition(
                    old(self).ack_state,
                    data_event(old(self).ack_state, final(self).payload_queue@.len() > 0),
                ) && ack_flags_after(final(self), old(self), d.immediate_sack)
                    && final(self).duplicate_tsns@ == old(self).duplicate_tsns@
                    && exists|c: ChunkPayloadData|
                    same_chunk(c, *d) && #[trigger] advanced_over(
                        old(self).payload_queue@.push(c),
                        old(self).peer_last_tsn,
                        0,
                        final(self).payload_queue@,
                        final(self).peer_last_tsn,
                    )
            },
    {
        if self.find_stream(d.stream_identifier).is_none() {
            if self.create_stream(d.stream_identifier, true).is_none() {
                return Vec::new();
            }
        }
        let c = d.duplicate();
        let ghost queued = c;
        let ghost q0 = self.payload_queue@;
        if !self.payload_queue.push(c, self.peer_last_tsn) {
            self.duplicate_tsns.push(d.tsn);
            self.ack_state = AckState::Immediate;
            return Vec::new();
        }
        proof {
            lemma_not_lte_after(d.tsn, self.peer_last_tsn);
            assert forall|u: u32| #[trigger] seq_has_tsn(self.payload_queue@, u) implies 1
                <= tsn_dist(self.peer_last_tsn, u) <= 0x8000_0000 by {
                assert(self.payload_queue.has(u));
            }
        }
        let ghost t0 = self.peer_last_tsn;
        let ghost q1 = self.payload_queue@;
        self.handle_peer_last_tsn_and_acknowledgement(d.immediate_sack);
        let gap_left = !self.payload_queue.is_empty();
        let event = if gap_left {
            AckEvent::GapOrDuplicate
        } else if self.ack_state == AckState::Delayed {
            AckEvent::SecondData
        } else {
            AckEvent::DataInOrder
        };
        self.ack_state = next_ack_state(self.ack_state, event);
        assert(q1 == q0.push(queued));
        assert(advanced_over(q0.push(queued), t0, 0, self.payload_queue@, self.peer_last_tsn));
        Vec::new()
    }
}

impl Default for AssociationInternal {
    /// An association with no accept queue: streams the peer opens are refused.
    fn default() -> (r: Self)
        ensures
            r.wf(),
            r.peer_last_tsn == 0 && r.cumulative_tsn_ack_point == 0
                && r.advanced_peer_tsn_ack_point == 0,
            r.inflight_queue@.len() == 0 && r.payload_queue@.len() == 0,
            r.ack_state == AckState::Idle,
            !r.delayed_ack_triggered && !r.immediate_ack_triggered && !r.use_forward_tsn,
            r.streams@.len() == 0 && r.accept_queue@.len() == 0 && r.accept_capacity == 0,
            r.duplicate_tsns@.len() == 0,
    {
        AssociationInternal::new(0)
    }
}

} // verus!
