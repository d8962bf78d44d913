//! Fragments keyed by TSN: the sender's inflight queue and the receiver's
//! reassembly queue.
use vstd::prelude::*;
use crate::chunk::ChunkPayloadData;
use crate::serial::{sna32_lte, tsn_dist, tsn_distance, tsn_lte};

verus! {

pub open spec fn seq_has_tsn(s: Seq<ChunkPayloadData>, t: u32) -> bool {
    exists|i: int| 0 <= i < s.len() && s[i].tsn == t
}

/// No two fragments share a TSN.
pub open spec fn unique_tsns(s: Seq<ChunkPayloadData>) -> bool {
    forall|i: int, j: int| 0 <= i < s.len() && 0 <= j < s.len() && i != j ==> s[i].tsn != s[j].tsn
}

/// Where the fragment with TSN `t` stands, where there is one.
pub open spec fn tsn_index(s: Seq<ChunkPayloadData>, t: u32) -> int {
    choose|i: int| 0 <= i < s.len() && s[i].tsn == t
}

/// The fragment with TSN `t`, where there is one.
pub open spec fn seq_at_tsn(s: Seq<ChunkPayloadData>, t: u32) -> ChunkPayloadData {
    s[tsn_index(s, t)]
}

/// `c`, marked as acknowledged.
pub open spec fn with_acked(c: ChunkPayloadData) -> ChunkPayloadData {
    ChunkPayloadData { acked: true, ..c }
}

/// A gap-ack block of a SACK: the TSNs `start` to `end` steps after the
/// SACK's cumulative TSN arrived.
#[derive(Clone, Copy, Debug, PartialEq, Eq, Structural)]
pub struct GapAckBlock {
    pub start: u16,
    pub end: u16,
}

/// Some block of `blocks` reports `t` as arrived.
pub open spec fn gap_acked(blocks: Seq<GapAckBlock>, cum: u32, t: u32) -> bool {
    exists|b: int| 0 <= b < blocks.len() && (#[trigger] blocks[b]).start <= tsn_dist(cum, t) <= blocks[b].end
}

fn in_gap_blocks(blocks: &Vec<GapAckBlock>, cum: u32, t: u32) -> (r: bool)
    ensures
        r == gap_acked(blocks@, cum, t),
{
    let off = tsn_distance(cum, t);
    let mut b: usize = 0;
    while b < blocks.len()
        invariant
            b <= blocks@.len(),
            off == tsn_dist(cum, t),
            forall|j: int| 0 <= j < b ==> !((#[trigger] blocks@[j]).start <= off <= blocks@[j].end),
        decreases blocks@.len() - b,
    {
        if blocks[b].start as u32 <= off && off <= blocks[b].end as u32 {
            return true;
        }
        b = b + 1;
    }
    false
}

/// The number of times a fragment must be reported missing before it is
/// fast-retransmitted.
pub const FAST_RTX_MISSES: u32 = 3;

/// `c` after one more SACK reported it missing.
pub open spec fn with_miss(c: ChunkPayloadData) -> ChunkPayloadData {
    ChunkPayloadData {
        miss_indicator: if c.miss_indicator == u32::MAX {
            u32::MAX
        } else {
            (c.miss_indicator + 1) as u32
        },
        ..c
    }
}

/// A SACK whose highest reported TSN is `highest` steps after `cum` reports
/// `c` missing: it is neither acknowledged nor past that TSN.
pub open spec fn reported_missing(c: ChunkPayloadData, cum: u32, highest: int) -> bool {
    !c.acked && tsn_dist(cum, c.tsn) < highest
}

/// TSNs of the fragments whose miss count just reached the threshold.
pub open spec fn newly_due(old: Seq<ChunkPayloadData>, new: Seq<ChunkPayloadData>) -> Seq<u32>
    decreases old.len(),
{
    if old.len() == 0 || new.len() != old.len() {
        Seq::empty()
    } else {
        let rest = newly_due(old.drop_last(), new.drop_last());
        if old.last().miss_indicator < FAST_RTX_MISSES && new.last().miss_indicator
            == FAST_RTX_MISSES {
            rest.push(new.last().tsn)
        } else {
            rest
        }
    }
}

/// Fragments keyed by TSN; `wf` holds when no two share one.
pub struct PayloadQueue {
    chunks: Vec<ChunkPayloadData>,
}

impl View for PayloadQueue {
    type V = Seq<ChunkPayloadData>;

    closed spec fn view(&self) -> Seq<ChunkPayloadData> {
        self.chunks@
    }
}

impl PayloadQueue {
    pub open spec fn wf(&self) -> bool {
        unique_tsns(self@)
    }

    pub open spec fn has(&self, t: u32) -> bool {
        seq_has_tsn(self@, t)
    }

    pub fn new() -> (r: Self)
        ensures
            r@.len() == 0,
            r.wf(),
    {
        PayloadQueue { chunks: Vec::new() }
    }

    pub fn len(&self) -> (r: usize)
        ensures
            r == self@.len(),
    {
        self.chunks.len()
    }

    pub fn is_empty(&self) -> (r: bool)
        ensures
            r == (self@.len() == 0),
    {
        self.chunks.len() == 0
    }

    /// Appends a fragment whose TSN is not queued yet.
    pub fn push_no_check(&mut self, c: ChunkPayloadData)
        requires
            old(self).wf(),
            !old(self).has(c.tsn),
        ensures
            final(self)@ == old(self)@.push(c),
            final(self).wf(),
            forall|u: u32| #[trigger] final(self).has(u) == (old(self).has(u) || u == c.tsn),
    {
        let ghost t = c.tsn;
        self.chunks.push(c);
        assert forall|u: u32| #[trigger] self.has(u) == (old(self).has(u) || u == t) by {
            if old(self).has(u) {
                let k = choose|k: int| 0 <= k < old(self)@.len() && old(self)@[k].tsn == u;
                assert(self@[k].tsn == u);
            }
            if u == t {
                assert(self@[old(self)@.len() as int].tsn == u);
            }
            if self.has(u) && u != t {
                let k = choose|k: int| 0 <= k < self@.len() && self@[k].tsn == u;
                assert(old(self)@[k].tsn == u);
            }
        }
    }

    /// Queues `c` unless its TSN is queued already or is at or before
    /// `cumulative_tsn`; says whether it was queued.
    pub fn push(&mut self, c: ChunkPayloadData, cumulative_tsn: u32) -> (r: bool)
        requires
            old(self).wf(),
        ensures
            r == (!old(self).has(c.tsn) && !tsn_lte(c.tsn, cumulative_tsn)),
            r ==> final(self)@ == old(self)@.push(c),
            !r ==> final(self)@ == old(self)@,
            final(self).wf(),
            forall|u: u32| #[trigger] final(self).has(u) == (old(self).has(u) || (r && u == c.tsn)),
    {
        if self.get(c.tsn).is_some() || sna32_lte(c.tsn, cumulative_tsn) {
            return false;
        }
        self.push_no_check(c);
        true
    }

    fn position(&self, t: u32) -> (r: Option<usize>)
        ensures
            r matches Some(i) ==> i < self@.len() && self@[i as int].tsn == t,
            r is None ==> !self.has(t),
    {
        let mut i: usize = 0;
        while i < self.chunks.len()
            invariant
                i <= self@.len(),
                self.chunks@ == self@,
                forall|j: int| 0 <= j < i ==> self@[j].tsn != t,
            decreases self@.len() - i,
        {
            if self.chunks[i].tsn == t {
                return Some(i);
            }
            i = i + 1;
        }
        None
    }

    /// The fragment with TSN `t`.
    pub fn get(&self, t: u32) -> (r: Option<&ChunkPayloadData>)
        requires
            self.wf(),
        ensures
            r is None <==> !self.has(t),
            r matches Some(c) ==> *c == seq_at_tsn(self@, t),
    {
        match self.position(t) {
            Some(i) => Some(&self.chunks[i]),
            None => None,
        }
    }

    /// Takes out the fragment with TSN `t`.
    pub fn pop(&mut self, t: u32) -> (r: Option<ChunkPayloadData>)
        requires
            old(self).wf(),
        ensures
            r is None <==> !old(self).has(t),
            r matches Some(c) ==> c == seq_at_tsn(old(self)@, t) && final(self)@ == old(
                self,
            )@.remove(tsn_index(old(self)@, t)),
            r is None ==> final(self)@ == old(self)@,
            forall|u: u32| #[trigger] final(self).has(u) == (old(self).has(u) && u != t),
            final(self).wf(),
    {
        match self.position(t) {
            Some(i) => {
                let c = self.chunks.remove(i);
                let ghost o = old(self)@;
                assert(tsn_index(o, t) == i as int);
                assert forall|u: u32| #[trigger] self.has(u) == (old(self).has(u) && u != t) by {
                    if old(self).has(u) && u != t {
                        let k = choose|k: int| 0 <= k < o.len() && o[k].tsn == u;
                        if k < i {
                            assert(self@[k].tsn == u);
                        } else {
                            assert(k != i);
                            assert(self@[k - 1].tsn == u);
                        }
                    }
                    if self.has(u) {
                        let k = choose|k: int| 0 <= k < self@.len() && self@[k].tsn == u;
                        if k < i {
                            assert(o[k].tsn == u);
                        } else {
                            assert(o[k + 1].tsn == u);
                        }
                    }
                }
                Some(c)
            },
            None => None,
        }
    }
    /// Takes out every fragment from `base + 1` through `base + d`.
    pub fn remove_through(&mut self, base: u32, d: u32)
        requires
            old(self).wf(),
        ensures
            final(self).wf(),
            forall|u: u32| #[trigger]
                final(self).has(u) == (old(self).has(u) && !(1 <= tsn_dist(base, u) <= d)),
            forall|i: int| 0 <= i < final(self)@.len() ==> old(self)@.contains(#[trigger] final(self)@[i]),
    {
        let mut kept: Vec<ChunkPayloadData> = Vec::new();
        let ghost o = self.chunks@;
        while self.chunks.len() > 0
            invariant
                unique_tsns(o),
                unique_tsns(self.chunks@),
                unique_tsns(kept@),
                forall|i: int| 0 <= i < kept@.len() ==> o.contains(#[trigger] kept@[i]),
                forall|i: int| 0 <= i < self.chunks@.len() ==> o.contains(#[trigger] self.chunks@[i]),
                forall|u: u32| #[trigger] seq_has_tsn(kept@, u) ==> !seq_has_tsn(self.chunks@, u),
                forall|u: u32| #[trigger]
                    seq_has_tsn(o, u) == (seq_has_tsn(self.chunks@, u) || seq_has_tsn(kept@, u)
                        || (seq_has_tsn(o, u) && 1 <= tsn_dist(base, u) <= d)),
                forall|u: u32| #[trigger] seq_has_tsn(kept@, u) ==> !(1 <= tsn_dist(base, u) <= d),
            decreases self.chunks@.len(),
        {
            let ghost before = self.chunks@;
            let c = self.chunks.remove(0);
            let ghost t = c.tsn;
            assert(before == seq![c] + self.chunks@);
            assert forall|u: u32| #[trigger] seq_has_tsn(before, u) == (seq_has_tsn(self.chunks@, u) || u == t) by {
                if seq_has_tsn(before, u) && u != t {
                    let k = choose|k: int| 0 <= k < before.len() && before[k].tsn == u;
                    assert(self.chunks@[k - 1].tsn == u);
                }
                if seq_has_tsn(self.chunks@, u) {
                    let k = choose|k: int| 0 <= k < self.chunks@.len() && self.chunks@[k].tsn == u;
                    assert(before[k + 1].tsn == u);
                }
                if u == t {
                    assert(before[0].tsn == u);
                }
            }
            assert(!seq_has_tsn(self.chunks@, t)) by {
                if seq_has_tsn(self.chunks@, t) {
                    let k = choose|k: int| 0 <= k < self.chunks@.len() && self.chunks@[k].tsn == t;
                    assert(before[k + 1].tsn == t && before[0].tsn == t);
                }
            }
            assert(unique_tsns(self.chunks@)) by {
                assert forall|i: int, j: int|
                    0 <= i < self.chunks@.len() && 0 <= j < self.chunks@.len() && i != j implies
                    self.chunks@[i].tsn != self.chunks@[j].tsn by {
                    assert(self.chunks@[i] == before[i + 1] && self.chunks@[j] == before[j + 1]);
                }
            }
            assert forall|i: int| 0 <= i < self.chunks@.len() implies o.contains(
                #[trigger] self.chunks@[i],
            ) by {
                assert(self.chunks@[i] == before[i + 1]);
            }
            assert(o.contains(c)) by {
                assert(before[0] == c);
            }
            let off = tsn_distance(base, c.tsn);
            if !(1 <= off && off <= d) {
                let ghost kb = kept@;
                kept.push(c);
                assert forall|u: u32| #[trigger] seq_has_tsn(kept@, u) == (seq_has_tsn(kb, u) || u == t) by {
                    if seq_has_tsn(kb, u) {
                        let k = choose|k: int| 0 <= k < kb.len() && kb[k].tsn == u;
                        assert(kept@[k].tsn == u);
                    }
                    if u == t {
                        assert(kept@[kb.len() as int].tsn == u);
                    }
                    if seq_has_tsn(kept@, u) && u != t {
                        let k = choose|k: int| 0 <= k < kept@.len() && kept@[k].tsn == u;
                        assert(kb[k].tsn == u);
                    }
                }
                assert(unique_tsns(kept@)) by {
                    assert forall|i: int, j: int|
                        0 <= i < kept@.len() && 0 <= j < kept@.len() && i != j implies kept@[i].tsn
                        != kept@[j].tsn by {
                        if i == kb.len() {
                            assert(seq_has_tsn(kb, kept@[j].tsn));
                        } else if j == kb.len() {
                            assert(seq_has_tsn(kb, kept@[i].tsn));
                        }
                    }
                }
                assert forall|i: int| 0 <= i < kept@.len() implies o.contains(#[trigger] kept@[i]) by {
                    if i < kb.len() {
                        assert(kept@[i] == kb[i]);
                    }
                }
            }
        }
        self.chunks = kept;
    }

    /// Marks as acknowledged every fragment that a block of `blocks`
    /// reports, relative to `cum`.
    pub fn mark_gap_acked(&mut self, cum: u32, blocks: &Vec<GapAckBlock>)
        requires
            old(self).wf(),
        ensures
            final(self).wf(),
            final(self)@.len() == old(self)@.len(),
            forall|i: int|
                0 <= i < old(self)@.len() ==> #[trigger] final(self)@[i] == if gap_acked(
                    blocks@,
                    cum,
                    old(self)@[i].tsn,
                ) {
                    with_acked(old(self)@[i])
                } else {
                    old(self)@[i]
                },
    {
        let n = self.chunks.len();
        let mut i: usize = 0;
        while i < n
            invariant
                i <= n == old(self)@.len() == self.chunks@.len(),
                forall|j: int|
                    0 <= j < i ==> #[trigger] self.chunks@[j] == if gap_acked(
                        blocks@,
                        cum,
                        old(self)@[j].tsn,
                    ) {
                        with_acked(old(self)@[j])
                    } else {
                        old(self)@[j]
                    },
                forall|j: int| i <= j < n ==> #[trigger] self.chunks@[j] == old(self)@[j],
            decreases n - i,
        {
            if in_gap_blocks(blocks, cum, self.chunks[i].tsn) {
                let mut c = self.chunks.remove(i);
                c.acked = true;
                self.chunks.insert(i, c);
            }
            i = i + 1;
        }
        assert forall|a: int, b: int|
            0 <= a < self@.len() && 0 <= b < self@.len() && a != b implies self@[a].tsn
            != self@[b].tsn by {
            assert(self@[a].tsn == old(self)@[a].tsn);
            assert(self@[b].tsn == old(self)@[b].tsn);
        }
    }

    /// Counts one more miss for every fragment the SACK reports missing,
    /// `highest` being how far past `cum` its highest reported TSN lies, and
    /// returns the TSNs now due for fast retransmission, in queue order.
    pub fn note_misses(&mut self, cum: u32, highest: u32) -> (r: Vec<u32>)
        requires
            old(self).wf(),
        ensures
            final(self).wf(),
            final(self)@.len() == old(self)@.len(),
            forall|i: int|
                0 <= i < old(self)@.len() ==> #[trigger] final(self)@[i] == if reported_missing(
                    old(self)@[i],
                    cum,
                    highest as int,
                ) {
                    with_miss(old(self)@[i])
                } else {
                    old(self)@[i]
                },
            r@ == newly_due(old(self)@, final(self)@),
    {
        let n = self.chunks.len();
        let mut due: Vec<u32> = Vec::new();
        let mut i: usize = 0;
        while i < n
            invariant
                i <= n == old(self)@.len() == self.chunks@.len(),
                forall|j: int|
                    0 <= j < i ==> #[trigger] self.chunks@[j] == if reported_missing(
                        old(self)@[j],
                        cum,
                        highest as int,
                    ) {
                        with_miss(old(self)@[j])
                    } else {
                        old(self)@[j]
                    },
                forall|j: int| i <= j < n ==> #[trigger] self.chunks@[j] == old(self)@[j],
                due@ == newly_due(old(self)@.take(i as int), self.chunks@.take(i as int)),
            decreases n - i,
        {
            let ghost before = self.chunks@;
            if !self.chunks[i].acked && tsn_distance(cum, self.chunks[i].tsn) < highest {
                let mut c = self.chunks.remove(i);
                if c.miss_indicator < u32::MAX {
                    c.miss_indicator = c.miss_indicator + 1;
                }
                let reached = c.miss_indicator == FAST_RTX_MISSES;
                let t = c.tsn;
                self.chunks.insert(i, c);
                if reached {
                    due.push(t);
                }
            }
            assert(old(self)@.take(i + 1).drop_last() =~= old(self)@.take(i as int));
            assert(self.chunks@.take(i + 1).drop_last() =~= before.take(i as int));
            i = i + 1;
        }
        assert(old(self)@.take(n as int) =~= old(self)@);
        assert(self.chunks@.take(n as int) =~= self.chunks@);
        assert forall|a: int, b: int|
            0 <= a < self@.len() && 0 <= b < self@.len() && a != b implies self@[a].tsn
            != self@[b].tsn by {
            assert(self@[a].tsn == old(self)@[a].tsn);
            assert(self@[b].tsn == old(self)@[b].tsn);
        }
        due
    }

    /// TSNs of the fragments neither acknowledged nor abandoned, in queue
    /// order.
    pub fn unacked_tsns(&self) -> (r: Vec<u32>)
        ensures
            r@ == unacked(self@),
    {
        let mut r: Vec<u32> = Vec::new();
        let mut i: usize = 0;
        while i < self.chunks.len()
            invariant
                i <= self@.len(),
                self.chunks@ == self@,
                r@ == unacked(self@.take(i as int)),
            decreases self@.len() - i,
        {
            assert(self@.take(i + 1).drop_last() =~= self@.take(i as int));
            if !self.chunks[i].acked && !self.chunks[i].abandoned {
                r.push(self.chunks[i].tsn);
            }
            i = i + 1;
        }
        assert(self@.take(self@.len() as int) =~= self@);
        r
    }
}

/// TSNs of the fragments of `s` neither acknowledged nor abandoned, in order.
pub open spec fn unacked(s: Seq<ChunkPayloadData>) -> Seq<u32>
    decreases s.len(),
{
    if s.len() == 0 {
        Seq::empty()
    } else if !s.last().acked && !s.last().abandoned {
        unacked(s.drop_last()).push(s.last().tsn)
    } else {
        unacked(s.drop_last())
    }
}

/// Each TSN `unacked` lists belongs to a fragment neither acknowledged nor
/// abandoned.
pub proof fn lemma_unacked_member(s: Seq<ChunkPayloadData>, k: int)
    requires
        0 <= k < unacked(s).len(),
    ensures
        exists|i: int|
            0 <= i < s.len() && #[trigger] s[i].tsn == unacked(s)[k] && !s[i].acked
                && !s[i].abandoned,
    decreases s.len(),
{
    let p = s.drop_last();
    if !s.last().acked && !s.last().abandoned && k == unacked(s).len() - 1 {
        assert(s[s.len() - 1].tsn == unacked(s)[k]);
    } else {
        lemma_unacked_member(p, k);
        let i = choose|i: int|
            0 <= i < p.len() && #[trigger] p[i].tsn == unacked(p)[k] && !p[i].acked
                && !p[i].abandoned;
        assert(s[i].tsn == unacked(s)[k]);
    }
}

/// Each TSN due for fast retransmission belongs to a fragment that is still
/// unacknowledged after the SACK.
pub proof fn lemma_newly_due_unacked(
    old: Seq<ChunkPayloadData>,
    new: Seq<ChunkPayloadData>,
    cum: u32,
    highest: int,
    k: int,
)
    requires
        new.len() == old.len(),
        forall|i: int|
            0 <= i < old.len() ==> #[trigger] new[i] == if reported_missing(old[i], cum, highest) {
                with_miss(old[i])
            } else {
                old[i]
            },
        0 <= k < newly_due(old, new).len(),
    ensures
        exists|i: int|
            0 <= i < new.len() && #[trigger] new[i].tsn == newly_due(old, new)[k] && !new[i].acked,
    decreases old.len(),
{
    let n = old.len() - 1;
    let rest = newly_due(old.drop_last(), new.drop_last());
    if old[n].miss_indicator < FAST_RTX_MISSES && new[n].miss_indicator == FAST_RTX_MISSES && k
        == rest.len() {
        assert(new[n].tsn == newly_due(old, new)[k]);
    } else {
        assert forall|i: int| 0 <= i < old.drop_last().len() implies #[trigger] new.drop_last()[i]
            == if reported_missing(old.drop_last()[i], cum, highest) {
            with_miss(old.drop_last()[i])
        } else {
            old.drop_last()[i]
        } by {
            assert(new.drop_last()[i] == new[i] && old.drop_last()[i] == old[i]);
        }
        lemma_newly_due_unacked(old.drop_last(), new.drop_last(), cum, highest, k);
        let i = choose|i: int|
            0 <= i < new.drop_last().len() && #[trigger] new.drop_last()[i].tsn == rest[k]
                && !new.drop_last()[i].acked;
        assert(new[i] == new.drop_last()[i]);
    }
}

} // verus!
