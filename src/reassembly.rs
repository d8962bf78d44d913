//! Per-stream receive buffering: fragments become messages, and ordered
//! messages are read in SSN order.
use vstd::prelude::*;
use crate::chunk::ChunkPayloadData;
use crate::codec::write_bytes;
use crate::serial::{ssn_dist, ssn_lt, tsn_next, tsn_plus};

verus! {

/// The fragments form one message: a beginning fragment, middle ones, an
/// ending fragment, on consecutive TSNs, all of one stream and SSN.
pub open spec fn forms_message(s: Seq<ChunkPayloadData>) -> bool {
    &&& s.len() > 0
    &&& s[0].beginning_fragment
    &&& s.last().ending_fragment
    &&& forall|i: int| 0 < i < s.len() ==> !(#[trigger] s[i]).beginning_fragment
    &&& forall|i: int| 0 <= i < s.len() - 1 ==> !(#[trigger] s[i]).ending_fragment
    &&& forall|i: int|
        0 <= i < s.len() - 1 ==> (#[trigger] s[i + 1]).tsn == tsn_plus(s[i].tsn, 1)
    &&& forall|i: int|
        0 <= i < s.len() ==> (#[trigger] s[i]).stream_identifier == s[0].stream_identifier
            && s[i].stream_sequence_number == s[0].stream_sequence_number
}

/// The user data of the fragments, one after another.
pub open spec fn joined_data(s: Seq<ChunkPayloadData>) -> Seq<u8>
    decreases s.len(),
{
    if s.len() == 0 {
        Seq::empty()
    } else {
        joined_data(s.drop_last()) + s.last().user_data@
    }
}

/// The message the fragments carry, if they form one.
pub fn assemble(frags: &Vec<ChunkPayloadData>) -> (r: Option<Vec<u8>>)
    ensures
        r is Some <==> forms_message(frags@),
        r matches Some(d) ==> d@ == joined_data(frags@),
{
    let n = frags.len();
    if n == 0 || !frags[0].beginning_fragment || !frags[n - 1].ending_fragment {
        return None;
    }
    let mut data: Vec<u8> = Vec::new();
    let mut i: usize = 0;
    while i < n
        invariant
            n == frags@.len() > 0,
            frags@[0].beginning_fragment,
            frags@[n - 1].ending_fragment,
            i <= n,
            data@ == joined_data(frags@.take(i as int)),
            forall|j: int| 0 < j < i ==> !(#[trigger] frags@[j]).beginning_fragment,
            forall|j: int| 0 <= j < i && j < n - 1 ==> !(#[trigger] frags@[j]).ending_fragment,
            forall|j: int|
                0 <= j < i && j < n - 1 ==> (#[trigger] frags@[j + 1]).tsn == tsn_plus(
                    frags@[j].tsn,
                    1,
                ),
            forall|j: int|
                0 <= j < i ==> (#[trigger] frags@[j]).stream_identifier
                    == frags@[0].stream_identifier && frags@[j].stream_sequence_number
                    == frags@[0].stream_sequence_number,
        decreases n - i,
    {
        let c = &frags[i];
        if i > 0 && c.beginning_fragment {
            return None;
        }
        if i < n - 1 && (c.ending_fragment || frags[i + 1].tsn != tsn_next(c.tsn)) {
            return None;
        }
        if c.stream_identifier != frags[0].stream_identifier || c.stream_sequence_number
            != frags[0].stream_sequence_number {
            return None;
        }
        write_bytes(&mut data, &c.user_data);
        assert(frags@.take(i + 1).drop_last() =~= frags@.take(i as int));
        i = i + 1;
    }
    assert(frags@.take(n as int) =~= frags@);
    Some(data)
}

/// A complete message of a stream.
pub struct Message {
    pub ssn: u16,
    pub payload_type: u32,
    pub data: Vec<u8>,
}

pub open spec fn has_ssn(v: Seq<Message>, ssn: u16) -> bool {
    exists|i: int| 0 <= i < v.len() && (#[trigger] v[i]).ssn == ssn
}

/// The SSN after `a`, wrapping at 2^16.
pub open spec fn ssn_plus_one(a: u16) -> u16 {
    ((a as int + 1) % 0x1_0000) as u16
}

/// Complete ordered messages of one stream, read in SSN order.
pub struct ReassemblyQueue {
    pub stream_identifier: u16,
    /// The SSN the next read delivers.
    pub next_ssn: u16,
    /// Complete messages waiting for their turn.
    pub pending: Vec<Message>,
}

impl ReassemblyQueue {
    /// Every buffered message is at or after the next SSN to read, and no
    /// two share an SSN.
    pub open spec fn wf(&self) -> bool {
        &&& forall|i: int|
            0 <= i < self.pending@.len() ==> ssn_dist(self.next_ssn, (#[trigger] self.pending@[i]).ssn)
                < 0x8000
        &&& forall|i: int, j: int|
            0 <= i < self.pending@.len() && 0 <= j < self.pending@.len() && i != j
                ==> self.pending@[i].ssn != self.pending@[j].ssn
    }

    pub fn new(stream_identifier: u16) -> (r: Self)
        ensures
            r.stream_identifier == stream_identifier,
            r.next_ssn == 0,
            r.pending@.len() == 0,
            r.wf(),
    {
        ReassemblyQueue { stream_identifier, next_ssn: 0, pending: Vec::new() }
    }

    fn find(&self, ssn: u16) -> (r: Option<usize>)
        ensures
            r matches Some(i) ==> i < self.pending@.len() && self.pending@[i as int].ssn == ssn,
            r is None ==> !has_ssn(self.pending@, ssn),
    {
        let mut i: usize = 0;
        while i < self.pending.len()
            invariant
                i <= self.pending@.len(),
                forall|j: int| 0 <= j < i ==> (#[trigger] self.pending@[j]).ssn != ssn,
            decreases self.pending@.len() - i,
        {
            if self.pending[i].ssn == ssn {
                return Some(i);
            }
            i = i + 1;
        }
        None
    }

    /// Buffers a complete message unless its SSN is already buffered or lies
    /// before the next SSN to read; says whether it was buffered.
    pub fn push(&mut self, m: Message) -> (r: bool)
        requires
            old(self).wf(),
        ensures
            final(self).wf(),
            r == (!has_ssn(old(self).pending@, m.ssn) && ssn_dist(old(self).next_ssn, m.ssn)
                < 0x8000),
            final(self).next_ssn == old(self).next_ssn,
            final(self).stream_identifier == old(self).stream_identifier,
            r ==> final(self).pending@ == old(self).pending@.push(m),
            !r ==> final(self).pending@ == old(self).pending@,
    {
        let d: u16 = if m.ssn >= self.next_ssn {
            m.ssn - self.next_ssn
        } else {
            (u16::MAX - self.next_ssn) + m.ssn + 1
        };
        if d >= 0x8000 || self.find(m.ssn).is_some() {
            return false;
        }
        let ghost before = self.pending@;
        self.pending.push(m);
        assert forall|i: int, j: int|
            0 <= i < self.pending@.len() && 0 <= j < self.pending@.len() && i != j implies
            self.pending@[i].ssn != self.pending@[j].ssn by {
            if i < before.len() && j < before.len() {
                assert(self.pending@[i] == before[i] && self.pending@[j] == before[j]);
            } else if i < before.len() {
                assert(self.pending@[i] == before[i]);
            } else {
                assert(self.pending@[j] == before[j]);
            }
        }
        true
    }

    /// Delivers the message with the next SSN, if it is buffered, and moves
    /// on to the SSN after it.
    pub fn read(&mut self) -> (r: Option<Message>)
        requires
            old(self).wf(),
        ensures
            final(self).wf(),
            r is None <==> !has_ssn(old(self).pending@, old(self).next_ssn),
            r matches Some(m) ==> exists|i: int|
                0 <= i < old(self).pending@.len() && m == old(self).pending@[i]
                    && final(self).pending@ == old(self).pending@.remove(i),
            r is None ==> final(self).next_ssn == old(self).next_ssn && final(self).pending@
                == old(self).pending@,
            r matches Some(m) ==> m.ssn == old(self).next_ssn && final(self).next_ssn
                == ssn_plus_one(old(self).next_ssn) && final(self).pending@.len()
                == old(self).pending@.len() - 1,
            final(self).stream_identifier == old(self).stream_identifier,
    {
        match self.find(self.next_ssn) {
            Some(i) => {
                let ghost before = self.pending@;
                let m = self.pending.remove(i);
                let n = self.next_ssn;
                self.next_ssn = if self.next_ssn == u16::MAX {
                    0
                } else {
                    self.next_ssn + 1
                };
                assert(before[i as int] == m);
                assert forall|k: int| 0 <= k < self.pending@.len() implies ssn_dist(
                    self.next_ssn,
                    (#[trigger] self.pending@[k]).ssn,
                ) < 0x8000 by {
                    let o = if k < i { k } else { k + 1 };
                    assert(self.pending@[k] == before[o]);
                    assert(before[o].ssn != n);
                }
                assert forall|x: int, y: int|
                    0 <= x < self.pending@.len() && 0 <= y < self.pending@.len() && x != y implies
                    self.pending@[x].ssn != self.pending@[y].ssn by {
                    let ox = if x < i { x } else { x + 1 };
                    let oy = if y < i { y } else { y + 1 };
                    assert(self.pending@[x] == before[ox] && self.pending@[y] == before[oy]);
                }
                Some(m)
            },
            None => None,
        }
    }

    /// FORWARD-TSN skipped the ordered messages of this stream through
    /// `ssn`: reading resumes after it, unless it lies before the next SSN.
    pub fn forward_ssn(&mut self, ssn: u16)
        requires
            old(self).wf(),
        ensures
            final(self).wf(),
            final(self).stream_identifier == old(self).stream_identifier,
            ssn_dist(old(self).next_ssn, ssn) < 0x8000 ==> final(self).next_ssn == ssn_plus_one(
                ssn,
            ),
            ssn_dist(old(self).next_ssn, ssn) >= 0x8000 ==> final(self).next_ssn == old(
                self,
            ).next_ssn,
            ssn_dist(old(self).next_ssn, ssn) >= 0x8000 ==> final(self).pending@ == old(
                self,
            ).pending@,
            ssn_dist(old(self).next_ssn, ssn) < 0x8000 ==> forall|x: u16|
                #[trigger] has_ssn(final(self).pending@, x) == (has_ssn(old(self).pending@, x)
                    && ssn_dist(old(self).next_ssn, x) > ssn_dist(old(self).next_ssn, ssn)),
            forall|i: int|
                0 <= i < final(self).pending@.len() ==> old(self).pending@.contains(
                    #[trigger] final(self).pending@[i],
                ),
    {
        let d: u16 = if ssn >= self.next_ssn {
            ssn - self.next_ssn
        } else {
            (u16::MAX - self.next_ssn) + ssn + 1
        };
        if d < 0x8000 {
            let old_next = self.next_ssn;
            let mut kept: Vec<Message> = Vec::new();
            let ghost o = self.pending@;
            while self.pending.len() > 0
                invariant
                    self.stream_identifier == old(self).stream_identifier,
                    self.next_ssn == old_next == old(self).next_ssn,
                    o == old(self).pending@,
                    d as int == ssn_dist(old_next, ssn),
                    forall|i: int| 0 <= i < self.pending@.len() ==> o.contains(#[trigger] self.pending@[i]),
                    forall|i: int| 0 <= i < kept@.len() ==> o.contains(#[trigger] kept@[i]),
                    forall|i: int|
                        0 <= i < kept@.len() ==> ssn_dist(old_next, (#[trigger] kept@[i]).ssn) > d,
                    forall|i: int|
                        0 <= i < kept@.len() ==> ssn_dist(old_next, (#[trigger] kept@[i]).ssn) < 0x8000,
                    forall|i: int, j: int|
                        0 <= i < kept@.len() && 0 <= j < kept@.len() && i != j ==> kept@[i].ssn
                            != kept@[j].ssn,
                    forall|x: u16| #[trigger] has_ssn(kept@, x) ==> !has_ssn(self.pending@, x),
                    forall|i: int, j: int|
                        0 <= i < self.pending@.len() && 0 <= j < self.pending@.len() && i != j
                            ==> self.pending@[i].ssn != self.pending@[j].ssn,
                    forall|i: int|
                        0 <= i < self.pending@.len() ==> ssn_dist(old_next, (#[trigger] self.pending@[i]).ssn)
                            < 0x8000,
                    forall|x: u16| #[trigger]
                        has_ssn(o, x) == (has_ssn(self.pending@, x) || has_ssn(kept@, x) || (has_ssn(o, x)
                            && ssn_dist(old_next, x) <= d)),
                    forall|x: u16| has_ssn(kept@, x) ==> ssn_dist(old_next, x) > d,
                decreases self.pending@.len(),
            {
                let ghost before = self.pending@;
                let m = self.pending.remove(0);
                let ghost t = m.ssn;
                assert(before[0] == m);
                assert forall|k: int| 0 <= k < self.pending@.len() implies self.pending@[k] == before[k + 1] by {}
                assert forall|x: u16| #[trigger] has_ssn(before, x) == (has_ssn(self.pending@, x) || x == t) by {
                    if has_ssn(before, x) && x != t {
                        let k = choose|k: int| 0 <= k < before.len() && (#[trigger] before[k]).ssn == x;
                        assert(self.pending@[k - 1].ssn == x);
                    }
                    if has_ssn(self.pending@, x) {
                        let k = choose|k: int| 0 <= k < self.pending@.len() && (#[trigger] self.pending@[k]).ssn == x;
                        assert(before[k + 1].ssn == x);
                    }
                }
                assert(!has_ssn(self.pending@, t)) by {
                    if has_ssn(self.pending@, t) {
                        let k = choose|k: int| 0 <= k < self.pending@.len() && (#[trigger] self.pending@[k]).ssn == t;
                        assert(before[k + 1].ssn == t);
                    }
                }
                assert(o.contains(m));
                let md: u16 = if m.ssn >= old_next {
                    m.ssn - old_next
                } else {
                    (u16::MAX - old_next) + m.ssn + 1
                };
                if md > d {
                    let ghost kb = kept@;
                    kept.push(m);
                    assert forall|x: u16| #[trigger] has_ssn(kept@, x) == (has_ssn(kb, x) || x == t) by {
                        if has_ssn(kb, x) {
                            let k = choose|k: int| 0 <= k < kb.len() && (#[trigger] kb[k]).ssn == x;
                            assert(kept@[k].ssn == x);
                        }
                        if x == t {
                            assert(kept@[kb.len() as int].ssn == x);
                        }
                        if has_ssn(kept@, x) && x != t {
                            let k = choose|k: int| 0 <= k < kept@.len() && (#[trigger] kept@[k]).ssn == x;
                            assert(kb[k].ssn == x);
                        }
                    }
                    assert forall|i: int, j: int|
                        0 <= i < kept@.len() && 0 <= j < kept@.len() && i != j implies kept@[i].ssn
                        != kept@[j].ssn by {
                        if i == kb.len() {
                            assert(has_ssn(kb, kept@[j].ssn));
                        } else if j == kb.len() {
                            assert(has_ssn(kb, kept@[i].ssn));
                        }
                    }
                }
            }
            self.pending = kept;
            self.next_ssn = if ssn == u16::MAX {
                0
            } else {
                ssn + 1
            };
            assert forall|i: int| 0 <= i < self.pending@.len() implies ssn_dist(
                self.next_ssn,
                (#[trigger] self.pending@[i]).ssn,
            ) < 0x8000 by {}
        }
    }
}

/// On an ordered stream each read delivers the SSN after the one read
/// before it, which serially follows it: delivered SSNs strictly increase.
pub proof fn lemma_ordered_reads_increase(prev: u16)
    ensures
        ssn_lt(prev, ssn_plus_one(prev)),
{
}

} // verus!
