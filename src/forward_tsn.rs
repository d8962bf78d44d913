//! Which (stream, SSN) pairs a generated FORWARD-TSN lists.
use vstd::prelude::*;
use crate::chunk::{ChunkForwardTsnStream, ChunkPayloadData};
use crate::queue::{seq_at_tsn, seq_has_tsn};
use crate::serial::{ssn_lt, tsn_dist, tsn_plus};

verus! {

pub open spec fn has_si(v: Seq<ChunkForwardTsnStream>, si: u16) -> bool {
    exists|i: int| 0 <= i < v.len() && v[i].identifier == si
}

pub open spec fn si_pos(v: Seq<ChunkForwardTsnStream>, si: u16) -> int {
    choose|i: int| 0 <= i < v.len() && v[i].identifier == si
}

/// Each stream is listed at most once.
pub open spec fn distinct_sis(v: Seq<ChunkForwardTsnStream>) -> bool {
    forall|i: int, j: int|
        0 <= i < v.len() && 0 <= j < v.len() && i != j ==> v[i].identifier != v[j].identifier
}

/// Records `ssn` for `si`, keeping the serially greater one where `si` is
/// listed already.
pub open spec fn coalesce(v: Seq<ChunkForwardTsnStream>, si: u16, ssn: u16) -> Seq<
    ChunkForwardTsnStream,
> {
    if has_si(v, si) {
        if ssn_lt(v[si_pos(v, si)].sequence, ssn) {
            v.update(si_pos(v, si), ChunkForwardTsnStream { identifier: si, sequence: ssn })
        } else {
            v
        }
    } else {
        v.push(ChunkForwardTsnStream { identifier: si, sequence: ssn })
    }
}

/// The list built from `s` in order, one entry per stream.
pub open spec fn fwd_streams(s: Seq<(u16, u16)>) -> Seq<ChunkForwardTsnStream>
    decreases s.len(),
{
    if s.len() == 0 {
        Seq::empty()
    } else {
        coalesce(fwd_streams(s.drop_last()), s.last().0, s.last().1)
    }
}

/// How many TSNs after `cum` a walk up to `adv` may visit.
pub open spec fn walk_span(cum: u32, adv: u32) -> int {
    if 1 <= tsn_dist(cum, adv) <= 0x8000_0000 {
        tsn_dist(cum, adv)
    } else {
        0
    }
}

/// The `k` TSNs after `cum` are all in `q`.
pub open spec fn run_present(q: Seq<ChunkPayloadData>, cum: u32, k: int) -> bool {
    forall|j: int| 0 <= j < k ==> #[trigger] seq_has_tsn(q, tsn_plus(cum, j + 1))
}

/// The longest run of TSNs after `cum` held in `q`, at most `n` long.
pub open spec fn run_len(q: Seq<ChunkPayloadData>, cum: u32, n: int) -> int
    decreases n,
{
    if n <= 0 {
        0
    } else if run_present(q, cum, n) {
        n
    } else {
        run_len(q, cum, n - 1)
    }
}

/// (stream, SSN) of the first `k` fragments after `cum`.
pub open spec fn run_pairs(q: Seq<ChunkPayloadData>, cum: u32, k: int) -> Seq<(u16, u16)> {
    Seq::new(
        k as nat,
        |j: int|
            (
                seq_at_tsn(q, tsn_plus(cum, j + 1)).stream_identifier,
                seq_at_tsn(q, tsn_plus(cum, j + 1)).stream_sequence_number,
            ),
    )
}

/// The streams a FORWARD-TSN reports: fragments from `cum + 1` on, while
/// they are inflight, up to `adv`.
pub open spec fn forward_tsn_streams(q: Seq<ChunkPayloadData>, cum: u32, adv: u32) -> Seq<
    ChunkForwardTsnStream,
> {
    fwd_streams(walked_pairs(q, cum, adv))
}

/// (stream, SSN) of the fragments a FORWARD-TSN walks over.
pub open spec fn walked_pairs(q: Seq<ChunkPayloadData>, cum: u32, adv: u32) -> Seq<(u16, u16)> {
    run_pairs(q, cum, run_len(q, cum, walk_span(cum, adv)))
}

pub proof fn lemma_run_len_stops(q: Seq<ChunkPayloadData>, cum: u32, k: int, n: int)
    requires
        0 <= k < n,
        run_present(q, cum, k),
        !seq_has_tsn(q, tsn_plus(cum, k + 1)),
    ensures
        run_len(q, cum, n) == k,
    decreases n,
{
    if n - 1 > k {
        assert(!run_present(q, cum, n));
        lemma_run_len_stops(q, cum, k, n - 1);
    } else {
        assert(!run_present(q, cum, n));
        if k > 0 {
            assert(run_len(q, cum, k) == k);
        }
    }
}

pub proof fn lemma_coalesce_distinct(v: Seq<ChunkForwardTsnStream>, si: u16, ssn: u16)
    requires
        distinct_sis(v),
    ensures
        distinct_sis(coalesce(v, si, ssn)),
        forall|x: u16| #[trigger] has_si(coalesce(v, si, ssn), x) == (has_si(v, x) || x == si),
{
    let r = coalesce(v, si, ssn);
    assert(has_si(r, si)) by {
        if has_si(v, si) {
            assert(r[si_pos(v, si)].identifier == si);
        } else {
            assert(r[v.len() as int].identifier == si);
        }
    }
    assert forall|x: u16| #[trigger] has_si(r, x) == (has_si(v, x) || x == si) by {
        if has_si(v, x) {
            let i = choose|i: int| 0 <= i < v.len() && v[i].identifier == x;
            assert(r[i].identifier == x);
        }
        if has_si(r, x) && x != si {
            let i = choose|i: int| 0 <= i < r.len() && r[i].identifier == x;
            assert(v[i].identifier == x);
        }
    }
}

/// The generated list names each stream at most once, and names exactly the
/// streams of the walked fragments.
pub proof fn lemma_fwd_streams_distinct(s: Seq<(u16, u16)>)
    ensures
        distinct_sis(fwd_streams(s)),
        forall|x: u16|
            #[trigger] has_si(fwd_streams(s), x) <==> exists|j: int|
                0 <= j < s.len() && s[j].0 == x,
    decreases s.len(),
{
    if s.len() > 0 {
        let p = s.drop_last();
        lemma_fwd_streams_distinct(p);
        lemma_coalesce_distinct(fwd_streams(p), s.last().0, s.last().1);
        assert forall|x: u16|
            #[trigger] has_si(fwd_streams(s), x) <==> exists|j: int|
                0 <= j < s.len() && s[j].0 == x by {
            if exists|j: int| 0 <= j < p.len() && p[j].0 == x {
                let j = choose|j: int| 0 <= j < p.len() && p[j].0 == x;
                assert(s[j].0 == x);
            }
            if exists|j: int| 0 <= j < s.len() && s[j].0 == x {
                let j = choose|j: int| 0 <= j < s.len() && s[j].0 == x;
                if j < p.len() {
                    assert(p[j].0 == x);
                }
            }
        }
    }
}

/// The SSNs walked on any one stream lie within half the SSN space of each
/// other, so that serial order on them is plain order.
pub open spec fn ssns_close(s: Seq<(u16, u16)>) -> bool {
    forall|i: int, j: int|
        0 <= i < s.len() && 0 <= j < s.len() && s[i].0 == s[j].0 ==> -0x8000 < s[i].1 - s[j].1
            < 0x8000
}

/// The SSN listed for stream `x`.
pub open spec fn listed_ssn(v: Seq<ChunkForwardTsnStream>, x: u16) -> u16 {
    v[si_pos(v, x)].sequence
}

proof fn lemma_si_pos_unique(v: Seq<ChunkForwardTsnStream>, i: int)
    requires
        distinct_sis(v),
        0 <= i < v.len(),
    ensures
        si_pos(v, v[i].identifier) == i,
{
    assert(has_si(v, v[i].identifier));
}

/// Each stream the walk met is listed with the greatest SSN walked on it,
/// and every listed pair was walked, where each stream's SSNs lie within half
/// the SSN space.
pub proof fn lemma_fwd_streams_max(s: Seq<(u16, u16)>)
    requires
        ssns_close(s),
    ensures
        forall|j: int|
            0 <= j < s.len() ==> has_si(fwd_streams(s), #[trigger] s[j].0) && listed_ssn(
                fwd_streams(s),
                s[j].0,
            ) >= s[j].1,
        forall|i: int|
            #![trigger fwd_streams(s)[i]]
            0 <= i < fwd_streams(s).len() ==> exists|j: int|
                #![trigger s[j]]
                0 <= j < s.len() && s[j] == (
                    fwd_streams(s)[i].identifier,
                    fwd_streams(s)[i].sequence,
                ),
    decreases s.len(),
{
    if s.len() > 0 {
        let p = s.drop_last();
        assert(ssns_close(p)) by {
            assert forall|i: int, j: int|
                0 <= i < p.len() && 0 <= j < p.len() && p[i].0 == p[j].0 implies -0x8000 < p[i].1
                - p[j].1 < 0x8000 by {
                assert(p[i] == s[i] && p[j] == s[j]);
            }
        }
        lemma_fwd_streams_max(p);
        lemma_fwd_streams_distinct(p);
        lemma_fwd_streams_distinct(s);
        let v = fwd_streams(p);
        let r = fwd_streams(s);
        let last = s.len() - 1;
        let si = s[last].0;
        let ssn = s[last].1;
        assert(r == coalesce(v, si, ssn));
        lemma_coalesce_distinct(v, si, ssn);
        // Every listed pair was walked.
        assert forall|i: int| #![trigger r[i]] 0 <= i < r.len() implies exists|j: int|
            #![trigger s[j]]
            0 <= j < s.len() && s[j] == (r[i].identifier, r[i].sequence) by {
            if r[i] == (ChunkForwardTsnStream { identifier: si, sequence: ssn }) {
                assert(s[last] == (r[i].identifier, r[i].sequence));
            } else {
                assert(i < v.len() && r[i] == v[i]);
                let j = choose|j: int|
                    #![trigger p[j]]
                    0 <= j < p.len() && p[j] == (v[i].identifier, v[i].sequence);
                assert(s[j] == p[j]);
            }
        }
        // Each walked stream is listed with at least each walked SSN.
        assert forall|j: int| 0 <= j < s.len() implies has_si(r, #[trigger] s[j].0) && listed_ssn(
            r,
            s[j].0,
        ) >= s[j].1 by {
            let x = s[j].0;
            assert(has_si(r, x));
            let ri = si_pos(r, x);
            lemma_si_pos_unique(r, ri);
            if has_si(v, x) {
                let vi = si_pos(v, x);
                lemma_si_pos_unique(v, vi);
                assert(ri == vi || !has_si(v, x)) by {
                    if x != si || ri != vi {
                        assert(r[vi].identifier == x);
                        lemma_si_pos_unique(r, vi);
                    }
                }
            }
            if x == si {
                if has_si(v, si) {
                    let vi = si_pos(v, si);
                    let w = choose|w: int|
                        #![trigger p[w]]
                        0 <= w < p.len() && p[w] == (v[vi].identifier, v[vi].sequence);
                    assert(s[w] == p[w]);
                    assert(-0x8000 < s[w].1 - ssn < 0x8000);
                    if j < last {
                        assert(p[j] == s[j]);
                        assert(listed_ssn(v, x) >= s[j].1);
                    }
                } else {
                    if j < last {
                        assert(p[j] == s[j]);
                        assert(has_si(v, p[j].0));
                    }
                }
            } else {
                assert(j < last);
                assert(p[j] == s[j]);
                assert(has_si(v, x));
            }
        }
    }
}

/// A generated FORWARD-TSN lists each stream at most once, with the greatest
/// SSN walked on it, where each stream's SSNs lie within half the SSN space;
/// it lists no stream and no SSN that was not walked.
pub proof fn lemma_forward_tsn_coalescing(q: Seq<ChunkPayloadData>, cum: u32, adv: u32)
    requires
        ssns_close(walked_pairs(q, cum, adv)),
    ensures
        distinct_sis(forward_tsn_streams(q, cum, adv)),
        forall|j: int|
            0 <= j < walked_pairs(q, cum, adv).len() ==> has_si(
                forward_tsn_streams(q, cum, adv),
                #[trigger] walked_pairs(q, cum, adv)[j].0,
            ) && listed_ssn(forward_tsn_streams(q, cum, adv), walked_pairs(q, cum, adv)[j].0)
                >= walked_pairs(q, cum, adv)[j].1,
        forall|i: int|
            #![trigger forward_tsn_streams(q, cum, adv)[i]]
            0 <= i < forward_tsn_streams(q, cum, adv).len() ==> exists|j: int|
                #![trigger walked_pairs(q, cum, adv)[j]]
                0 <= j < walked_pairs(q, cum, adv).len() && walked_pairs(q, cum, adv)[j] == (
                    forward_tsn_streams(q, cum, adv)[i].identifier,
                    forward_tsn_streams(q, cum, adv)[i].sequence,
                ),
{
    lemma_fwd_streams_distinct(walked_pairs(q, cum, adv));
    lemma_fwd_streams_max(walked_pairs(q, cum, adv));
}

} // verus!
