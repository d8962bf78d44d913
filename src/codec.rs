//! Big-endian integer fields, as they stand on the wire.
use vstd::prelude::*;

verus! {

pub open spec fn be16(s: Seq<u8>, i: int) -> u16 {
    (s[i] as int * 256 + s[i + 1] as int) as u16
}

pub open spec fn be32(s: Seq<u8>, i: int) -> u32 {
    (s[i] as int * 0x100_0000 + s[i + 1] as int * 0x1_0000 + s[i + 2] as int * 0x100
        + s[i + 3] as int) as u32
}

pub open spec fn u16_bytes(x: u16) -> Seq<u8> {
    seq![(x / 256) as u8, (x % 256) as u8]
}

pub open spec fn u32_bytes(x: u32) -> Seq<u8> {
    seq![
        (x / 0x100_0000) as u8,
        ((x / 0x1_0000) % 256) as u8,
        ((x / 0x100) % 256) as u8,
        (x % 256) as u8,
    ]
}

/// The 16-bit words of `s`, two bytes each; an odd last byte is ignored.
pub open spec fn u16s_of(s: Seq<u8>) -> Seq<u16> {
    Seq::new((s.len() / 2) as nat, |i: int| be16(s, 2 * i))
}

/// The bytes of a list of 16-bit words.
pub open spec fn bytes_of_u16s(v: Seq<u16>) -> Seq<u8> {
    Seq::new(
        (2 * v.len()) as nat,
        |i: int|
            if i % 2 == 0 {
                (v[i / 2] / 256) as u8
            } else {
                (v[i / 2] % 256) as u8
            },
    )
}

pub proof fn lemma_be16_of_bytes(x: u16, pre: Seq<u8>, post: Seq<u8>)
    ensures
        be16(pre + u16_bytes(x) + post, pre.len() as int) == x,
{
    let s = pre + u16_bytes(x) + post;
    assert(s[pre.len() as int] == (x / 256) as u8);
    assert(s[pre.len() as int + 1] == (x % 256) as u8);
}

pub proof fn lemma_be32_of_bytes(x: u32, pre: Seq<u8>, post: Seq<u8>)
    ensures
        be32(pre + u32_bytes(x) + post, pre.len() as int) == x,
{
    let s = pre + u32_bytes(x) + post;
    let n = pre.len() as int;
    assert(s[n] == (x / 0x100_0000) as u8);
    assert(s[n + 1] == ((x / 0x1_0000) % 256) as u8);
    assert(s[n + 2] == ((x / 0x100) % 256) as u8);
    assert(s[n + 3] == (x % 256) as u8);
    assert((x / 0x100_0000) as int * 0x100_0000 + ((x / 0x1_0000) % 256) as int * 0x1_0000
        + ((x / 0x100) % 256) as int * 0x100 + (x % 256) as int == x as int);
}

pub proof fn lemma_u16s_round_trip(v: Seq<u16>)
    ensures
        u16s_of(bytes_of_u16s(v)) =~= v,
        bytes_of_u16s(v).len() == 2 * v.len(),
{
    let b = bytes_of_u16s(v);
    assert forall|k: int| 0 <= k < v.len() implies #[trigger] u16s_of(b)[k] == v[k] by {
        assert((2 * k) / 2 == k);
        assert((2 * k + 1) / 2 == k);
        assert((2 * k) % 2 == 0);
        assert((2 * k + 1) % 2 == 1);
    }
}

/// Reads the big-endian word at `i`.
pub fn read_u16(s: &[u8], i: usize) -> (r: u16)
    requires
        i + 2 <= s@.len(),
    ensures
        r == be16(s@, i as int),
{
    (s[i] as u16) * 256 + s[i + 1] as u16
}

/// Reads the big-endian double word at `i`.
pub fn read_u32(s: &[u8], i: usize) -> (r: u32)
    requires
        i + 4 <= s@.len(),
    ensures
        r == be32(s@, i as int),
{
    (s[i] as u32) * 0x100_0000 + (s[i + 1] as u32) * 0x1_0000 + (s[i + 2] as u32) * 0x100
        + s[i + 3] as u32
}

pub fn write_u16(out: &mut Vec<u8>, x: u16)
    ensures
        final(out)@ == old(out)@ + u16_bytes(x),
{
    out.push((x / 256) as u8);
    out.push((x % 256) as u8);
    assert(final(out)@ =~= old(out)@ + u16_bytes(x));
}

pub fn write_u32(out: &mut Vec<u8>, x: u32)
    ensures
        final(out)@ == old(out)@ + u32_bytes(x),
{
    out.push((x / 0x100_0000) as u8);
    out.push(((x / 0x1_0000) % 256) as u8);
    out.push(((x / 0x100) % 256) as u8);
    out.push((x % 256) as u8);
    assert(final(out)@ =~= old(out)@ + u32_bytes(x));
}

/// Copies `s[start..end]`.
pub fn copy_bytes(s: &[u8], start: usize, end: usize) -> (r: Vec<u8>)
    requires
        start <= end <= s@.len(),
    ensures
        r@ == s@.subrange(start as int, end as int),
{
    let mut r: Vec<u8> = Vec::new();
    let mut i: usize = start;
    while i < end
        invariant
            start <= i <= end <= s@.len(),
            r@ == s@.subrange(start as int, i as int),
        decreases end - i,
    {
        r.push(s[i]);
        i = i + 1;
        assert(r@ =~= s@.subrange(start as int, i as int));
    }
    r
}

/// Appends every byte of `v`.
pub fn write_bytes(out: &mut Vec<u8>, v: &Vec<u8>)
    ensures
        final(out)@ == old(out)@ + v@,
{
    let mut i: usize = 0;
    while i < v.len()
        invariant
            i <= v@.len(),
            out@ == old(out)@ + v@.take(i as int),
        decreases v@.len() - i,
    {
        out.push(v[i]);
        i = i + 1;
        assert(out@ =~= old(out)@ + v@.take(i as int));
    }
    assert(v@.take(v@.len() as int) =~= v@);
}

/// The 16-bit words of `s[start..end]`.
pub fn read_u16s(s: &[u8], start: usize, end: usize) -> (r: Vec<u16>)
    requires
        start <= end <= s@.len(),
    ensures
        r@ == u16s_of(s@.subrange(start as int, end as int)),
{
    let ghost sub = s@.subrange(start as int, end as int);
    let n: usize = (end - start) / 2;
    let mut r: Vec<u16> = Vec::new();
    let mut k: usize = 0;
    while k < n
        invariant
            start <= end <= s@.len(),
            n == (end - start) / 2,
            sub == s@.subrange(start as int, end as int),
            k <= n,
            r@ == u16s_of(sub).take(k as int),
        decreases n - k,
    {
        let w = read_u16(s, start + 2 * k);
        assert(w == be16(sub, 2 * k as int));
        r.push(w);
        k = k + 1;
        assert(r@ =~= u16s_of(sub).take(k as int));
    }
    assert(u16s_of(sub).take(n as int) =~= u16s_of(sub));
    r
}

/// Appends the bytes of each word of `v`.
pub fn write_u16s(out: &mut Vec<u8>, v: &Vec<u16>)
    ensures
        final(out)@ == old(out)@ + bytes_of_u16s(v@),
{
    let mut i: usize = 0;
    while i < v.len()
        invariant
            i <= v@.len(),
            out@ == old(out)@ + bytes_of_u16s(v@.take(i as int)),
        decreases v@.len() - i,
    {
        let ghost before = out@;
        write_u16(out, v[i]);
        i = i + 1;
        assert forall|j: int| 0 <= j < 2 * i implies #[trigger] bytes_of_u16s(v@.take(i as int))[j]
            == (bytes_of_u16s(v@.take(i - 1)) + u16_bytes(v@[i - 1]))[j] by {
            if j < 2 * (i - 1) {
            } else {
                assert(j / 2 == i - 1);
            }
        }
        assert(out@ =~= old(out)@ + bytes_of_u16s(v@.take(i as int)));
    }
    assert(v@.take(v@.len() as int) =~= v@);
}

pub proof fn lemma_u16_bytes_of_be16(s: Seq<u8>, i: int)
    requires
        0 <= i,
        i + 2 <= s.len(),
    ensures
        u16_bytes(be16(s, i)) == s.subrange(i, i + 2),
{
    let x = be16(s, i);
    assert(x / 256 == s[i] as int && x % 256 == s[i + 1] as int);
    assert(u16_bytes(x) =~= s.subrange(i, i + 2));
}

pub proof fn lemma_u32_bytes_of_be32(s: Seq<u8>, i: int)
    requires
        0 <= i,
        i + 4 <= s.len(),
    ensures
        u32_bytes(be32(s, i)) == s.subrange(i, i + 4),
{
    let x = be32(s, i);
    let (a, b, c, d) = (s[i] as int, s[i + 1] as int, s[i + 2] as int, s[i + 3] as int);
    assert(x == a * 0x100_0000 + b * 0x1_0000 + c * 0x100 + d);
    assert(x / 0x100_0000 == a) by (nonlinear_arith)
        requires
            x == a * 0x100_0000 + b * 0x1_0000 + c * 0x100 + d,
            0 <= a < 256,
            0 <= b < 256,
            0 <= c < 256,
            0 <= d < 256,
    ;
    assert((x / 0x1_0000) % 256 == b) by (nonlinear_arith)
        requires
            x == a * 0x100_0000 + b * 0x1_0000 + c * 0x100 + d,
            0 <= a < 256,
            0 <= b < 256,
            0 <= c < 256,
            0 <= d < 256,
    ;
    assert((x / 0x100) % 256 == c) by (nonlinear_arith)
        requires
            x == a * 0x100_0000 + b * 0x1_0000 + c * 0x100 + d,
            0 <= a < 256,
            0 <= b < 256,
            0 <= c < 256,
            0 <= d < 256,
    ;
    assert(x % 256 == d) by (nonlinear_arith)
        requires
            x == a * 0x100_0000 + b * 0x1_0000 + c * 0x100 + d,
            0 <= a < 256,
            0 <= b < 256,
            0 <= c < 256,
            0 <= d < 256,
    ;
    assert(u32_bytes(x) =~= s.subrange(i, i + 4));
}

pub proof fn lemma_bytes_of_u16s_of(v: Seq<u8>)
    requires
        v.len() % 2 == 0,
    ensures
        bytes_of_u16s(u16s_of(v)) =~= v,
{
    let w = u16s_of(v);
    assert forall|j: int| 0 <= j < v.len() implies #[trigger] bytes_of_u16s(w)[j] == v[j] by {
        let k = j / 2;
        let x = be16(v, 2 * k);
        assert(x / 256 == v[2 * k] as int && x % 256 == v[2 * k + 1] as int);
        if j % 2 == 0 {
            assert(j == 2 * k);
        } else {
            assert(j == 2 * k + 1);
        }
    }
}

} // verus!
