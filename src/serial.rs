//! Serial number arithmetic (RFC 1982) on 32-bit TSNs and 16-bit SSNs.
use vstd::prelude::*;

verus! {

/// Size of the TSN space.
pub open spec fn tsn_modulus() -> int {
    0x1_0000_0000
}

/// Distance from `a` forward to `b` in the TSN space, in `[0, 2^32)`.
pub open spec fn tsn_dist(a: u32, b: u32) -> int {
    (b as int - a as int) % tsn_modulus()
}

/// `a` precedes `b`: `b` lies less than half the space ahead of `a`.
pub open spec fn tsn_lt(a: u32, b: u32) -> bool {
    0 < tsn_dist(a, b) < 0x8000_0000
}

pub open spec fn tsn_lte(a: u32, b: u32) -> bool {
    tsn_dist(a, b) < 0x8000_0000
}

/// The TSN `k` steps after `a`.
pub open spec fn tsn_plus(a: u32, k: int) -> u32 {
    ((a as int + k) % tsn_modulus()) as u32
}

/// Distance from `a` forward to `b` in the SSN space, in `[0, 2^16)`.
pub open spec fn ssn_dist(a: u16, b: u16) -> int {
    (b as int - a as int) % 0x1_0000
}

pub open spec fn ssn_lt(a: u16, b: u16) -> bool {
    0 < ssn_dist(a, b) < 0x8000
}

/// Forward distance from `a` to `b`, modulo 2^32.
pub fn tsn_distance(a: u32, b: u32) -> (r: u32)
    ensures
        r as int == tsn_dist(a, b),
{
    if b >= a {
        b - a
    } else {
        (u32::MAX - a) + b + 1
    }
}

/// Serial "less than" on TSNs.
pub fn sna32_lt(a: u32, b: u32) -> (r: bool)
    ensures
        r == tsn_lt(a, b),
{
    let d = tsn_distance(a, b);
    0 < d && d < 0x8000_0000
}

/// Serial "less than or equal" on TSNs.
pub fn sna32_lte(a: u32, b: u32) -> (r: bool)
    ensures
        r == tsn_lte(a, b),
{
    tsn_distance(a, b) < 0x8000_0000
}

/// Serial "less than" on SSNs.
pub fn sna16_lt(a: u16, b: u16) -> (r: bool)
    ensures
        r == ssn_lt(a, b),
{
    let d: u16 = if b >= a {
        b - a
    } else {
        (u16::MAX - a) + b + 1
    };
    0 < d && d < 0x8000
}

/// The TSN after `a`, wrapping at 2^32.
pub fn tsn_next(a: u32) -> (r: u32)
    ensures
        r == tsn_plus(a, 1),
{
    if a == u32::MAX {
        0
    } else {
        a + 1
    }
}

/// `tsn_plus` composes: stepping `j` then `k` is stepping `j + k`.
pub proof fn lemma_tsn_plus_plus(a: u32, j: int, k: int)
    requires
        j >= 0,
        k >= 0,
    ensures
        tsn_plus(tsn_plus(a, j), k) == tsn_plus(a, j + k),
{
    assert(tsn_plus(tsn_plus(a, j), k) == tsn_plus(a, j + k)) by (nonlinear_arith)
        requires j >= 0, k >= 0;
}

/// Stepping from `a` by the distance to `b` lands on `b`.
pub proof fn lemma_tsn_plus_dist(a: u32, b: u32)
    ensures
        tsn_plus(a, tsn_dist(a, b)) == b,
        0 <= tsn_dist(a, b) < tsn_modulus(),
{
}

/// The distance from `a` to the TSN `k` steps after it is `k`, for `k` in range.
pub proof fn lemma_tsn_dist_plus(a: u32, k: int)
    requires
        0 <= k < tsn_modulus(),
    ensures
        tsn_dist(a, tsn_plus(a, k)) == k,
{
}

/// A TSN that is not at or before `p` lies in the half space after it.
pub proof fn lemma_not_lte_after(t: u32, p: u32)
    requires
        !tsn_lte(t, p),
    ensures
        1 <= tsn_dist(p, t) <= 0x8000_0000,
{
}

/// Moving the start `k` steps towards `t` shortens the distance by `k`.
pub proof fn lemma_tsn_dist_shift(a: u32, k: int, t: u32)
    requires
        0 <= k <= tsn_dist(a, t),
    ensures
        tsn_dist(tsn_plus(a, k), t) == tsn_dist(a, t) - k,
{
    if a as int + k >= tsn_modulus() {
        assert(tsn_plus(a, k) as int == a as int + k - tsn_modulus());
    } else {
        assert(tsn_plus(a, k) as int == a as int + k);
    }
}

} // verus!
