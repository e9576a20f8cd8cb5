//! Integer helpers for the fixed-point physics: absolute value, clamping,
//! and a floor square root, each with an exact contract.

use vstd::prelude::*;

verus! {

/// `r` is the square root of `n`, rounded down.
pub open spec fn is_isqrt(n: int, r: int) -> bool {
    0 <= r && r * r <= n && n < (r + 1) * (r + 1)
}

/// The floor square root of `n` as a mathematical function.
pub open spec fn isqrt_spec(n: int) -> int {
    choose|r: int| is_isqrt(n, r)
}

/// Every nonnegative integer has a floor square root.
pub proof fn lemma_isqrt_exists(n: int)
    requires
        0 <= n,
    ensures
        is_isqrt(n, isqrt_spec(n)),
    decreases n,
{
    if n == 0 {
        assert(is_isqrt(0, 0));
    } else {
        lemma_isqrt_exists(n - 1);
        let r = isqrt_spec(n - 1);
        if n < (r + 1) * (r + 1) {
            assert(is_isqrt(n, r));
        } else {
            assert((r + 1) * (r + 1) < (r + 2) * (r + 2)) by (nonlinear_arith)
                requires 0 <= r;
            assert(is_isqrt(n, r + 1));
        }
    }
}

/// The floor square root is unique.
pub proof fn lemma_isqrt_unique(n: int, r1: int, r2: int)
    requires
        is_isqrt(n, r1),
        is_isqrt(n, r2),
    ensures
        r1 == r2,
{
    assert(r1 == r2) by (nonlinear_arith)
        requires
            0 <= r1,
            r1 * r1 <= n,
            n < (r1 + 1) * (r1 + 1),
            0 <= r2,
            r2 * r2 <= n,
            n < (r2 + 1) * (r2 + 1);
}

/// Floor square root of any value up to `i64::MAX`, by binary search.
pub fn isqrt(n: u64) -> (r: u64)
    requires
        n <= 0x7fff_ffff_ffff_ffff,
    ensures
        is_isqrt(n as int, r as int),
        r as int == isqrt_spec(n as int),
{
    let mut lo: u64 = 0;
    let mut hi: u64 = 3037000500;
    assert((3037000500 as int) * (3037000500 as int) == 9223372037000250000);
    while lo + 1 < hi
        invariant
            lo < hi <= 3037000500,
            (lo as int) * (lo as int) <= n as int,
            (n as int) < (hi as int) * (hi as int),
        decreases hi - lo,
    {
        let mid = lo + (hi - lo) / 2;
        assert((mid as int) * (mid as int) <= (3037000500 as int) * (3037000500 as int))
            by (nonlinear_arith)
            requires 0 <= mid as int <= 3037000500;
        if mid * mid <= n {
            lo = mid;
        } else {
            hi = mid;
        }
    }
    proof {
        lemma_isqrt_exists(n as int);
        lemma_isqrt_unique(n as int, lo as int, isqrt_spec(n as int));
    }
    lo
}

/// Absolute value as a mathematical function.
pub open spec fn sabs(v: int) -> int {
    if v < 0 { -v } else { v }
}

/// Absolute value of an `i64` away from the extreme point.
pub fn abs64(v: i64) -> (r: i64)
    requires
        v != i64::MIN,
    ensures
        r as int == sabs(v as int),
{
    if v < 0 { -v } else { v }
}

/// Squares ignore signs.
pub proof fn lemma_abs_sq(v: int)
    ensures
        sabs(v) * sabs(v) == v * v,
        v * v >= 0,
{
    assert((-v) * (-v) == v * v && v * v >= 0) by (nonlinear_arith);
}

/// A value whose magnitude is below a nonnegative bound has a square below
/// the bound's square.
pub proof fn lemma_sq_lt(v: int, b: int)
    requires
        0 <= b,
        sabs(v) < b,
    ensures
        v * v < b * b,
{
    lemma_abs_sq(v);
    assert(sabs(v) * sabs(v) < b * b) by (nonlinear_arith)
        requires 0 <= sabs(v) < b;
}

/// A value whose magnitude reaches a nonnegative bound has a square at or
/// above the bound's square.
pub proof fn lemma_sq_ge(v: int, b: int)
    requires
        0 <= b <= sabs(v),
    ensures
        v * v >= b * b,
{
    lemma_abs_sq(v);
    assert(sabs(v) * sabs(v) >= b * b) by (nonlinear_arith)
        requires 0 <= b <= sabs(v);
}

/// Clamp `v` into the symmetric interval `[-b, b]`.
pub open spec fn clamp_spec(v: int, b: int) -> int {
    if v > b { b } else if v < -b { -b } else { v }
}

/// Clamp a wide intermediate value back into `[-b, b]` in `i64`.
pub fn clamp128(v: i128, b: i64) -> (r: i64)
    requires
        0 <= b,
    ensures
        r as int == clamp_spec(v as int, b as int),
{
    if v > b as i128 {
        b
    } else if v < -(b as i128) {
        -b
    } else {
        v as i64
    }
}

} // verus!
