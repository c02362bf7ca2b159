//! Fixed-point arithmetic helpers: rounded division, a widened
//! multiply-then-divide, and an integer square root.

use vstd::prelude::*;
use vstd::arithmetic::div_mod::{
    lemma_div_is_ordered, lemma_div_pos_is_pos, lemma_fundamental_div_mod_converse,
};
use vstd::arithmetic::mul::lemma_mul_inequality;

verus! {

/// Magnitude bound on the coordinates the geometry operations accept; squares
/// of differences of such coordinates still fit in `i64`.
pub const COORD_BOUND: i64 = 1_050_000_000;

/// `a / b` rounded to the nearest integer, away from zero on exact halves
/// when `b` is even; with an odd `b` the half-unit resolves toward zero.
pub open spec fn round_div(a: int, b: int) -> int {
    if a >= 0 {
        (a + b / 2) / b
    } else {
        -((-a + b / 2) / b)
    }
}

/// Rounded division on machine integers.
pub fn round_div_i64(a: i64, b: i64) -> (r: i64)
    requires
        0 < b,
        -0x6fff_ffff_ffff_ffff <= a <= 0x6fff_ffff_ffff_ffff,
        b <= 0x0fff_ffff_ffff_ffff,
    ensures
        r == round_div(a as int, b as int),
{
    if a >= 0 {
        let q: u64 = ((a as u64) + (b as u64) / 2) / (b as u64);
        q as i64
    } else {
        let q: u64 = (((-a) as u64) + (b as u64) / 2) / (b as u64);
        -(q as i64)
    }
}

/// `a * b / d` rounded to the nearest integer, computed without overflow
/// through a widened intermediate product.
pub fn mul_div_round(a: i64, b: i64, d: i64) -> (r: i64)
    requires
        0 < d,
        -0x7fff_ffff_ffff_ffff <= round_div(a as int * b as int, d as int)
            <= 0x7fff_ffff_ffff_ffff,
    ensures
        r == round_div(a as int * b as int, d as int),
{
    proof {
        lemma_mul_bounds(a as int, b as int, 0x8000_0000_0000_0000);
    }
    let p: i128 = (a as i128) * (b as i128);
    if p >= 0 {
        let q: u128 = ((p as u128) + (d as u128) / 2) / (d as u128);
        assert(q == round_div(a as int * b as int, d as int));
        q as i64
    } else {
        let q: u128 = (((-p) as u128) + (d as u128) / 2) / (d as u128);
        assert(-(q as int) == round_div(a as int * b as int, d as int));
        -(q as i64)
    }
}

/// `r` is the floor of the square root of `n`.
pub open spec fn is_isqrt(n: int, r: int) -> bool {
    0 <= r && r * r <= n && n < (r + 1) * (r + 1)
}

/// The floor of the square root of `n`, as a mathematical value.
pub open spec fn spec_isqrt(n: int) -> int {
    choose|r: int| is_isqrt(n, r)
}

/// The product of `a >= 0` with a factor of magnitude at most `m` has
/// magnitude at most `a * m`.
pub proof fn lemma_mul_abs_bound(a: int, b: int, m: int)
    requires
        0 <= a,
        -m <= b <= m,
    ensures
        -(a * m) <= a * b <= a * m,
{
    assert(-(a * m) <= a * b <= a * m) by (nonlinear_arith)
        requires
            0 <= a,
            -m <= b <= m,
    ;
}

/// A rounded division of a value of magnitude at most `m * d` yields a
/// quotient of magnitude at most `m`.
pub proof fn lemma_round_div_bound(x: int, d: int, m: int)
    requires
        1 <= d,
        0 <= m,
        -(m * d) <= x <= m * d,
    ensures
        -m <= round_div(x, d) <= m,
{
    let h = d / 2;
    if x >= 0 {
        assert(x + h <= m * d + (d - 1));
        lemma_fundamental_div_mod_converse(m * d + (d - 1), d, m, d - 1);
        lemma_div_is_ordered(x + h, m * d + (d - 1), d);
        lemma_div_pos_is_pos(x + h, d);
    } else {
        assert(-x + h <= m * d + (d - 1));
        lemma_fundamental_div_mod_converse(m * d + (d - 1), d, m, d - 1);
        lemma_div_is_ordered(-x + h, m * d + (d - 1), d);
        lemma_div_pos_is_pos(-x + h, d);
    }
}

proof fn lemma_mul_bounds(a: int, b: int, m: int)
    requires
        0 <= m,
        -m <= a <= m,
        -m <= b <= m,
    ensures
        -(m * m) <= a * b <= m * m,
{
    assert(-(m * m) <= a * b <= m * m) by (nonlinear_arith)
        requires
            0 <= m,
            -m <= a <= m,
            -m <= b <= m,
    ;
}

proof fn lemma_sq_le(x: int, y: int)
    requires
        0 <= x <= y,
    ensures
        x * x <= y * y,
{
    lemma_mul_inequality(x, y, x);
    lemma_mul_inequality(x, y, y);
}

/// A floor square root is unique.
pub proof fn lemma_isqrt_unique(n: int, r1: int, r2: int)
    requires
        is_isqrt(n, r1),
        is_isqrt(n, r2),
    ensures
        r1 == r2,
{
    if r1 < r2 {
        lemma_sq_le(r1 + 1, r2);
    }
    if r2 < r1 {
        lemma_sq_le(r2 + 1, r1);
    }
}

/// Any witness of `is_isqrt` is the value `spec_isqrt` names.
pub proof fn lemma_isqrt_is(n: int, r: int)
    requires
        is_isqrt(n, r),
    ensures
        spec_isqrt(n) == r,
{
    assert(is_isqrt(n, spec_isqrt(n))) by {
        assert(exists|x: int| is_isqrt(n, x));
    }
    lemma_isqrt_unique(n, r, spec_isqrt(n));
}

/// A floor square root of a value below `m * m` is below `m`.
pub proof fn lemma_isqrt_lt(n: int, r: int, m: int)
    requires
        is_isqrt(n, r),
        0 <= m,
        n < m * m,
    ensures
        r < m,
{
    if r >= m {
        lemma_sq_le(m, r);
    }
}

/// Integer square root by bisection.
pub fn isqrt(n: i64) -> (r: i64)
    requires
        0 <= n,
    ensures
        is_isqrt(n as int, r as int),
        r == spec_isqrt(n as int),
        0 <= r <= 3_037_000_499,
{
    let mut lo: u64 = 0;
    let mut hi: u64 = 3_037_000_500;
    proof {
        assert(3_037_000_500i64 as int * 3_037_000_500 > i64::MAX as int) by (nonlinear_arith);
        lemma_sq_le(0, 1);
    }
    while lo + 1 < hi
        invariant
            0 <= n,
            lo < hi <= 3_037_000_500,
            (lo as int) * (lo as int) <= n as int,
            (n as int) < (hi as int) * (hi as int),
        decreases hi - lo,
    {
        let mid: u64 = lo + (hi - lo) / 2;
        proof {
            lemma_mul_bounds(mid as int, mid as int, 3_037_000_500);
        }
        let sq: u128 = (mid as u128) * (mid as u128);
        if sq <= n as u128 {
            lo = mid;
        } else {
            hi = mid;
        }
    }
    proof {
        lemma_isqrt_is(n as int, lo as int);
    }
    lo as i64
}

} // verus!
