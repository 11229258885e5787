//! Fixed-point scalar arithmetic.
//!
//! A scalar is an `i64` holding one thousand times its value, so the
//! world-space quantity `1.5` is stored as `1500`. Multiplication and
//! division rescale with truncating (round-toward-zero) integer
//! division, and square roots round down; every operation is specified
//! exactly over mathematical integers.

use vstd::prelude::*;
use vstd::arithmetic::div_mod::*;
use vstd::arithmetic::mul::*;

verus! {

/// Number of fixed-point units in one world unit.
pub const SCALE: i64 = 1000;

/// Truncating (round-toward-zero) division, the behaviour of machine
/// division on signed integers. Only used with `b >= 1`.
pub open spec fn tdiv(a: int, b: int) -> int {
    if a >= 0 {
        a / b
    } else {
        -((-a) / b)
    }
}

/// Product of two fixed-point scalars.
pub open spec fn fxmul_s(x: int, y: int) -> int {
    tdiv(x * y, SCALE as int)
}

/// Quotient of two fixed-point scalars; only used with `y >= 1`.
pub open spec fn fxdiv_s(x: int, y: int) -> int {
    tdiv(x * (SCALE as int), y)
}

/// `r` is the integer square root of `n`, rounded down.
pub open spec fn is_isqrt(n: int, r: int) -> bool {
    0 <= r && r * r <= n && n < (r + 1) * (r + 1)
}

/// The integer square root of `n`, rounded down (meaningful for `n >= 0`).
pub open spec fn isqrt_s(n: int) -> int {
    choose|r: int| is_isqrt(n, r)
}

/// Truncating division by `b >= 1` keeps a quotient within any bound
/// that covers the dividend `b` times over.
pub proof fn lemma_tdiv_in_bounds(a: int, b: int, c: int)
    requires
        b >= 1,
        c >= 0,
        -(c * b) <= a <= c * b,
    ensures
        -c <= tdiv(a, b) <= c,
{
    if a >= 0 {
        lemma_div_pos_is_pos(a, b);
        lemma_div_is_ordered(a, c * b, b);
        lemma_div_by_multiple(c, b);
        assert(tdiv(a, b) == a / b);
    } else {
        lemma_div_pos_is_pos(-a, b);
        lemma_div_is_ordered(-a, c * b, b);
        lemma_div_by_multiple(c, b);
        assert(tdiv(a, b) == -((-a) / b));
    }
}

/// Negating the dividend negates a truncating quotient.
pub proof fn lemma_tdiv_neg(a: int, b: int)
    requires
        b >= 1,
    ensures
        tdiv(-a, b) == -tdiv(a, b),
{
    if a == 0 {
        lemma_div_of0(b);
    }
}

/// A non-negative dividend gives a non-negative truncating quotient.
pub proof fn lemma_tdiv_nonneg(a: int, b: int)
    requires
        a >= 0,
        b >= 1,
    ensures
        0 <= tdiv(a, b) <= a,
{
    lemma_div_pos_is_pos(a, b);
    lemma_div_nonincreasing(a, b);
}

/// Truncating quotients respect the order of non-negative dividends.
pub proof fn lemma_tdiv_ordered(a1: int, a2: int, b: int)
    requires
        0 <= a1 <= a2,
        b >= 1,
    ensures
        tdiv(a1, b) <= tdiv(a2, b),
{
    lemma_div_is_ordered(a1, a2, b);
}

/// Truncating division, computed through `i128::checked_div`.
pub fn tdiv_exec(a: i128, b: i128) -> (q: i128)
    requires
        b >= 1,
    ensures
        q as int == tdiv(a as int, b as int),
{
    proof {
        if a as int >= 0 {
            lemma_tdiv_nonneg(a as int, b as int);
        } else {
            lemma_tdiv_nonneg(-(a as int), b as int);
            lemma_tdiv_neg(a as int, b as int);
        }
    }
    match a.checked_div(b) {
        Some(q) => q,
        None => {
            proof {
                assert(false);
            }
            0
        },
    }
}

/// Fixed-point multiplication: `x * y`, rescaled by `SCALE`.
pub fn fxmul(x: i64, y: i64) -> (r: i64)
    requires
        -(i64::MAX as int * (SCALE as int)) <= x * y <= i64::MAX as int * (SCALE as int),
    ensures
        r as int == fxmul_s(x as int, y as int),
{
    let p: i128 = (x as i128) * (y as i128);
    let q: i128 = tdiv_exec(p, SCALE as i128);
    proof {
        lemma_tdiv_in_bounds(p as int, SCALE as int, i64::MAX as int);
    }
    q as i64
}

/// Fixed-point division: `x / y`, rescaled by `SCALE`; `y` must be positive.
pub fn fxdiv(x: i64, y: i64) -> (r: i64)
    requires
        y >= 1,
        -(i64::MAX as int) <= x * (SCALE as int) <= i64::MAX as int,
    ensures
        r as int == fxdiv_s(x as int, y as int),
{
    let p: i128 = (x as i128) * (SCALE as i128);
    let q: i128 = tdiv_exec(p, y as i128);
    proof {
        lemma_mul_inequality(1, y as int, i64::MAX as int);
        lemma_tdiv_in_bounds(p as int, y as int, i64::MAX as int);
    }
    q as i64
}

proof fn lemma_isqrt_exists(n: nat)
    ensures
        exists|r: int| is_isqrt(n as int, r),
    decreases n,
{
    if n == 0 {
        assert(is_isqrt(0, 0)) by (nonlinear_arith);
    } else {
        lemma_isqrt_exists((n - 1) as nat);
        let r = choose|r: int| #[trigger] is_isqrt(n as int - 1, r);
        if (r + 1) * (r + 1) <= n as int {
            assert(is_isqrt(n as int, r + 1)) by (nonlinear_arith)
                requires
                    r >= 0,
                    r * r <= n - 1,
                    n - 1 < (r + 1) * (r + 1),
                    (r + 1) * (r + 1) <= n as int;
        } else {
            assert(is_isqrt(n as int, r));
        }
    }
}

/// `isqrt_s(n)` really is the rounded-down square root of `n >= 0`.
pub proof fn lemma_isqrt(n: int)
    requires
        n >= 0,
    ensures
        is_isqrt(n, isqrt_s(n)),
{
    lemma_isqrt_exists(n as nat);
}

/// At most one integer satisfies the square-root characterisation.
pub proof fn lemma_isqrt_unique(n: int, r1: int, r2: int)
    requires
        is_isqrt(n, r1),
        is_isqrt(n, r2),
    ensures
        r1 == r2,
{
    assert(r1 == r2) by (nonlinear_arith)
        requires
            0 <= r1 && r1 * r1 <= n < (r1 + 1) * (r1 + 1),
            0 <= r2 && r2 * r2 <= n < (r2 + 1) * (r2 + 1);
}

/// The rounded-down square root respects the order of its arguments.
pub proof fn lemma_isqrt_ordered(n1: int, n2: int)
    requires
        0 <= n1 <= n2,
    ensures
        isqrt_s(n1) <= isqrt_s(n2),
{
    lemma_isqrt(n1);
    lemma_isqrt(n2);
    assert(isqrt_s(n1) <= isqrt_s(n2)) by (nonlinear_arith)
        requires
            n1 <= n2,
            is_isqrt(n1, isqrt_s(n1)),
            is_isqrt(n2, isqrt_s(n2));
}

/// Integer square root by binary search.
pub fn isqrt(n: u128) -> (r: u64)
    ensures
        r as int == isqrt_s(n as int),
        is_isqrt(n as int, r as int),
{
    let mut lo: u128 = 0;
    let mut hi: u128 = 0xffff_ffff_ffff_ffff;
    proof {
        assert((hi + 1) * (hi + 1) > n as int) by (nonlinear_arith)
            requires
                hi == 0xffff_ffff_ffff_ffffu128,
                n as int <= u128::MAX as int;
    }
    while lo < hi
        invariant
            lo <= hi <= 0xffff_ffff_ffff_ffffu128,
            lo * lo <= n as int,
            (n as int) < (hi + 1) * (hi + 1),
        decreases hi - lo,
    {
        let half: u128 = (hi - lo + 1) / 2;
        let mid: u128 = lo + half;
        proof {
            assert(mid * mid <= u128::MAX as int) by (nonlinear_arith)
                requires
                    0 <= mid <= 0xffff_ffff_ffff_ffffu128;
        }
        if mid * mid <= n {
            lo = mid;
        } else {
            hi = mid - 1;
        }
    }
    proof {
        lemma_isqrt(n as int);
        lemma_isqrt_unique(n as int, lo as int, isqrt_s(n as int));
    }
    lo as u64
}

} // verus!
