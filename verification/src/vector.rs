//! Vector value types and componentwise operations.
//!
//! Components are fixed-point scalars (see [`crate::fixed`]). `Vec2`
//! holds a canvas-plane coordinate in whole pixels; `Vec3` holds a
//! world-space point or direction in fixed-point units.

use vstd::prelude::*;
use crate::fixed::{tdiv, fxdiv_s, isqrt_s, is_isqrt, fxdiv, isqrt, lemma_isqrt,
    lemma_tdiv_in_bounds, lemma_tdiv_nonneg, SCALE};

verus! {

/// A canvas-plane coordinate, in whole pixels measured from the centre.
#[derive(Clone, Copy, Debug, PartialEq, Eq, Structural)]
pub struct Vec2 {
    pub x: i64,
    pub y: i64,
}

/// A world-space point or direction, in fixed-point units.
#[derive(Clone, Copy, Debug, PartialEq, Eq, Structural)]
pub struct Vec3 {
    pub x: i64,
    pub y: i64,
    pub z: i64,
}

/// Every component of `v` is at most `b` in magnitude.
pub open spec fn bounded3(v: Vec3, b: int) -> bool {
    -b <= v.x <= b && -b <= v.y <= b && -b <= v.z <= b
}

/// Largest component magnitude accepted by the dot product and the
/// magnitude: three squares of it still fit an `i64` after rescaling.
pub const DOT_LIMIT: i64 = 17_000_000_000;

/// Bound on a dot product of `DOT_LIMIT`-bounded vectors: three times
/// the square of `DOT_LIMIT`, rescaled by `SCALE`.
pub const DOT_RESULT_LIMIT: i64 = 867_000_000_000_000_000;

/// Bound on the magnitude of a `DOT_LIMIT`-bounded vector.
pub const MAGNITUDE_LIMIT: i64 = 30_000_000_000;

/// Largest component magnitude of a well-formed scene coordinate,
/// radius or ray direction: one thousand world units.
pub const COORD_LIMIT: i64 = 1_000_000;

/// Dot product of two plane vectors, as a fixed-point scalar.
pub open spec fn dot2_s(v1: Vec2, v2: Vec2) -> int {
    tdiv(v1.x * v2.x + v1.y * v2.y, SCALE as int)
}

/// Dot product of two space vectors, as a fixed-point scalar.
pub open spec fn dot3_s(v1: Vec3, v2: Vec3) -> int {
    tdiv(v1.x * v2.x + v1.y * v2.y + v1.z * v2.z, SCALE as int)
}

/// Euclidean norm of a space vector: the rounded-down square root of
/// the rescaled self dot product.
pub open spec fn magnitude3_s(v: Vec3) -> int {
    isqrt_s(dot3_s(v, v) * (SCALE as int))
}

pub open spec fn sub3_s(v1: Vec3, v2: Vec3) -> Vec3 {
    Vec3 { x: (v1.x - v2.x) as i64, y: (v1.y - v2.y) as i64, z: (v1.z - v2.z) as i64 }
}

pub open spec fn add3_s(v1: Vec3, v2: Vec3) -> Vec3 {
    Vec3 { x: (v1.x + v2.x) as i64, y: (v1.y + v2.y) as i64, z: (v1.z + v2.z) as i64 }
}

pub open spec fn scalar_product3_s(v: Vec3, n: int) -> Vec3 {
    Vec3 {
        x: crate::fixed::fxmul_s(v.x as int, n) as i64,
        y: crate::fixed::fxmul_s(v.y as int, n) as i64,
        z: crate::fixed::fxmul_s(v.z as int, n) as i64,
    }
}

pub open spec fn scalar_div3_s(v: Vec3, n: int) -> Vec3 {
    Vec3 {
        x: fxdiv_s(v.x as int, n) as i64,
        y: fxdiv_s(v.y as int, n) as i64,
        z: fxdiv_s(v.z as int, n) as i64,
    }
}

/// `|x| <= bx` and `|y| <= by` bound the product by `c >= bx * by`.
proof fn lemma_product_bound(x: int, y: int, bx: int, by: int, c: int)
    requires
        -bx <= x <= bx,
        -by <= y <= by,
        bx * by <= c,
    ensures
        -c <= x * y <= c,
{
    assert(-c <= x * y <= c) by (nonlinear_arith)
        requires
            -bx <= x <= bx,
            -by <= y <= by,
            bx * by <= c;
}

/// Dot product of two plane vectors.
pub fn dot2(v1: &Vec2, v2: &Vec2) -> (r: i64)
    requires
        -(DOT_LIMIT as int) <= v1.x <= DOT_LIMIT as int,
        -(DOT_LIMIT as int) <= v1.y <= DOT_LIMIT as int,
        -(DOT_LIMIT as int) <= v2.x <= DOT_LIMIT as int,
        -(DOT_LIMIT as int) <= v2.y <= DOT_LIMIT as int,
    ensures
        r as int == dot2_s(*v1, *v2),
        -(DOT_RESULT_LIMIT as int) <= r <= DOT_RESULT_LIMIT as int,
{
    proof {
        lemma_product_bound(
            v1.x as int, v2.x as int, 17_000_000_000, 17_000_000_000, 289_000_000_000_000_000_000);
        lemma_product_bound(
            v1.y as int, v2.y as int, 17_000_000_000, 17_000_000_000, 289_000_000_000_000_000_000);
        lemma_tdiv_in_bounds(
            v1.x * v2.x + v1.y * v2.y, SCALE as int, DOT_RESULT_LIMIT as int);
    }
    let p: i128 = (v1.x as i128) * (v2.x as i128) + (v1.y as i128) * (v2.y as i128);
    let q: i128 = crate::fixed::tdiv_exec(p, SCALE as i128);
    q as i64
}

/// Dot product of two space vectors.
pub fn dot3(v1: &Vec3, v2: &Vec3) -> (r: i64)
    requires
        bounded3(*v1, DOT_LIMIT as int),
        bounded3(*v2, DOT_LIMIT as int),
    ensures
        r as int == dot3_s(*v1, *v2),
        -(DOT_RESULT_LIMIT as int) <= r <= DOT_RESULT_LIMIT as int,
{
    proof {
        lemma_product_bound(
            v1.x as int, v2.x as int, 17_000_000_000, 17_000_000_000, 289_000_000_000_000_000_000);
        lemma_product_bound(
            v1.y as int, v2.y as int, 17_000_000_000, 17_000_000_000, 289_000_000_000_000_000_000);
        lemma_product_bound(
            v1.z as int, v2.z as int, 17_000_000_000, 17_000_000_000, 289_000_000_000_000_000_000);
        lemma_tdiv_in_bounds(
            v1.x * v2.x + v1.y * v2.y + v1.z * v2.z, SCALE as int, DOT_RESULT_LIMIT as int);
    }
    let p: i128 = (v1.x as i128) * (v2.x as i128) + (v1.y as i128) * (v2.y as i128)
        + (v1.z as i128) * (v2.z as i128);
    let q: i128 = crate::fixed::tdiv_exec(p, SCALE as i128);
    q as i64
}

/// A dot product of vectors bounded by `b1` and `b2` is bounded by any
/// `c` whose rescaling covers the raw componentwise sum.
pub proof fn lemma_dot3_bound(v1: Vec3, v2: Vec3, b1: int, b2: int, c: int)
    requires
        bounded3(v1, b1),
        bounded3(v2, b2),
        0 <= c,
        3 * (b1 * b2) <= c * (SCALE as int),
    ensures
        -c <= dot3_s(v1, v2) <= c,
{
    lemma_product_bound(v1.x as int, v2.x as int, b1, b2, b1 * b2);
    lemma_product_bound(v1.y as int, v2.y as int, b1, b2, b1 * b2);
    lemma_product_bound(v1.z as int, v2.z as int, b1, b2, b1 * b2);
    lemma_tdiv_in_bounds(v1.x * v2.x + v1.y * v2.y + v1.z * v2.z, SCALE as int, c);
}

/// A self dot product is non-negative.
pub proof fn lemma_dot3_self_nonneg(v: Vec3)
    ensures
        0 <= dot3_s(v, v),
{
    assert(0 <= v.x * v.x + v.y * v.y + v.z * v.z) by (nonlinear_arith);
    lemma_tdiv_nonneg(v.x * v.x + v.y * v.y + v.z * v.z, SCALE as int);
}

/// Euclidean norm of a space vector, rounded down.
pub fn magnitude3(v: &Vec3) -> (r: i64)
    requires
        bounded3(*v, DOT_LIMIT as int),
    ensures
        r as int == magnitude3_s(*v),
        0 <= r <= MAGNITUDE_LIMIT as int,
        is_isqrt(dot3_s(*v, *v) * (SCALE as int), r as int),
{
    let d: i64 = dot3(v, v);
    proof {
        lemma_dot3_self_nonneg(*v);
        lemma_isqrt(d as int * (SCALE as int));
        assert(isqrt_s(d as int * (SCALE as int)) <= 30_000_000_000) by (nonlinear_arith)
            requires
                is_isqrt(d as int * (SCALE as int), isqrt_s(d as int * (SCALE as int))),
                d as int * (SCALE as int) <= 867_000_000_000_000_000_000;
    }
    let s: u64 = isqrt((d as u128) * (SCALE as u128));
    s as i64
}

/// No component of a vector exceeds its rounded-down Euclidean norm by
/// more than the fixed-point granularity allows.
pub proof fn lemma_component_le_magnitude(v: Vec3)
    ensures
        -(magnitude3_s(v) + 39) <= v.x <= magnitude3_s(v) + 39,
        -(magnitude3_s(v) + 39) <= v.y <= magnitude3_s(v) + 39,
        -(magnitude3_s(v) + 39) <= v.z <= magnitude3_s(v) + 39,
        0 <= magnitude3_s(v),
{
    let s = v.x * v.x + v.y * v.y + v.z * v.z;
    let d = dot3_s(v, v);
    lemma_dot3_self_nonneg(v);
    assert(0 <= v.x * v.x + v.y * v.y + v.z * v.z) by (nonlinear_arith);
    assert(d == s / (SCALE as int));
    vstd::arithmetic::div_mod::lemma_fundamental_div_mod(s, SCALE as int);
    vstd::arithmetic::div_mod::lemma_mod_bound(s, SCALE as int);
    assert(d * (SCALE as int) >= s - 999);
    let m = magnitude3_s(v);
    lemma_isqrt(d * (SCALE as int));
    assert((m + 1) * (m + 1) > s - 999);
    assert(v.x * v.x <= s && v.y * v.y <= s && v.z * v.z <= s) by (nonlinear_arith)
        requires
            s == v.x * v.x + v.y * v.y + v.z * v.z;
    lemma_square_slack(v.x as int, m, s);
    lemma_square_slack(v.y as int, m, s);
    lemma_square_slack(v.z as int, m, s);
}

/// From `(m + 1)^2 > s - 999`, `x^2 <= s` and `m >= 0` conclude that
/// `|x| <= m + 39`.
proof fn lemma_square_slack(x: int, m: int, s: int)
    requires
        m >= 0,
        x * x <= s,
        (m + 1) * (m + 1) > s - 999,
    ensures
        -(m + 39) <= x <= m + 39,
{
    assert(-(m + 39) <= x <= m + 39) by (nonlinear_arith)
        requires
            m >= 0,
            x * x <= s,
            (m + 1) * (m + 1) > s - 999;
}

/// Componentwise difference `v1 - v2`.
pub fn sub3(v1: &Vec3, v2: &Vec3) -> (r: Vec3)
    requires
        i64::MIN as int <= v1.x - v2.x <= i64::MAX as int,
        i64::MIN as int <= v1.y - v2.y <= i64::MAX as int,
        i64::MIN as int <= v1.z - v2.z <= i64::MAX as int,
    ensures
        r == sub3_s(*v1, *v2),
        r.x as int == v1.x - v2.x,
        r.y as int == v1.y - v2.y,
        r.z as int == v1.z - v2.z,
{
    Vec3 { x: v1.x - v2.x, y: v1.y - v2.y, z: v1.z - v2.z }
}

/// Componentwise sum `v1 + v2`.
pub fn add3(v1: &Vec3, v2: &Vec3) -> (r: Vec3)
    requires
        i64::MIN as int <= v1.x + v2.x <= i64::MAX as int,
        i64::MIN as int <= v1.y + v2.y <= i64::MAX as int,
        i64::MIN as int <= v1.z + v2.z <= i64::MAX as int,
    ensures
        r == add3_s(*v1, *v2),
        r.x as int == v1.x + v2.x,
        r.y as int == v1.y + v2.y,
        r.z as int == v1.z + v2.z,
{
    Vec3 { x: v1.x + v2.x, y: v1.y + v2.y, z: v1.z + v2.z }
}

/// Componentwise fixed-point product `v * n`.
pub fn scalar_product3(v1: &Vec3, n: i64) -> (r: Vec3)
    requires
        -(i64::MAX as int * (SCALE as int)) <= v1.x * n <= i64::MAX as int * (SCALE as int),
        -(i64::MAX as int * (SCALE as int)) <= v1.y * n <= i64::MAX as int * (SCALE as int),
        -(i64::MAX as int * (SCALE as int)) <= v1.z * n <= i64::MAX as int * (SCALE as int),
    ensures
        r == scalar_product3_s(*v1, n as int),
{
    Vec3 {
        x: crate::fixed::fxmul(v1.x, n),
        y: crate::fixed::fxmul(v1.y, n),
        z: crate::fixed::fxmul(v1.z, n),
    }
}

/// Componentwise fixed-point quotient `v / n`; `n` must be positive.
pub fn scalar_div3(v1: &Vec3, n: i64) -> (r: Vec3)
    requires
        n >= 1,
        -(i64::MAX as int) <= v1.x * (SCALE as int) <= i64::MAX as int,
        -(i64::MAX as int) <= v1.y * (SCALE as int) <= i64::MAX as int,
        -(i64::MAX as int) <= v1.z * (SCALE as int) <= i64::MAX as int,
    ensures
        r == scalar_div3_s(*v1, n as int),
{
    Vec3 { x: fxdiv(v1.x, n), y: fxdiv(v1.y, n), z: fxdiv(v1.z, n) }
}

} // verus!
