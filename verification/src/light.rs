//! The light model: ambient, point and directional lights, and the
//! diffuse illumination of a surface point.

use vstd::prelude::*;
use crate::fixed::{fxmul_s, fxdiv_s, fxmul, fxdiv, lemma_tdiv_nonneg,
    lemma_tdiv_in_bounds, SCALE};
use crate::vector::{Vec3, bounded3, dot3_s, magnitude3_s, sub3_s, dot3, magnitude3, sub3,
    lemma_dot3_bound, COORD_LIMIT};
use crate::color::INTENSITY_CAP;

verus! {

/// A light source: ambient everywhere, a point source at a position,
/// or a directional source shining along a fixed direction.
pub enum Light {
    Ambient { intensity: i64 },
    Point { intensity: i64, position: Vec3 },
    Directional { intensity: i64, direction: Vec3 },
}

/// Largest intensity of a single well-formed light source.
pub const INTENSITY_LIMIT: i64 = 1_000_000;

/// Bound on the components of a normal handed to the lighting
/// computation; normalised vectors stay far below it.
pub const NORMAL_LIMIT: i64 = 40_000;

/// Bound on the components of a surface point handed to the lighting
/// computation.
pub const POINT_LIMIT: i64 = 6_000_000_000;

/// Bound on the components of a light direction: a position within
/// `COORD_LIMIT` minus a point within `POINT_LIMIT` always fits.
pub const DIR_LIMIT: i64 = 7_000_000_000;

/// A light with a non-negative bounded intensity and bounded geometry.
pub open spec fn light_wf(l: Light) -> bool {
    match l {
        Light::Ambient { intensity } => 0 <= intensity <= INTENSITY_LIMIT,
        Light::Point { intensity, position } =>
            0 <= intensity <= INTENSITY_LIMIT && bounded3(position, COORD_LIMIT as int),
        Light::Directional { intensity, direction } =>
            0 <= intensity <= INTENSITY_LIMIT && bounded3(direction, COORD_LIMIT as int),
    }
}

pub open spec fn lights_wf(lights: Seq<Light>) -> bool {
    forall|j: int| 0 <= j < lights.len() ==> #[trigger] light_wf(lights[j])
}

/// Contribution of a light shining along `dir` onto a surface with
/// normal `normal`: the intensity scaled by the cosine of the angle
/// between them, or zero when the surface faces away (or the
/// fixed-point denominator vanishes).
pub open spec fn directional_intensity_s(dir: Vec3, normal: Vec3, i: int) -> int {
    let ndd = dot3_s(normal, dir);
    if ndd > 0 {
        let den = fxmul_s(magnitude3_s(normal), magnitude3_s(dir));
        if den >= 1 {
            fxdiv_s(fxmul_s(i, ndd), den)
        } else {
            0
        }
    } else {
        0
    }
}

/// Diffuse contribution of one light at the point `p`.
pub open spec fn light_contribution_s(p: Vec3, normal: Vec3, l: Light) -> int {
    match l {
        Light::Ambient { intensity } => intensity as int,
        Light::Point { intensity, position } =>
            directional_intensity_s(sub3_s(position, p), normal, intensity as int),
        Light::Directional { intensity, direction } =>
            directional_intensity_s(direction, normal, intensity as int),
    }
}

/// A running total of intensity, saturating at `INTENSITY_CAP`.
pub open spec fn add_capped(total: int, c: int) -> int {
    if total + c > INTENSITY_CAP as int {
        INTENSITY_CAP as int
    } else {
        total + c
    }
}

/// Total intensity of the first `n` lights at `p`.
pub open spec fn lighting_upto(p: Vec3, normal: Vec3, lights: Seq<Light>, n: int) -> int
    decreases n,
{
    if n <= 0 {
        0
    } else {
        add_capped(
            lighting_upto(p, normal, lights, n - 1),
            light_contribution_s(p, normal, lights[n - 1]),
        )
    }
}

/// Total intensity of all lights at `p`, saturating at `INTENSITY_CAP`.
pub open spec fn compute_lighting_s(p: Vec3, normal: Vec3, lights: Seq<Light>) -> int {
    lighting_upto(p, normal, lights, lights.len() as int)
}

/// Intensity contributed along `dir` onto the surface normal `normal`.
pub fn directional_intensity(dir: &Vec3, normal: &Vec3, i: i64) -> (r: i64)
    requires
        bounded3(*dir, DIR_LIMIT as int),
        bounded3(*normal, NORMAL_LIMIT as int),
        0 <= i <= INTENSITY_LIMIT as int,
    ensures
        r as int == directional_intensity_s(*dir, *normal, i as int),
        0 <= r,
{
    let ndd: i64 = dot3(normal, dir);
    proof {
        lemma_dot3_bound(*normal, *dir, NORMAL_LIMIT as int, DIR_LIMIT as int,
            840_000_000_000);
    }
    if ndd > 0 {
        let m1: i64 = magnitude3(normal);
        let m2: i64 = magnitude3(dir);
        proof {
            assert(m1 as int * (m2 as int) <= 900_000_000_000_000_000_000
                && m1 as int * (m2 as int) >= 0) by (nonlinear_arith)
                requires
                    0 <= m1 as int <= 30_000_000_000,
                    0 <= m2 as int <= 30_000_000_000;
        }
        let den: i64 = fxmul(m1, m2);
        if den >= 1 {
            proof {
                assert(0 <= i as int * (ndd as int) <= 840_000_000_000_000_000)
                    by (nonlinear_arith)
                    requires
                        0 <= i as int <= 1_000_000,
                        0 < ndd as int <= 840_000_000_000;
                lemma_tdiv_in_bounds(i as int * (ndd as int), SCALE as int,
                    840_000_000_000_000);
                lemma_tdiv_nonneg(i as int * (ndd as int), SCALE as int);
            }
            let t: i64 = fxmul(i, ndd);
            let r: i64 = fxdiv(t, den);
            proof {
                lemma_tdiv_nonneg(t as int * (SCALE as int), den as int);
            }
            r
        } else {
            0
        }
    } else {
        0
    }
}

/// Total diffuse intensity at the point `p` with surface normal
/// `normal` under the given lights, accumulated in order and
/// saturating at `INTENSITY_CAP`.
pub fn compute_lighting(p: &Vec3, normal: &Vec3, lights: &Vec<Light>) -> (r: i64)
    requires
        bounded3(*p, POINT_LIMIT as int),
        bounded3(*normal, NORMAL_LIMIT as int),
        lights_wf(lights@),
    ensures
        r as int == compute_lighting_s(*p, *normal, lights@),
        0 <= r <= INTENSITY_CAP as int,
{
    let mut total: i64 = 0;
    let mut k: usize = 0;
    while k < lights.len()
        invariant
            0 <= k <= lights.len(),
            bounded3(*p, POINT_LIMIT as int),
            bounded3(*normal, NORMAL_LIMIT as int),
            lights_wf(lights@),
            total as int == lighting_upto(*p, *normal, lights@, k as int),
            0 <= total <= INTENSITY_CAP as int,
        decreases lights.len() - k,
    {
        proof {
            assert(light_wf(lights@[k as int]));
        }
        let contribution: i64 = match &lights[k] {
            Light::Ambient { intensity } => *intensity,
            Light::Point { intensity, position } => {
                let dir: Vec3 = sub3(position, p);
                directional_intensity(&dir, normal, *intensity)
            },
            Light::Directional { intensity, direction } => {
                directional_intensity(direction, normal, *intensity)
            },
        };
        if contribution >= INTENSITY_CAP - total {
            total = INTENSITY_CAP;
        } else {
            total = total + contribution;
        }
        k = k + 1;
    }
    total
}

/// A light direction perpendicular to the surface normal contributes
/// exactly nothing.
pub proof fn lemma_directional_perpendicular(dir: Vec3, normal: Vec3, i: int)
    requires
        dot3_s(normal, dir) == 0,
    ensures
        directional_intensity_s(dir, normal, i) == 0,
{
}

/// A light less than ninety degrees off the surface normal contributes
/// strictly positive intensity, once the intensity times the cosine
/// numerator clears the fixed-point granularity of the denominator.
pub proof fn lemma_directional_positive(dir: Vec3, normal: Vec3, i: int)
    requires
        dot3_s(normal, dir) >= 1,
        fxmul_s(magnitude3_s(normal), magnitude3_s(dir)) >= 1,
        i * dot3_s(normal, dir)
            >= fxmul_s(magnitude3_s(normal), magnitude3_s(dir)) + (SCALE as int) - 1,
    ensures
        directional_intensity_s(dir, normal, i) >= 1,
{
    let ndd = dot3_s(normal, dir);
    let den = fxmul_s(magnitude3_s(normal), magnitude3_s(dir));
    let t = fxmul_s(i, ndd);
    assert(i * ndd >= 0);
    vstd::arithmetic::div_mod::lemma_fundamental_div_mod(i * ndd, SCALE as int);
    vstd::arithmetic::div_mod::lemma_mod_bound(i * ndd, SCALE as int);
    assert(t * (SCALE as int) >= i * ndd - 999);
    assert(t * (SCALE as int) >= den);
    vstd::arithmetic::div_mod::lemma_div_non_zero(t * (SCALE as int), den);
}

} // verus!
