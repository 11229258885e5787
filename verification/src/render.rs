//! The ray-casting core: scenes of spheres, ray–sphere intersection,
//! closest-hit selection, shading, and the per-pixel canvas driver.

use vstd::prelude::*;
use crate::fixed::{tdiv, fxmul_s, fxdiv_s, isqrt_s, is_isqrt, fxmul, fxdiv, isqrt,
    lemma_isqrt, lemma_tdiv_in_bounds, lemma_tdiv_nonneg, SCALE};
use crate::vector::{Vec2, Vec3, bounded3, dot3_s, magnitude3_s, sub3_s, add3_s,
    scalar_product3_s, scalar_div3_s, dot3, magnitude3, sub3, add3, scalar_product3,
    scalar_div3, lemma_dot3_bound, lemma_component_le_magnitude, COORD_LIMIT};
use crate::color::{Color, multiply_s, multiply};
use crate::light::{Light, lights_wf, compute_lighting_s, compute_lighting,
    NORMAL_LIMIT, POINT_LIMIT};

verus! {

/// Hit parameters at or beyond this value count as "no intersection":
/// the sentinel returned when a ray misses a sphere, and the horizon
/// of the renderer (five thousand world units).
pub const T_MAX: i64 = 5_000_000;

/// A spherical primitive: centre, radius and surface color.
#[derive(Clone, Copy, Debug, PartialEq, Eq, Structural)]
pub struct Sphere {
    pub center: Vec3,
    pub radius: i64,
    pub color: Color,
}

/// The static input to rendering: spheres and lights, both in order.
pub struct Scene {
    pub spheres: Vec<Sphere>,
    pub lights: Vec<Light>,
}

/// A sphere with bounded centre and a positive bounded radius.
pub open spec fn sphere_wf(s: Sphere) -> bool {
    bounded3(s.center, COORD_LIMIT as int) && 1 <= s.radius <= COORD_LIMIT
}

pub open spec fn spheres_wf(spheres: Seq<Sphere>) -> bool {
    forall|j: int| 0 <= j < spheres.len() ==> #[trigger] sphere_wf(spheres[j])
}

pub open spec fn scene_wf(scene: Scene) -> bool {
    spheres_wf(scene.spheres@) && lights_wf(scene.lights@)
        && scene.spheres@.len() <= 1_000_000_000
}

/// Leading coefficient of the intersection quadratic: `D . D`.
pub open spec fn quad_a(d: Vec3) -> int {
    dot3_s(d, d)
}

/// Middle coefficient: `2 (CO . D)` with `CO = O - center`.
pub open spec fn quad_b(o: Vec3, d: Vec3, s: Sphere) -> int {
    2 * dot3_s(sub3_s(o, s.center), d)
}

/// Constant coefficient: `CO . CO - radius^2`.
pub open spec fn quad_c(o: Vec3, s: Sphere) -> int {
    dot3_s(sub3_s(o, s.center), sub3_s(o, s.center))
        - fxmul_s(s.radius as int, s.radius as int)
}

/// Discriminant `b^2 - 4 a c` of the intersection quadratic.
pub open spec fn discriminant_s(o: Vec3, d: Vec3, s: Sphere) -> int {
    fxmul_s(quad_b(o, d, s), quad_b(o, d, s)) - 4 * fxmul_s(quad_a(d), quad_c(o, s))
}

/// The two intersection parameters `(-b +/- sqrt(disc)) / (2 a)`, or
/// the sentinel pair `(T_MAX, T_MAX)` when the ray misses the sphere.
pub open spec fn roots_s(o: Vec3, d: Vec3, s: Sphere) -> (int, int) {
    let disc = discriminant_s(o, d, s);
    if disc < 0 {
        (T_MAX as int, T_MAX as int)
    } else {
        let sq = isqrt_s(disc * (SCALE as int));
        (
            fxdiv_s(-quad_b(o, d, s) + sq, 2 * quad_a(d)),
            fxdiv_s(-quad_b(o, d, s) - sq, 2 * quad_a(d)),
        )
    }
}

/// Parameters `t` of the points where the ray `from + t * to` meets
/// the sphere's surface, unordered; both are the sentinel `T_MAX`
/// when there is no intersection.
pub fn intersect_ray_sphere(from: &Vec3, to: &Vec3, sphere: &Sphere) -> (r: (i64, i64))
    requires
        bounded3(*from, COORD_LIMIT as int),
        bounded3(*to, COORD_LIMIT as int),
        sphere_wf(*sphere),
        quad_a(*to) >= 1,
    ensures
        r.0 as int == roots_s(*from, *to, *sphere).0,
        r.1 as int == roots_s(*from, *to, *sphere).1,
{
    let co: Vec3 = sub3(from, &sphere.center);
    let a: i64 = dot3(to, to);
    let bd: i64 = dot3(&co, to);
    let cc: i64 = dot3(&co, &co);
    proof {
        lemma_dot3_bound(*to, *to, COORD_LIMIT as int, COORD_LIMIT as int, 3_000_000_000);
        lemma_dot3_bound(co, *to, 2_000_000, 1_000_000, 6_000_000_000);
        lemma_dot3_bound(co, co, 2_000_000, 2_000_000, 12_000_000_000);
        assert(0 <= sphere.radius as int * (sphere.radius as int) <= 1_000_000_000_000)
            by (nonlinear_arith)
            requires
                1 <= sphere.radius as int <= 1_000_000;
        lemma_tdiv_in_bounds(
            sphere.radius as int * (sphere.radius as int), SCALE as int, 1_000_000_000);
    }
    let b: i64 = 2 * bd;
    let r2: i64 = fxmul(sphere.radius, sphere.radius);
    let c: i64 = cc - r2;
    proof {
        assert(-(144_000_000_000_000_000_000) <= b as int * (b as int)
            <= 144_000_000_000_000_000_000) by (nonlinear_arith)
            requires
                -12_000_000_000 <= b as int <= 12_000_000_000;
        lemma_tdiv_in_bounds(b as int * (b as int), SCALE as int, 144_000_000_000_000_000);
        assert(-(39_000_000_000_000_000_000) <= a as int * (c as int)
            <= 39_000_000_000_000_000_000) by (nonlinear_arith)
            requires
                -3_000_000_000 <= a as int <= 3_000_000_000,
                -13_000_000_000 <= c as int <= 13_000_000_000;
        lemma_tdiv_in_bounds(a as int * (c as int), SCALE as int, 39_000_000_000_000_000);
    }
    let b2: i64 = fxmul(b, b);
    let ac: i64 = fxmul(a, c);
    let disc: i64 = b2 - 4 * ac;
    if disc < 0 {
        return (T_MAX, T_MAX);
    }
    proof {
        lemma_isqrt(disc as int * (SCALE as int));
        assert(isqrt_s(disc as int * (SCALE as int)) <= 20_000_000_000) by (nonlinear_arith)
            requires
                is_isqrt(disc as int * (SCALE as int), isqrt_s(disc as int * (SCALE as int))),
                0 <= disc as int * (SCALE as int) <= 400_000_000_000_000_000_000;
    }
    let sq: i64 = isqrt((disc as u128) * (SCALE as u128)) as i64;
    let den: i64 = 2 * a;
    let t1: i64 = fxdiv(-b + sq, den);
    let t2: i64 = fxdiv(-b - sq, den);
    (t1, t2)
}

/// `best` updated by a candidate root `t` of the sphere at `idx`: the
/// root wins only if it lies in `[min, max)` and strictly undercuts
/// the best parameter so far.
pub open spec fn better_hit(best: (int, int), t: int, idx: int, min: int, max: int)
    -> (int, int) {
    if min <= t && t < max && t < best.0 {
        (t, idx)
    } else {
        best
    }
}

/// Closest hit after considering the first `n` spheres, in order, each
/// contributing its first then its second root. The result is the hit
/// parameter and the sphere's index, or `(T_MAX, -1)` when nothing in
/// `[min, max)` was hit.
pub open spec fn hit_upto(o: Vec3, d: Vec3, min: int, max: int, spheres: Seq<Sphere>, n: int)
    -> (int, int)
    decreases n,
{
    if n <= 0 {
        (T_MAX as int, -1)
    } else {
        let prev = hit_upto(o, d, min, max, spheres, n - 1);
        let rts = roots_s(o, d, spheres[n - 1]);
        better_hit(better_hit(prev, rts.0, n - 1, min, max), rts.1, n - 1, min, max)
    }
}

/// Closest hit over the whole scene.
pub open spec fn closest_hit_s(o: Vec3, d: Vec3, min: int, max: int, spheres: Seq<Sphere>)
    -> (int, int) {
    hit_upto(o, d, min, max, spheres, spheres.len() as int)
}

/// Color of the hit at parameter `t` on sphere `s`: the surface color
/// scaled by the diffuse lighting at the hit point. A hit point that
/// coincides with the centre (magnitude zero, possible only for
/// sub-pixel spheres) keeps its unnormalised normal.
pub open spec fn shade_s(o: Vec3, d: Vec3, t: int, s: Sphere, lights: Seq<Light>) -> Color {
    let rp = add3_s(o, scalar_product3_s(d, t));
    let normal0 = sub3_s(rp, s.center);
    let m = magnitude3_s(normal0);
    let normal = if m >= 1 {
        scalar_div3_s(normal0, m)
    } else {
        normal0
    };
    multiply_s(s.color, compute_lighting_s(rp, normal, lights))
}

/// Color seen along the ray `o + t * d` for `t` in `[min, max)`: the
/// shaded closest hit, or the background color when every sphere is
/// missed.
pub open spec fn trace_ray_s(o: Vec3, d: Vec3, min: int, max: int, spheres: Seq<Sphere>,
    lights: Seq<Light>, background: Color) -> Color {
    let h = closest_hit_s(o, d, min, max, spheres);
    if h.1 >= 0 {
        shade_s(o, d, h.0, spheres[h.1], lights)
    } else {
        background
    }
}

/// Trace the ray `from + t * to` through the scene for `t` in
/// `[min, max)` and return the color it produces.
pub fn trace_ray(from: &Vec3, to: &Vec3, min: i64, max: i64, scene: &Scene,
    background: Color) -> (r: Color)
    requires
        scene_wf(*scene),
        bounded3(*from, COORD_LIMIT as int),
        bounded3(*to, COORD_LIMIT as int),
        quad_a(*to) >= 1,
        0 <= min,
        max <= T_MAX as int,
    ensures
        r == trace_ray_s(*from, *to, min as int, max as int, scene.spheres@,
            scene.lights@, background),
{
    let ghost spheres = scene.spheres@;
    let mut closest_t: i64 = T_MAX;
    let mut closest_i: i64 = -1;
    let mut k: usize = 0;
    while k < scene.spheres.len()
        invariant
            0 <= k <= spheres.len(),
            spheres == scene.spheres@,
            scene_wf(*scene),
            bounded3(*from, COORD_LIMIT as int),
            bounded3(*to, COORD_LIMIT as int),
            quad_a(*to) >= 1,
            0 <= min,
            max <= T_MAX as int,
            (closest_t as int, closest_i as int)
                == hit_upto(*from, *to, min as int, max as int, spheres, k as int),
            closest_i == -1 ==> closest_t == T_MAX,
            closest_i >= 0 ==> 0 <= closest_i < k as int
                && min as int <= closest_t < max as int,
        decreases spheres.len() - k,
    {
        proof {
            assert(sphere_wf(spheres[k as int]));
        }
        let (t1, t2): (i64, i64) = intersect_ray_sphere(from, to, &scene.spheres[k]);
        if min <= t1 && t1 < max && t1 < closest_t {
            closest_t = t1;
            closest_i = k as i64;
        }
        if min <= t2 && t2 < max && t2 < closest_t {
            closest_t = t2;
            closest_i = k as i64;
        }
        k = k + 1;
    }
    if closest_i >= 0 {
        let sphere: &Sphere = &scene.spheres[closest_i as usize];
        let t: i64 = closest_t;
        proof {
            assert(sphere_wf(spheres[closest_i as int]));
            assert(-(5_000_000_000_000) <= to.x * (t as int) <= 5_000_000_000_000
                && -(5_000_000_000_000) <= to.y * (t as int) <= 5_000_000_000_000
                && -(5_000_000_000_000) <= to.z * (t as int) <= 5_000_000_000_000)
                by (nonlinear_arith)
                requires
                    bounded3(*to, 1_000_000),
                    0 <= t as int <= 5_000_000;
            lemma_tdiv_in_bounds(to.x * (t as int), SCALE as int, 5_000_000_000);
            lemma_tdiv_in_bounds(to.y * (t as int), SCALE as int, 5_000_000_000);
            lemma_tdiv_in_bounds(to.z * (t as int), SCALE as int, 5_000_000_000);
        }
        let step: Vec3 = scalar_product3(to, t);
        let rp: Vec3 = add3(from, &step);
        let normal0: Vec3 = sub3(&rp, &sphere.center);
        let m: i64 = magnitude3(&normal0);
        proof {
            lemma_component_le_magnitude(normal0);
        }
        let normal: Vec3 = if m >= 1 {
            proof {
                lemma_tdiv_in_bounds(normal0.x * (SCALE as int), m as int, NORMAL_LIMIT as int);
                lemma_tdiv_in_bounds(normal0.y * (SCALE as int), m as int, NORMAL_LIMIT as int);
                lemma_tdiv_in_bounds(normal0.z * (SCALE as int), m as int, NORMAL_LIMIT as int);
            }
            scalar_div3(&normal0, m)
        } else {
            normal0
        };
        let intensity: i64 = compute_lighting(&rp, &normal, &scene.lights);
        multiply(&sphere.color, intensity)
    } else {
        background
    }
}

/// World-units width of the viewport plane.
pub const VIEWPORT_WIDTH: i64 = 1000;

/// World-units height of the viewport plane.
pub const VIEWPORT_HEIGHT: i64 = 1000;

/// Distance of the viewport plane from the eye along the z axis.
pub const VIEWPORT_DISTANCE: i64 = 1000;

/// Largest canvas dimension, so that the cell and byte counts fit a
/// 32-bit `usize`.
pub const CANVAS_LIMIT: i64 = 20_000;

/// The pixel `p`, rescaled onto the viewport plane at distance
/// `VIEWPORT_DISTANCE`: a pure change of scale.
pub open spec fn canvas_to_viewport_s(p: Vec2, width: int, height: int) -> Vec3 {
    Vec3 {
        x: tdiv(p.x * (VIEWPORT_WIDTH as int), width) as i64,
        y: tdiv(p.y * (VIEWPORT_HEIGHT as int), height) as i64,
        z: VIEWPORT_DISTANCE,
    }
}

/// Map the centred pixel coordinate `p` to the world-space point on
/// the viewport plane that its ray passes through.
pub fn canvas_to_viewport(p: &Vec2, width: usize, height: usize) -> (r: Vec3)
    requires
        1 <= width <= 100_000,
        1 <= height <= 100_000,
        -(width as int) <= p.x <= width as int,
        -(height as int) <= p.y <= height as int,
    ensures
        r == canvas_to_viewport_s(*p, width as int, height as int),
        bounded3(r, COORD_LIMIT as int),
        quad_a(r) >= 1,
{
    proof {
        lemma_tdiv_in_bounds(p.x * (VIEWPORT_WIDTH as int), width as int, 1000);
        lemma_tdiv_in_bounds(p.y * (VIEWPORT_HEIGHT as int), height as int, 1000);
    }
    let x: i64 = crate::fixed::tdiv_exec(
        (p.x as i128) * (VIEWPORT_WIDTH as i128), width as i128) as i64;
    let y: i64 = crate::fixed::tdiv_exec(
        (p.y as i128) * (VIEWPORT_HEIGHT as i128), height as i128) as i64;
    let r = Vec3 { x, y, z: VIEWPORT_DISTANCE };
    proof {
        assert(0 <= r.x * r.x + r.y * r.y) by (nonlinear_arith);
        crate::fixed::lemma_tdiv_ordered(
            1_000_000, r.x * r.x + r.y * r.y + r.z * r.z, SCALE as int);
        vstd::arithmetic::div_mod::lemma_div_by_multiple(1000, SCALE as int);
    }
    r
}

/// A 2-D grid of colors in row-major order.
pub struct Canvas {
    pub width: usize,
    pub height: usize,
    pub cells: Vec<Color>,
}

/// The cell vector holds exactly one color per pixel, and both
/// dimensions stay within `CANVAS_LIMIT`.
pub open spec fn canvas_wf(c: Canvas) -> bool {
    c.cells@.len() == c.width * c.height
        && c.width <= CANVAS_LIMIT && c.height <= CANVAS_LIMIT
}

/// Index of the cell written for the centred pixel coordinate `p`:
/// the vertical axis is flipped so increasing world y moves up.
pub open spec fn pixel_index(p: Vec2, width: int, height: int) -> int {
    (height / 2 - 1 - p.y) * width + (p.x + width / 2)
}

/// A grid index splits uniquely into a row and a column.
proof fn lemma_grid_index_injective(w: int, r1: int, c1: int, r2: int, c2: int)
    requires
        0 <= c1 < w,
        0 <= c2 < w,
        r1 * w + c1 == r2 * w + c2,
    ensures
        r1 == r2 && c1 == c2,
{
    assert(r1 == r2 && c1 == c2) by (nonlinear_arith)
        requires
            0 <= c1 < w,
            0 <= c2 < w,
            r1 * w + c1 == r2 * w + c2;
}

/// A row and column within the grid give an index within the grid.
proof fn lemma_grid_index_in_range(w: int, h: int, r: int, c: int)
    requires
        0 <= r < h,
        0 <= c < w,
    ensures
        0 <= r * w + c < h * w,
{
    assert(0 <= r * w + c < h * w) by (nonlinear_arith)
        requires
            0 <= r < h,
            0 <= c < w;
}

/// A fresh canvas of the given dimensions, every cell holding `fill`.
pub fn canvas_new(width: usize, height: usize, fill: Color) -> (c: Canvas)
    requires
        width <= CANVAS_LIMIT as usize,
        height <= CANVAS_LIMIT as usize,
    ensures
        canvas_wf(c),
        c.width == width,
        c.height == height,
        forall|i: int| 0 <= i < c.cells@.len() ==> c.cells@[i] == fill,
{
    proof {
        assert(width * height <= 400_000_000) by (nonlinear_arith)
            requires
                width <= 20_000 && height <= 20_000;
    }
    let total: usize = width * height;
    let mut cells: Vec<Color> = Vec::new();
    while cells.len() < total
        invariant
            cells@.len() <= total,
            forall|i: int| 0 <= i < cells@.len() ==> cells@[i] == fill,
        decreases total - cells@.len(),
    {
        cells.push(fill);
    }
    Canvas { width, height, cells }
}

/// Write the color `c` into the canvas cell of the centred pixel
/// coordinate `p`, leaving every other cell unchanged.
pub fn draw_pixel(canvas: &mut Canvas, p: &Vec2, c: Color)
    requires
        canvas_wf(*old(canvas)),
        0 <= p.x + old(canvas).width as int / 2 < old(canvas).width as int,
        0 <= old(canvas).height as int / 2 - 1 - p.y < old(canvas).height as int,
    ensures
        canvas_wf(*final(canvas)),
        final(canvas).width == old(canvas).width,
        final(canvas).height == old(canvas).height,
        final(canvas).cells@ == old(canvas).cells@.update(
            pixel_index(*p, old(canvas).width as int, old(canvas).height as int), c),
{
    let col: usize = (p.x + (canvas.width / 2) as i64) as usize;
    let row: usize = ((canvas.height / 2) as i64 - 1 - p.y) as usize;
    proof {
        lemma_grid_index_in_range(
            canvas.width as int, canvas.height as int, row as int, col as int);
        assert(canvas.height as int * (canvas.width as int)
            == canvas.width as int * (canvas.height as int)) by (nonlinear_arith);
        assert(canvas.height as int * (canvas.width as int) <= 400_000_000)
            by (nonlinear_arith)
            requires
                0 <= canvas.height as int <= 20_000,
                0 <= canvas.width as int <= 20_000;
    }
    let idx: usize = row * canvas.width + col;
    canvas.cells[idx] = c;
}

/// The color of the pixel at `(row, col)`: the traced ray through the
/// viewport point of the corresponding centred coordinate, from one
/// world unit out to the horizon.
pub open spec fn pixel_color_s(o: Vec3, spheres: Seq<Sphere>, lights: Seq<Light>,
    background: Color, width: int, height: int, row: int, col: int) -> Color {
    trace_ray_s(
        o,
        canvas_to_viewport_s(
            Vec2 { x: (col - width / 2) as i64, y: (height / 2 - 1 - row) as i64 },
            width, height),
        SCALE as int,
        T_MAX as int,
        spheres,
        lights,
        background,
    )
}

/// Every cell of the canvas holds the traced color of its pixel.
pub open spec fn rendered(canvas: Canvas, o: Vec3, spheres: Seq<Sphere>,
    lights: Seq<Light>, background: Color) -> bool {
    canvas_wf(canvas)
        && forall|row: int, col: int|
            0 <= row < canvas.height && 0 <= col < canvas.width
                ==> canvas.cells@[row * canvas.width + col]
                    == #[trigger] pixel_color_s(o, spheres, lights, background,
                        canvas.width as int, canvas.height as int, row, col)
}

/// Render the scene into the canvas: cast one ray per pixel from the
/// eye `o` and fill every cell with the color it produces.
pub fn raytrace_to_canvas(canvas: &mut Canvas, o: &Vec3, scene: &Scene, background: Color)
    requires
        canvas_wf(*old(canvas)),
        old(canvas).width as int % 2 == 0,
        old(canvas).height as int % 2 == 0,
        2 <= old(canvas).width,
        2 <= old(canvas).height,
        bounded3(*o, COORD_LIMIT as int),
        scene_wf(*scene),
    ensures
        final(canvas).width == old(canvas).width,
        final(canvas).height == old(canvas).height,
        rendered(*final(canvas), *o, scene.spheres@, scene.lights@, background),
{
    let w: usize = canvas.width;
    let h: usize = canvas.height;
    let half_w: i64 = (w / 2) as i64;
    let half_h: i64 = (h / 2) as i64;
    let ghost spheres = scene.spheres@;
    let ghost lights = scene.lights@;
    let mut x: i64 = -half_w;
    while x < half_w
        invariant
            -(half_w as int) <= x <= half_w as int,
            half_w as int == w as int / 2,
            half_h as int == h as int / 2,
            w as int == 2 * (half_w as int),
            h as int == 2 * (half_h as int),
            canvas.width == w,
            canvas.height == h,
            canvas_wf(*canvas),
            2 <= w <= CANVAS_LIMIT,
            2 <= h <= CANVAS_LIMIT,
            bounded3(*o, COORD_LIMIT as int),
            scene_wf(*scene),
            spheres == scene.spheres@,
            lights == scene.lights@,
            forall|row: int, col: int|
                0 <= row < h as int && 0 <= col < x + half_w
                    ==> canvas.cells@[row * w as int + col]
                        == #[trigger] pixel_color_s(*o, spheres, lights, background,
                            w as int, h as int, row, col),
        decreases half_w - x,
    {
        let mut y: i64 = -half_h;
        while y < half_h
            invariant
                -(half_h as int) <= y <= half_h as int,
                -(half_w as int) <= x < half_w as int,
                half_w as int == w as int / 2,
                half_h as int == h as int / 2,
                w as int == 2 * (half_w as int),
                h as int == 2 * (half_h as int),
                canvas.width == w,
                canvas.height == h,
                canvas_wf(*canvas),
                2 <= w <= CANVAS_LIMIT,
                2 <= h <= CANVAS_LIMIT,
                bounded3(*o, COORD_LIMIT as int),
                scene_wf(*scene),
                spheres == scene.spheres@,
                lights == scene.lights@,
                forall|row: int, col: int|
                    0 <= row < h as int && 0 <= col < x + half_w
                        ==> canvas.cells@[row * w as int + col]
                            == #[trigger] pixel_color_s(*o, spheres, lights, background,
                                w as int, h as int, row, col),
                forall|row: int|
                    h as int - (y + half_h) <= row < h as int
                        ==> canvas.cells@[row * w as int + (x + half_w)]
                            == #[trigger] pixel_color_s(*o, spheres, lights, background,
                                w as int, h as int, row, x + half_w),
            decreases half_h - y,
        {
            let p = Vec2 { x, y };
            let d: Vec3 = canvas_to_viewport(&p, w, h);
            let color: Color = trace_ray(o, &d, SCALE, T_MAX, scene, background);
            let ghost before = canvas.cells@;
            draw_pixel(canvas, &p, color);
            proof {
                let wi = w as int;
                let hi = h as int;
                let row0 = hi / 2 - 1 - p.y;
                let col0 = p.x + wi / 2;
                lemma_grid_index_in_range(wi, hi, row0, col0);
                assert(hi * wi == wi * hi) by (nonlinear_arith);
                assert forall|row: int, col: int|
                    0 <= row < hi && 0 <= col < x + half_w
                        implies canvas.cells@[row * wi + col]
                            == pixel_color_s(*o, spheres, lights, background,
                                wi, hi, row, col) by {
                    lemma_grid_index_in_range(wi, hi, row, col);
                    if row * wi + col == row0 * wi + col0 {
                        lemma_grid_index_injective(wi, row, col, row0, col0);
                    }
                }
                assert forall|row: int|
                    #![trigger pixel_color_s(*o, spheres, lights, background, wi, hi, row,
                        x + half_w)]
                    hi - (y + 1 + half_h) <= row < hi
                        implies canvas.cells@[row * wi + (x + half_w)]
                            == pixel_color_s(*o, spheres, lights, background,
                                wi, hi, row, x + half_w) by {
                    lemma_grid_index_in_range(wi, hi, row, x + half_w);
                    if row == row0 {
                        assert(canvas.cells@[row0 * wi + col0] == color);
                    } else if row * wi + (x + half_w) == row0 * wi + col0 {
                        lemma_grid_index_injective(wi, row, x + half_w, row0, col0);
                    }
                }
            }
            y = y + 1;
        }
        x = x + 1;
    }
}

/// Serialise the canvas into a flat RGBA byte frame, four bytes per
/// cell in row-major order, ready to be copied to a pixel buffer.
pub fn draw_canvas(canvas: &Canvas) -> (frame: Vec<u8>)
    requires
        canvas_wf(*canvas),
    ensures
        frame@.len() == canvas.cells@.len() * 4,
        forall|i: int| #![trigger canvas.cells@[i]]
            0 <= i < canvas.cells@.len()
                ==> frame@[4 * i] == canvas.cells@[i].r
                    && frame@[4 * i + 1] == canvas.cells@[i].g
                    && frame@[4 * i + 2] == canvas.cells@[i].b
                    && frame@[4 * i + 3] == canvas.cells@[i].a,
{
    proof {
        assert(canvas.width * canvas.height <= 400_000_000) by (nonlinear_arith)
            requires
                canvas.width <= 20_000 && canvas.height <= 20_000;
    }
    let mut frame: Vec<u8> = Vec::new();
    let mut i: usize = 0;
    while i < canvas.cells.len()
        invariant
            0 <= i <= canvas.cells@.len(),
            canvas.cells@.len() <= 400_000_000,
            frame@.len() == i * 4,
            forall|j: int| #![trigger canvas.cells@[j]]
                0 <= j < i
                    ==> frame@[4 * j] == canvas.cells@[j].r
                        && frame@[4 * j + 1] == canvas.cells@[j].g
                        && frame@[4 * j + 2] == canvas.cells@[j].b
                        && frame@[4 * j + 3] == canvas.cells@[j].a,
        decreases canvas.cells@.len() - i,
    {
        let c: Color = canvas.cells[i];
        frame.push(c.r);
        frame.push(c.g);
        frame.push(c.b);
        frame.push(c.a);
        i = i + 1;
    }
    frame
}

/// The two intersection roots are symmetric about the projection of
/// the centre onto the ray: over the common positive denominator
/// `2 * quad_a(d)`, the exact (pre-truncation) root numerators
/// `-b + sq` and `-b - sq` sum to `4 * dot(center - o, d)`, so the
/// exact root sum is `2 * dot(center - o, d) / dot(d, d)`.
pub proof fn lemma_roots_symmetric(o: Vec3, d: Vec3, s: Sphere)
    requires
        bounded3(o, COORD_LIMIT as int),
        sphere_wf(s),
        discriminant_s(o, d, s) >= 0,
    ensures
        quad_b(o, d, s) == -2 * dot3_s(sub3_s(s.center, o), d),
        (-quad_b(o, d, s) + isqrt_s(discriminant_s(o, d, s) * (SCALE as int)))
            + (-quad_b(o, d, s) - isqrt_s(discriminant_s(o, d, s) * (SCALE as int)))
            == 4 * dot3_s(sub3_s(s.center, o), d),
{
    let co = sub3_s(o, s.center);
    let oc = sub3_s(s.center, o);
    assert(oc.x == -co.x && oc.y == -co.y && oc.z == -co.z);
    assert(oc.x * d.x + oc.y * d.y + oc.z * d.z
        == -(co.x * d.x + co.y * d.y + co.z * d.z)) by (nonlinear_arith)
        requires
            oc.x == -co.x && oc.y == -co.y && oc.z == -co.z;
    crate::fixed::lemma_tdiv_neg(co.x * d.x + co.y * d.y + co.z * d.z, SCALE as int);
}

/// Both roots of a ray that starts on or outside a sphere
/// (`quad_c >= 0`) and points away from it are non-positive, or the
/// ray misses entirely and both are the sentinel.
proof fn lemma_away_roots_nonpositive(o: Vec3, d: Vec3, s: Sphere)
    requires
        quad_a(d) >= 1,
        quad_c(o, s) >= 0,
        dot3_s(sub3_s(o, s.center), d) >= 0,
    ensures
        roots_s(o, d, s).0 <= 0 || roots_s(o, d, s).0 == T_MAX as int,
        roots_s(o, d, s).1 <= 0 || roots_s(o, d, s).1 == T_MAX as int,
{
    let b = quad_b(o, d, s);
    let a = quad_a(d);
    let c = quad_c(o, s);
    let disc = discriminant_s(o, d, s);
    if disc >= 0 {
        assert(a * c >= 0) by (nonlinear_arith)
            requires
                a >= 1 && c >= 0;
        lemma_tdiv_nonneg(a * c, SCALE as int);
        assert(disc <= fxmul_s(b, b));
        assert(b >= 0);
        assert(b * b >= 0) by (nonlinear_arith);
        lemma_tdiv_nonneg(b * b, SCALE as int);
        vstd::arithmetic::div_mod::lemma_fundamental_div_mod(b * b, SCALE as int);
        vstd::arithmetic::div_mod::lemma_mod_bound(b * b, SCALE as int);
        assert(fxmul_s(b, b) * (SCALE as int) <= b * b);
        assert(disc * (SCALE as int) <= b * b);
        crate::fixed::lemma_isqrt_ordered(disc * (SCALE as int), b * b);
        lemma_isqrt(b * b);
        assert(is_isqrt(b * b, b)) by (nonlinear_arith)
            requires
                b >= 0;
        crate::fixed::lemma_isqrt_unique(b * b, b, isqrt_s(b * b));
        let sq = isqrt_s(disc * (SCALE as int));
        lemma_isqrt(disc * (SCALE as int));
        assert(0 <= sq <= b);
        assert((-b + sq) * (SCALE as int) <= 0);
        assert((-b - sq) * (SCALE as int) <= 0);
        lemma_tdiv_nonpositive((-b + sq) * (SCALE as int), 2 * a);
        lemma_tdiv_nonpositive((-b - sq) * (SCALE as int), 2 * a);
    }
}

/// A non-positive dividend gives a non-positive truncating quotient.
proof fn lemma_tdiv_nonpositive(a: int, b: int)
    requires
        a <= 0,
        b >= 1,
    ensures
        tdiv(a, b) <= 0,
{
    lemma_tdiv_nonneg(-a, b);
    crate::fixed::lemma_tdiv_neg(-a, b);
}

proof fn lemma_miss_upto(o: Vec3, d: Vec3, min: int, max: int, spheres: Seq<Sphere>, n: int)
    requires
        quad_a(d) >= 1,
        1 <= min,
        max <= T_MAX as int,
        0 <= n <= spheres.len(),
        forall|j: int| #![trigger spheres[j]] 0 <= j < spheres.len()
            ==> quad_c(o, spheres[j]) >= 0
                && dot3_s(sub3_s(o, spheres[j].center), d) >= 0,
    ensures
        hit_upto(o, d, min, max, spheres, n) == (T_MAX as int, -1int),
    decreases n,
{
    if n > 0 {
        lemma_miss_upto(o, d, min, max, spheres, n - 1);
        lemma_away_roots_nonpositive(o, d, spheres[n - 1]);
    }
}

/// A ray whose origin lies on or outside every sphere and whose
/// direction points away from all of them hits nothing: tracing it
/// yields the configured background color.
pub proof fn lemma_miss_gives_background(o: Vec3, d: Vec3, min: int, max: int,
    spheres: Seq<Sphere>, lights: Seq<Light>, background: Color)
    requires
        quad_a(d) >= 1,
        1 <= min,
        max <= T_MAX as int,
        forall|j: int| #![trigger spheres[j]] 0 <= j < spheres.len()
            ==> quad_c(o, spheres[j]) >= 0
                && dot3_s(sub3_s(o, spheres[j].center), d) >= 0,
    ensures
        closest_hit_s(o, d, min, max, spheres).1 == -1,
        trace_ray_s(o, d, min, max, spheres, lights, background) == background,
{
    lemma_miss_upto(o, d, min, max, spheres, spheres.len() as int);
}

/// `t` lies in the half-open candidate interval `[min, max)`.
pub open spec fn in_range(t: int, min: int, max: int) -> bool {
    min <= t && t < max
}

proof fn lemma_hit_upto_first_wins(o: Vec3, d: Vec3, min: int, max: int,
    spheres: Seq<Sphere>, n: int)
    requires
        max <= T_MAX as int,
        0 <= n <= spheres.len(),
    ensures
        ({
            let h = hit_upto(o, d, min, max, spheres, n);
            &&& h.1 == -1 ==> h.0 == T_MAX as int
            &&& h.1 >= 0 ==> 0 <= h.1 < n
                && (roots_s(o, d, spheres[h.1]).0 == h.0
                    || roots_s(o, d, spheres[h.1]).1 == h.0)
                && in_range(h.0, min, max)
            &&& forall|j: int| #![trigger roots_s(o, d, spheres[j])] 0 <= j < n
                ==> (in_range(roots_s(o, d, spheres[j]).0, min, max)
                        ==> roots_s(o, d, spheres[j]).0 >= h.0)
                    && (in_range(roots_s(o, d, spheres[j]).1, min, max)
                        ==> roots_s(o, d, spheres[j]).1 >= h.0)
            &&& h.1 >= 0 ==> forall|j: int| #![trigger roots_s(o, d, spheres[j])]
                0 <= j < h.1
                    ==> (in_range(roots_s(o, d, spheres[j]).0, min, max)
                            ==> roots_s(o, d, spheres[j]).0 > h.0)
                        && (in_range(roots_s(o, d, spheres[j]).1, min, max)
                            ==> roots_s(o, d, spheres[j]).1 > h.0)
        }),
    decreases n,
{
    if n > 0 {
        lemma_hit_upto_first_wins(o, d, min, max, spheres, n - 1);
    }
}

/// Closest-hit selection is first-wins on ties: the reported hit is a
/// root of the reported sphere, lies in `[min, max)`, no sphere has a
/// strictly smaller candidate root, and every sphere earlier in scene
/// order has only strictly larger candidate roots. When the index is
/// `-1`, no sphere has a candidate root at all.
pub proof fn lemma_closest_hit_first_wins(o: Vec3, d: Vec3, min: int, max: int,
    spheres: Seq<Sphere>)
    requires
        max <= T_MAX as int,
    ensures
        ({
            let h = closest_hit_s(o, d, min, max, spheres);
            &&& h.1 == -1 ==> h.0 == T_MAX as int
            &&& h.1 >= 0 ==> 0 <= h.1 < spheres.len()
                && (roots_s(o, d, spheres[h.1]).0 == h.0
                    || roots_s(o, d, spheres[h.1]).1 == h.0)
                && in_range(h.0, min, max)
            &&& forall|j: int| #![trigger roots_s(o, d, spheres[j])]
                0 <= j < spheres.len()
                    ==> (in_range(roots_s(o, d, spheres[j]).0, min, max)
                            ==> roots_s(o, d, spheres[j]).0 >= h.0)
                        && (in_range(roots_s(o, d, spheres[j]).1, min, max)
                            ==> roots_s(o, d, spheres[j]).1 >= h.0)
            &&& h.1 >= 0 ==> forall|j: int| #![trigger roots_s(o, d, spheres[j])]
                0 <= j < h.1
                    ==> (in_range(roots_s(o, d, spheres[j]).0, min, max)
                            ==> roots_s(o, d, spheres[j]).0 > h.0)
                        && (in_range(roots_s(o, d, spheres[j]).1, min, max)
                            ==> roots_s(o, d, spheres[j]).1 > h.0)
        }),
{
    lemma_hit_upto_first_wins(o, d, min, max, spheres, spheres.len() as int);
}

/// Rendering is deterministic: two canvases of the same dimensions
/// that are both fully rendered from the same eye, scene and
/// background hold identical cells.
pub proof fn lemma_render_deterministic(c1: Canvas, c2: Canvas, o: Vec3,
    spheres: Seq<Sphere>, lights: Seq<Light>, background: Color)
    requires
        rendered(c1, o, spheres, lights, background),
        rendered(c2, o, spheres, lights, background),
        c1.width == c2.width,
        c1.height == c2.height,
    ensures
        c1.cells@ == c2.cells@,
{
    let w = c1.width as int;
    let h = c1.height as int;
    assert(c1.cells@.len() == c2.cells@.len());
    if w >= 1 {
        assert forall|k: int| 0 <= k < c1.cells@.len()
            implies c1.cells@[k] == c2.cells@[k] by {
            vstd::arithmetic::div_mod::lemma_fundamental_div_mod(k, w);
            vstd::arithmetic::div_mod::lemma_mod_bound(k, w);
            let row = k / w;
            let col = k % w;
            assert(k < h * w) by (nonlinear_arith)
                requires
                    k < w * h;
            assert(row < h) by (nonlinear_arith)
                requires
                    w >= 1 && 0 <= k < h * w && k == w * row + col && 0 <= col < w;
            assert(row >= 0) by (nonlinear_arith)
                requires
                    w >= 1 && k >= 0 && k == w * row + col && 0 <= col < w;
            assert(k == row * w + col) by (nonlinear_arith)
                requires
                    k == w * row + col;
            assert(c1.cells@[row * w + col] == pixel_color_s(o, spheres, lights,
                background, w, h, row, col));
            assert(c2.cells@[row * w + col] == pixel_color_s(o, spheres, lights,
                background, w, h, row, col));
        }
    } else {
        assert(w == 0);
        assert(c1.cells@.len() == 0) by (nonlinear_arith)
            requires
                c1.cells@.len() == c1.width * c1.height && c1.width == 0;
    }
    assert(c1.cells@ =~= c2.cells@);
}

} // verus!
