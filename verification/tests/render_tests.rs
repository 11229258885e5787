use raycaster::vector::{Vec2, Vec3, dot3, sub3};
use raycaster::color::{Color, pink, green, yellow, background_green};
use raycaster::light::Light;
use raycaster::render::{Sphere, Scene, T_MAX, intersect_ray_sphere, trace_ray,
    canvas_to_viewport, canvas_new, draw_pixel, raytrace_to_canvas, draw_canvas};

fn eye() -> Vec3 {
    Vec3 { x: 0, y: 0, z: 0 }
}

fn unit_z() -> Vec3 {
    Vec3 { x: 0, y: 0, z: 1000 }
}

fn front_sphere(color: Color) -> Sphere {
    Sphere { center: Vec3 { x: 0, y: 0, z: 3000 }, radius: 1000, color }
}

#[test]
fn intersect_head_on_gives_both_surface_parameters() {
    let s = front_sphere(pink());
    let (t1, t2) = intersect_ray_sphere(&eye(), &unit_z(), &s);
    assert_eq!(t1, 4000);
    assert_eq!(t2, 2000);
}

#[test]
fn intersect_roots_sum_to_twice_projected_center() {
    let s = front_sphere(pink());
    let o = eye();
    let d = unit_z();
    let (t1, t2) = intersect_ray_sphere(&o, &d, &s);
    let oc = sub3(&s.center, &o);
    let expected = 2 * raycaster::fixed::fxdiv(dot3(&oc, &d), dot3(&d, &d));
    assert_eq!(t1 + t2, expected);
}

#[test]
fn intersect_miss_returns_sentinel_pair() {
    let s = Sphere { center: Vec3 { x: 500_000, y: 0, z: 3000 }, radius: 1000, color: pink() };
    let (t1, t2) = intersect_ray_sphere(&eye(), &unit_z(), &s);
    assert_eq!(t1, T_MAX);
    assert_eq!(t2, T_MAX);
}

#[test]
fn ray_pointing_away_from_every_sphere_gives_background() {
    let scene = Scene {
        spheres: vec![front_sphere(pink()), front_sphere(green())],
        lights: vec![Light::Ambient { intensity: 300 }],
    };
    let away = Vec3 { x: 0, y: 0, z: -1000 };
    let c = trace_ray(&eye(), &away, 1000, T_MAX, &scene, background_green());
    assert_eq!(c, background_green());
}

#[test]
fn head_on_hit_shades_front_surface_with_ambient_light() {
    let scene = Scene {
        spheres: vec![front_sphere(pink())],
        lights: vec![Light::Ambient { intensity: 300 }],
    };
    let c = trace_ray(&eye(), &unit_z(), 1000, T_MAX, &scene, background_green());
    assert_eq!(c, Color { r: 72, g: 44, b: 54, a: 77 });
}

#[test]
fn equal_hit_parameters_resolve_to_first_sphere_in_scene_order() {
    let tied = Scene {
        spheres: vec![front_sphere(pink()), front_sphere(yellow())],
        lights: vec![Light::Ambient { intensity: 300 }],
    };
    let c = trace_ray(&eye(), &unit_z(), 1000, T_MAX, &tied, background_green());
    assert_eq!(c, Color { r: 72, g: 44, b: 54, a: 77 });

    let swapped = Scene {
        spheres: vec![front_sphere(yellow()), front_sphere(pink())],
        lights: vec![Light::Ambient { intensity: 300 }],
    };
    let c2 = trace_ray(&eye(), &unit_z(), 1000, T_MAX, &swapped, background_green());
    assert_eq!(c2, Color { r: 77, g: 53, b: 0, a: 77 });
}

#[test]
fn min_bound_excludes_close_hits() {
    let scene = Scene {
        spheres: vec![front_sphere(pink())],
        lights: vec![Light::Ambient { intensity: 300 }],
    };
    let c = trace_ray(&eye(), &unit_z(), 4500, T_MAX, &scene, background_green());
    assert_eq!(c, background_green());
}

#[test]
fn canvas_to_viewport_rescales_pixels_to_world() {
    let p = Vec2 { x: 400, y: -300 };
    let d = canvas_to_viewport(&p, 800, 600);
    assert_eq!(d, Vec3 { x: 500, y: -500, z: 1000 });
    let center = canvas_to_viewport(&Vec2 { x: 0, y: 0 }, 800, 800);
    assert_eq!(center, Vec3 { x: 0, y: 0, z: 1000 });
}

#[test]
fn canvas_new_fills_every_cell() {
    let c = canvas_new(3, 2, background_green());
    assert_eq!(c.width, 3);
    assert_eq!(c.height, 2);
    assert_eq!(c.cells.len(), 6);
    for cell in &c.cells {
        assert_eq!(*cell, background_green());
    }
}

#[test]
fn draw_pixel_writes_the_flipped_row_major_cell() {
    let mut c = canvas_new(4, 4, background_green());
    draw_pixel(&mut c, &Vec2 { x: 0, y: 0 }, pink());
    for (i, cell) in c.cells.iter().enumerate() {
        if i == 1 * 4 + 2 {
            assert_eq!(*cell, pink());
        } else {
            assert_eq!(*cell, background_green());
        }
    }
}

#[test]
fn render_writes_the_center_pixel_of_a_head_on_sphere() {
    let scene = Scene {
        spheres: vec![front_sphere(pink())],
        lights: vec![Light::Ambient { intensity: 300 }],
    };
    let mut canvas = canvas_new(2, 2, background_green());
    raytrace_to_canvas(&mut canvas, &eye(), &scene, background_green());
    // The pixel (0, 0) maps to column 1, row 0 and looks straight down z.
    assert_eq!(canvas.cells[1], Color { r: 72, g: 44, b: 54, a: 77 });
}

#[test]
fn render_twice_gives_byte_identical_canvases() {
    let scene = Scene {
        spheres: vec![
            Sphere { center: Vec3 { x: 0, y: -500, z: 6000 }, radius: 1000, color: pink() },
            Sphere { center: Vec3 { x: 2000, y: 0, z: 4000 }, radius: 300, color: green() },
            Sphere { center: Vec3 { x: -2000, y: 0, z: 4000 }, radius: 1200, color: yellow() },
        ],
        lights: vec![
            Light::Ambient { intensity: 300 },
            Light::Point { intensity: 700, position: Vec3 { x: -2000, y: 1000, z: 0 } },
            Light::Directional { intensity: 900, direction: Vec3 { x: 1000, y: 4000, z: 4000 } },
        ],
    };
    let mut first = canvas_new(40, 40, background_green());
    let mut second = canvas_new(40, 40, background_green());
    raytrace_to_canvas(&mut first, &eye(), &scene, background_green());
    raytrace_to_canvas(&mut second, &eye(), &scene, background_green());
    assert_eq!(first.cells, second.cells);
    let frame1 = draw_canvas(&first);
    let frame2 = draw_canvas(&second);
    assert_eq!(frame1, frame2);
}

#[test]
fn draw_canvas_serialises_rgba_in_row_major_order() {
    let mut c = canvas_new(2, 2, background_green());
    draw_pixel(&mut c, &Vec2 { x: 0, y: 0 }, pink());
    let frame = draw_canvas(&c);
    assert_eq!(frame.len(), 16);
    assert_eq!(&frame[0..4], &[0, 56, 68, 255]);
    assert_eq!(&frame[4..8], &[241, 148, 180, 255]);
    assert_eq!(&frame[8..12], &[0, 56, 68, 255]);
    assert_eq!(&frame[12..16], &[0, 56, 68, 255]);
}
