use raycaster::fixed::{fxmul, fxdiv, isqrt};
use raycaster::vector::{Vec2, Vec3, dot2, dot3, magnitude3, sub3, add3, scalar_product3,
    scalar_div3};
use raycaster::color::{Color, multiply, pink, green, yellow, background_green};
use raycaster::light::{Light, directional_intensity, compute_lighting};

#[test]
fn fxmul_rescales_and_truncates_toward_zero() {
    assert_eq!(fxmul(1500, 2000), 3000);
    assert_eq!(fxmul(-1500, 2000), -3000);
    assert_eq!(fxmul(999, 1), 0);
    assert_eq!(fxmul(-999, 1), 0);
    assert_eq!(fxmul(0, 123456), 0);
}

#[test]
fn fxdiv_rescales_and_truncates_toward_zero() {
    assert_eq!(fxdiv(1, 3), 333);
    assert_eq!(fxdiv(-1, 3), -333);
    assert_eq!(fxdiv(4_000_000, 2000), 2_000_000);
    assert_eq!(fxdiv(1000, 1000), 1000);
}

#[test]
fn isqrt_rounds_down() {
    assert_eq!(isqrt(0), 0);
    assert_eq!(isqrt(1), 1);
    assert_eq!(isqrt(15), 3);
    assert_eq!(isqrt(16), 4);
    assert_eq!(isqrt(4_000_000), 2000);
    assert_eq!(isqrt(1_000_000_000_000), 1_000_000);
}

#[test]
fn dot_products_match_hand_computation() {
    let a2 = Vec2 { x: 1000, y: 2000 };
    let b2 = Vec2 { x: 3000, y: 4000 };
    assert_eq!(dot2(&a2, &b2), 11_000);
    let a3 = Vec3 { x: 1000, y: 2000, z: 3000 };
    let b3 = Vec3 { x: 4000, y: 5000, z: 6000 };
    assert_eq!(dot3(&a3, &b3), 32_000);
}

#[test]
fn magnitude_of_three_four_zero_is_five() {
    let v = Vec3 { x: 3000, y: 4000, z: 0 };
    assert_eq!(magnitude3(&v), 5000);
    let unit = Vec3 { x: 0, y: 0, z: 1000 };
    assert_eq!(magnitude3(&unit), 1000);
}

#[test]
fn componentwise_vector_operations() {
    let a = Vec3 { x: 5000, y: -2000, z: 1000 };
    let b = Vec3 { x: 1000, y: 1000, z: -1000 };
    assert_eq!(sub3(&a, &b), Vec3 { x: 4000, y: -3000, z: 2000 });
    assert_eq!(add3(&a, &b), Vec3 { x: 6000, y: -1000, z: 0 });
    assert_eq!(scalar_product3(&a, 2000), Vec3 { x: 10_000, y: -4000, z: 2000 });
    assert_eq!(scalar_div3(&a, 2000), Vec3 { x: 2500, y: -1000, z: 500 });
}

#[test]
fn multiply_by_zero_intensity_zeroes_every_channel() {
    let c = pink();
    assert_eq!(multiply(&c, 0), Color { r: 0, g: 0, b: 0, a: 0 });
    let bg = background_green();
    assert_eq!(multiply(&bg, 0), Color { r: 0, g: 0, b: 0, a: 0 });
}

#[test]
fn multiply_keeps_zero_channels_zero() {
    let c = green();
    let scaled = multiply(&c, 1_500_000);
    assert_eq!(scaled.r, 0);
    let y = yellow();
    let scaled_y = multiply(&y, 2_000_000_000);
    assert_eq!(scaled_y.b, 0);
}

#[test]
fn multiply_large_intensity_clamps_at_255() {
    let c = pink();
    assert_eq!(multiply(&c, 2_000_000_000), Color { r: 255, g: 255, b: 255, a: 255 });
    let g = green();
    assert_eq!(multiply(&g, 300_000), Color { r: 0, g: 255, b: 255, a: 255 });
}

#[test]
fn multiply_rounds_to_nearest() {
    let c = pink();
    assert_eq!(multiply(&c, 300), Color { r: 72, g: 44, b: 54, a: 77 });
    assert_eq!(multiply(&c, 1000), c);
}

#[test]
fn directional_intensity_zero_when_perpendicular() {
    let dir = Vec3 { x: 1000, y: 0, z: 0 };
    let normal = Vec3 { x: 0, y: 0, z: 1000 };
    assert_eq!(directional_intensity(&dir, &normal, 500_000), 0);
}

#[test]
fn directional_intensity_positive_below_ninety_degrees() {
    let dir = Vec3 { x: 0, y: 0, z: 1000 };
    let normal = Vec3 { x: 0, y: 0, z: 1000 };
    assert_eq!(directional_intensity(&dir, &normal, 700), 700);
    let slanted = Vec3 { x: 1000, y: 0, z: 1000 };
    assert!(directional_intensity(&slanted, &normal, 700) > 0);
}

#[test]
fn directional_intensity_zero_when_facing_away() {
    let dir = Vec3 { x: 0, y: 0, z: -1000 };
    let normal = Vec3 { x: 0, y: 0, z: 1000 };
    assert_eq!(directional_intensity(&dir, &normal, 700), 0);
}

#[test]
fn compute_lighting_accumulates_ambient_and_directional() {
    let p = Vec3 { x: 0, y: 0, z: 2000 };
    let normal = Vec3 { x: 0, y: 0, z: -1000 };
    let lights = vec![
        Light::Ambient { intensity: 300 },
        Light::Directional { intensity: 700, direction: Vec3 { x: 0, y: 0, z: -1000 } },
    ];
    assert_eq!(compute_lighting(&p, &normal, &lights), 1000);
}

#[test]
fn compute_lighting_point_light_by_distance_direction() {
    let p = Vec3 { x: 0, y: 0, z: 2000 };
    let normal = Vec3 { x: 0, y: 0, z: -1000 };
    let lights = vec![
        Light::Point { intensity: 500, position: Vec3 { x: 0, y: 0, z: 0 } },
    ];
    assert_eq!(compute_lighting(&p, &normal, &lights), 500);
}

#[test]
fn compute_lighting_empty_lights_is_dark() {
    let p = Vec3 { x: 0, y: 0, z: 2000 };
    let normal = Vec3 { x: 0, y: 0, z: -1000 };
    let lights: Vec<Light> = Vec::new();
    assert_eq!(compute_lighting(&p, &normal, &lights), 0);
}
