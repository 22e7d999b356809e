//! End-to-end and per-component checks of the fixed-point ray tracer.

use raytracer::fixed::{isqrt_u128, tdiv_i64, SCALE};
use raytracer::vector::Vector3;
use raytracer::objects::{Color, Ray, Sphere};
use raytracer::material::{add_color, add_color_bias, shade_bounce, Diffuse};
use raytracer::render::{render, render_pixel, resolve_furthest, resolve_nearest};
use raytracer::camera::{cos_deg, sin_deg, Camera};
use raytracer::math::Rect;

fn unit_sphere_scene(radius: i64, color: Color) -> Vec<Sphere> {
    vec![*Sphere::boxed(Vector3::new(0, 0, 0), radius, color)]
}

#[test]
fn head_on_hit_reports_nine_radii() {
    // A sphere of radius 10 world units at the origin, a ray from 10 radii out.
    let red = Color::new(255, 0, 0);
    let s = Sphere::boxed(Vector3::new(0, 0, 0), 10 * SCALE, red);
    let ray = Ray::new(Vector3::new(0, 0, -100 * SCALE), Vector3::new(0, 0, 1));
    let hit = s.intersect(&ray).expect("head-on ray must hit");
    assert_eq!(hit.distance, 90 * SCALE);
    assert_eq!(hit.normal, Vector3::new(0, 0, -SCALE));
    assert_eq!(hit.position, Vector3::new(0, 0, -10 * SCALE));
    assert_eq!(hit.color, red);
}

#[test]
fn perpendicular_passes_miss() {
    let s = Sphere::boxed(Vector3::new(0, 0, 0), 10 * SCALE, Color::new(9, 9, 9));
    // Rays parallel to the z axis, offset by more than the radius on x, y,
    // or both, never hit.
    let offsets = [
        (11 * SCALE, 0),
        (-11 * SCALE, 0),
        (0, 11 * SCALE),
        (0, -11 * SCALE),
        (7 * SCALE + 300, 7 * SCALE + 300),
        (-8 * SCALE, 8 * SCALE),
    ];
    for (ox, oy) in offsets {
        let ray = Ray::new(Vector3::new(ox, oy, -100 * SCALE), Vector3::new(0, 0, 1));
        assert!(s.intersect(&ray).is_none(), "offset ({ox},{oy}) must miss");
    }
}

#[test]
fn normalize_is_idempotent_on_unit_vectors() {
    let v = Vector3::new(0, 0, 2048);
    let u = v.normalize();
    assert_eq!(u, Vector3::new(0, 0, 1024));
    assert_eq!(u.normalize(), u);
    let w = Vector3::new(0, -1024, 0);
    assert_eq!(w.normalize(), w);
}

#[test]
fn normalized_magnitude_is_one_within_tolerance() {
    let samples = [
        Vector3::new(3000, 4000, 0),
        Vector3::new(-123456, 654321, 999999),
        Vector3::new(1024, 1024, 1024),
        Vector3::new(5, 0, 8192),
        Vector3::new(-4194304, 4194304, -4194304),
        // shorter than one unit: scaled up exactly before rescaling
        Vector3::new(1, 1, 0),
        Vector3::new(1, 0, 0),
        Vector3::new(-2, 3, 1),
        Vector3::new(0, 0, -1),
    ];
    for v in samples {
        let n = v.normalize();
        let len = n.length();
        assert!(
            (SCALE - 4) as u64 <= len && len <= (SCALE + 1) as u64,
            "|normalize({:?})| == {len}",
            v
        );
    }
}

#[test]
fn normalize_exact_quotients() {
    // 3-4-5 triangle: the length is exactly 5000.
    let v = Vector3::new(3000, 4000, 0);
    assert_eq!(v.length(), 5000);
    assert_eq!(v.normalize(), Vector3::new(614, 819, 0));
}

#[test]
fn tiebreak_furthest_and_nearest() {
    let near = *Sphere::boxed(Vector3::new(0, 0, 30 * SCALE), 10 * SCALE, Color::new(1, 1, 1));
    let far = *Sphere::boxed(Vector3::new(0, 0, 80 * SCALE), 10 * SCALE, Color::new(2, 2, 2));
    let ray = Ray::new(Vector3::new(0, 0, 0), Vector3::new(0, 0, 1));
    let d_near = 20 * SCALE;
    let d_far = 70 * SCALE;

    for scene in [vec![near.clone(), far.clone()], vec![far.clone(), near.clone()]] {
        let furthest = resolve_furthest(&scene, &ray).expect("both spheres are hit");
        assert_eq!(furthest.distance, d_far);
        assert_eq!(furthest.color, Color::new(2, 2, 2));
        let nearest = resolve_nearest(&scene, &ray).expect("both spheres are hit");
        assert_eq!(nearest.distance, d_near);
        assert_eq!(nearest.color, Color::new(1, 1, 1));
    }
}

#[test]
fn resolve_empty_scene_misses() {
    let scene: Vec<Sphere> = Vec::new();
    let ray = Ray::new(Vector3::new(0, 0, 0), Vector3::new(0, 0, 1));
    assert!(resolve_furthest(&scene, &ray).is_none());
    assert!(resolve_nearest(&scene, &ray).is_none());
}

#[test]
fn shading_terminates_at_zero_budget_with_base_color() {
    let base = Color::new(120, 30, 200);
    let scene = unit_sphere_scene(10 * SCALE, base);
    let ray = Ray::new(Vector3::new(0, 0, -100 * SCALE), Vector3::new(0, 0, 1));
    let hit = scene[0].intersect(&ray).unwrap();
    let mat = Diffuse::new(hit.color);
    assert_eq!(mat.calc_mat(&hit, &scene, 0), base);
}

#[test]
fn shading_with_budget_terminates_for_any_limit() {
    let base = Color::new(200, 200, 200);
    let scene = unit_sphere_scene(10 * SCALE, base);
    let ray = Ray::new(Vector3::new(0, 0, -100 * SCALE), Vector3::new(0, 0, 1));
    let hit = scene[0].intersect(&ray).unwrap();
    let mat = Diffuse::new(hit.color);
    // Every budget returns a color without panicking or recursing away;
    // repeat to exercise many random bounce draws.
    for n in 0u8..=8 {
        for _ in 0..50 {
            let _ = mat.calc_mat(&hit, &scene, n);
        }
    }
}

#[test]
fn bounce_with_fixed_draw_darkens_away_facing_point() {
    // Bounce straight back through the sphere: the secondary hit is the far
    // side, whose normal (0, 0, 1) faces away from the light, so the tinted
    // color is darkened to a fifth.
    let scene = unit_sphere_scene(10 * SCALE, Color::new(9, 9, 9));
    let ray = Ray::new(Vector3::new(0, 0, -100 * SCALE), Vector3::new(0, 0, 1));
    let hit = scene[0].intersect(&ray).unwrap();
    assert_eq!(hit.normal, Vector3::new(0, 0, -1024));
    let base = Color::new(200, 100, 50);
    let shaded = shade_bounce(&hit, &scene, base, Vector3::new(0, 0, -1024));
    // tint: (200, 100, (512 + 1024) * 50 / 1024) == (200, 100, 75), then a
    // fifth of it: (200 * 205 / 1024, 100 * 205 / 1024, 75 * 205 / 1024).
    assert_eq!(shaded, Color::new(40, 20, 15));
}

#[test]
fn bounce_with_fixed_draw_keeps_lit_point_bright() {
    // Strike the sphere's bottom and bounce straight up through it: the
    // secondary hit's normal (0, 1, 0) faces the light, so no darkening.
    let scene = unit_sphere_scene(10 * SCALE, Color::new(9, 9, 9));
    let ray = Ray::new(Vector3::new(0, -100 * SCALE, 0), Vector3::new(0, 1, 0));
    let hit = scene[0].intersect(&ray).unwrap();
    assert_eq!(hit.normal, Vector3::new(0, -1024, 0));
    let base = Color::new(200, 100, 50);
    let shaded = shade_bounce(&hit, &scene, base, Vector3::new(0, -1024, 0));
    // tint alone: (200, (512 + 1024) * 100 / 1024, 50) == (200, 150, 50).
    assert_eq!(shaded, Color::new(200, 150, 50));
}

#[test]
fn bounce_into_empty_scene_shades_black() {
    // With no other surface, the diffuse bounce misses whatever the random
    // draw was, so the shading is deterministic: the background.
    let base = Color::new(77, 88, 99);
    let one = unit_sphere_scene(10 * SCALE, base);
    let ray = Ray::new(Vector3::new(0, 0, -100 * SCALE), Vector3::new(0, 0, 1));
    let hit = one[0].intersect(&ray).unwrap();
    let empty: Vec<Sphere> = Vec::new();
    let mat = Diffuse::new(base);
    for _ in 0..20 {
        assert_eq!(mat.calc_mat(&hit, &empty, 3), Color::new(0, 0, 0));
    }
}

#[test]
fn end_to_end_center_pixel_base_color_corners_background() {
    let base = Color::new(0, 0, 255);
    let scene = unit_sphere_scene(10 * SCALE, base);
    let camera = Camera::new(Vector3::new(0, 0, -120 * SCALE), Vector3::new(0, 0, 0), 90 * SCALE);
    let (w, h) = (8u32, 8u32);
    let buf = render(&scene, &camera, w, h, 0);
    assert_eq!(buf.len(), (w * h) as usize);
    // The center pixel's ray runs straight down the axis into the sphere;
    // at bounce limit zero it shades to the base color exactly.
    let center = buf[(4 * w + 4) as usize];
    assert_eq!(center, base);
    // Corner rays leave the frustum far from the sphere and miss.
    for idx in [0, (w - 1) as usize, ((h - 1) * w) as usize, (h * w - 1) as usize] {
        assert_eq!(buf[idx], Color::new(0, 0, 0), "corner pixel {idx}");
    }
    // A single pixel agrees with the full-frame render at bounce zero.
    assert_eq!(render_pixel(&scene, &camera, 4, 4, w, h, 0), base);
}

#[test]
fn camera_ray_through_center_is_forward() {
    let camera = Camera::new(Vector3::new(0, 0, -3 * SCALE), Vector3::new(0, 0, 0), 0);
    let ray = camera.generate_ray(4, 4, 8, 8);
    assert_eq!(ray.origin, Vector3::new(0, 0, -3 * SCALE));
    assert_eq!(ray.direction, Vector3::new(0, 0, SCALE));
}

#[test]
fn camera_rotation_quarter_turn_about_z() {
    let camera = Camera::new(Vector3::new(0, 0, 0), Vector3::new(0, 0, 90), 0);
    let v = camera.rotate_vec(Vector3::new(1024, 0, 0));
    assert_eq!(v, Vector3::new(0, 1024, 0));
}

#[test]
fn camera_new_stores_angles_verbatim() {
    let camera = Camera::new(Vector3::new(0, 0, 0), Vector3::new(-90, 370, 360), 0);
    assert_eq!(camera.rotation, Vector3::new(-90, 370, 360));
    assert_eq!(camera.fov, 0);
}

#[test]
fn camera_rotation_reduces_angles_at_use() {
    // Angles a full turn apart (or a turn below zero) rotate identically.
    let a = Camera::new(Vector3::new(0, 0, 0), Vector3::new(-90, 370, 360), 0);
    let b = Camera::new(Vector3::new(0, 0, 0), Vector3::new(270, 10, 0), 0);
    for v in [Vector3::new(1024, 0, 0), Vector3::new(0, -614, 819), Vector3::new(591, 591, 591)] {
        assert_eq!(a.rotate_vec(v), b.rotate_vec(v));
    }
}

#[test]
fn rotation_keeps_unit_scale_magnitude() {
    // Odd angles on every axis: the squared norm of a unit-scale vector
    // moves by at most 21 sub-units of scale per axis rotation.
    let camera = Camera::new(Vector3::new(0, 0, 0), Vector3::new(33, 247, 118), 0);
    let slack = 3 * 21 * 1024;
    for v in [Vector3::new(0, 0, 1024), Vector3::new(614, 819, 0), Vector3::new(591, 591, 591)] {
        let n_in = v.x * v.x + v.y * v.y + v.z * v.z;
        let r = camera.rotate_vec(v);
        let n_out = r.x * r.x + r.y * r.y + r.z * r.z;
        assert!(
            n_in - slack <= n_out && n_out <= n_in + slack,
            "rotated {:?} -> {:?}: {} vs {}",
            v,
            r,
            n_in,
            n_out
        );
    }
}

#[test]
fn sine_and_cosine_table_values() {
    assert_eq!(sin_deg(0), 0);
    assert_eq!(sin_deg(30), 512);
    assert_eq!(sin_deg(90), 1024);
    assert_eq!(sin_deg(150), 512);
    assert_eq!(sin_deg(210), -512);
    assert_eq!(sin_deg(270), -1024);
    assert_eq!(cos_deg(0), 1024);
    assert_eq!(cos_deg(60), 512);
    assert_eq!(cos_deg(180), -1024);
    assert_eq!(cos_deg(359), sin_deg(89));
}

#[test]
fn color_blending_formulas() {
    assert_eq!(
        add_color(Color::new(10, 20, 30), Color::new(30, 40, 50)),
        Color::new(20, 30, 40)
    );
    assert_eq!(
        add_color(Color::new(255, 0, 1), Color::new(255, 0, 0)),
        Color::new(255, 0, 0)
    );
    // A fifth of the first color, the rest of the second.
    assert_eq!(
        add_color_bias(Color::new(100, 200, 0), Color::new(0, 0, 0), 205),
        Color::new(20, 40, 0)
    );
    assert_eq!(
        add_color_bias(Color::new(0, 0, 0), Color::new(100, 200, 40), 1024),
        Color::new(0, 0, 0)
    );
}

#[test]
fn ray_construction_and_evaluation() {
    let ray = Ray::new(Vector3::new(100, 200, 300), Vector3::new(0, 3, 4));
    // direction is normalized at construction: |(0,3,4)| = 5.
    assert_eq!(ray.direction, Vector3::new(0, 614, 819));
    let p = ray.function(5 * SCALE);
    assert_eq!(p, Vector3::new(100, 200 + 5 * 614, 300 + 5 * 819));
    // A zero direction cannot be normalized; the forward axis stands in.
    let degenerate = Ray::new(Vector3::new(0, 0, 0), Vector3::new(0, 0, 0));
    assert_eq!(degenerate.direction, Vector3::new(0, 0, SCALE));
}

#[test]
fn vector_arithmetic() {
    let a = Vector3::new(1, 2, 3);
    let b = Vector3::new(10, -20, 30);
    let s = a.add(&b);
    assert_eq!((s.x, s.y, s.z), (11, -18, 33));
    let d = a.sub(&b);
    assert_eq!((d.x, d.y, d.z), (-9, 22, -27));
    // dot is rescaled: (1024 * 1024 + 0 + 0) / 1024.
    assert_eq!(Vector3::new(1024, 0, 0).dot(&Vector3::new(1024, 0, 0)), 1024);
    assert_eq!(Vector3::new(3, 4, 0).length(), 5);
}

#[test]
fn fixed_point_primitives() {
    assert_eq!(isqrt_u128(0), 0);
    assert_eq!(isqrt_u128(24), 4);
    assert_eq!(isqrt_u128(25), 5);
    assert_eq!(isqrt_u128(u128::MAX), u64::MAX);
    // truncated division rounds toward zero on both signs
    assert_eq!(tdiv_i64(7, 2), 3);
    assert_eq!(tdiv_i64(-7, 2), -3);
}

#[test]
fn sphere_boxed_wires_material_to_color() {
    let c = Color::new(50, 128, 0);
    let s = Sphere::boxed(Vector3::new(0, 23 * SCALE, 0), 10 * SCALE, c);
    assert_eq!(s.position, Vector3::new(0, 23 * SCALE, 0));
    assert_eq!(s.radius, 10 * SCALE);
    assert_eq!(s.color, c);
    assert_eq!(s.material, Diffuse::new(c));
}

#[test]
fn rect_carries_its_fields() {
    let r: Rect<u32> = Rect::new(0, 0, 2560, 1440);
    assert_eq!(r.x, 0);
    assert_eq!(r.y, 0);
    assert_eq!(r.width, 2560);
    assert_eq!(r.height, 1440);
}

#[test]
fn ray_inside_sphere_reports_near_root_behind_origin() {
    // The near root is never special-cased: from the center, it lies one
    // radius behind the origin.
    let s = Sphere::boxed(Vector3::new(0, 0, 0), 10 * SCALE, Color::new(3, 3, 3));
    let ray = Ray::new(Vector3::new(0, 0, 0), Vector3::new(0, 0, 1));
    let hit = s.intersect(&ray).expect("a ray from the center always hits");
    assert_eq!(hit.distance, -10 * SCALE);
    assert_eq!(hit.position, Vector3::new(0, 0, -10 * SCALE));
}
