//! The diffuse material and its shading rule.

use vstd::prelude::*;
use crate::fixed::{SCALE, MAX_COORD, tdiv, tdiv_i64, tdiv_i128};
use crate::fixed::{lemma_tdiv_exact, lemma_tdiv_shrinks};
use crate::objects::{Color, black_spec, Ray, Hitinfo, Sphere, Material, NORMAL_MAX};
use crate::objects::{ray_dir_spec, hitinfo_wf, scene_wf};
use crate::vector::{Vector3, in_range, norm2_spec, dot_spec, add_spec};
use crate::render::{resolve_far_spec, resolve_furthest};

verus! {

/// The fixed light direction: straight up, unit length.
pub open spec fn light_dir_spec() -> Vector3 {
    Vector3 { x: 0, y: SCALE, z: 0 }
}

/// A surface point whose light alignment falls below this (one sub-unit)
/// faces away from the light and is darkened.
pub const LIGHT_EPS: i64 = 1;

/// The darkening weight: how much of the shaded color survives when the
/// struck point faces away from the light (fixed-point, about a fifth).
pub const DARKEN_BIAS: i64 = 205;

/// A diffuse (matte) material carrying its base color.
#[derive(Clone, Copy, PartialEq, Eq, Structural, Debug)]
pub struct Diffuse {
    pub color: Color,
}

impl Diffuse {
    /// The material a given base color makes.
    pub open spec fn new_spec(color: Color) -> Diffuse {
        Diffuse { color }
    }

    /// Wraps a base color as a diffuse material.
    pub fn new(color: Color) -> (r: Diffuse)
        ensures
            r == Diffuse::new_spec(color),
    {
        Diffuse { color }
    }
}

/// The channel-wise average of two colors.
pub open spec fn add_color_spec(c1: Color, c2: Color) -> Color {
    Color {
        r: ((c1.r + c2.r) / 2) as u8,
        g: ((c1.g + c2.g) / 2) as u8,
        b: ((c1.b + c2.b) / 2) as u8,
    }
}

/// Averages two colors channel by channel.
pub fn add_color(c1: Color, c2: Color) -> (r: Color)
    ensures
        r == add_color_spec(c1, c2),
{
    Color {
        r: ((c1.r as u32 + c2.r as u32) / 2) as u8,
        g: ((c1.g as u32 + c2.g as u32) / 2) as u8,
        b: ((c1.b as u32 + c2.b as u32) / 2) as u8,
    }
}

/// One channel of a biased blend: `bias` parts of `a` and `SCALE - bias`
/// parts of `b`, in fixed-point weights.
pub open spec fn blend_channel_spec(a: u8, b: u8, bias: i64) -> u8 {
    tdiv(a * bias + b * (SCALE - bias), SCALE as int) as u8
}

/// The biased blend of two colors: `bias` (fixed-point, in `[0, SCALE]`)
/// parts of the first and the rest of the second.
pub open spec fn add_color_bias_spec(c1: Color, c2: Color, bias: i64) -> Color {
    Color {
        r: blend_channel_spec(c1.r, c2.r, bias),
        g: blend_channel_spec(c1.g, c2.g, bias),
        b: blend_channel_spec(c1.b, c2.b, bias),
    }
}

/// Blends two colors with the given fixed-point weight on the first.
pub fn add_color_bias(c1: Color, c2: Color, bias: i64) -> (r: Color)
    requires
        0 <= bias <= SCALE,
    ensures
        r == add_color_bias_spec(c1, c2, bias),
{
    Color {
        r: blend_channel(c1.r, c2.r, bias),
        g: blend_channel(c1.g, c2.g, bias),
        b: blend_channel(c1.b, c2.b, bias),
    }
}

/// Blends one channel with the given fixed-point weight on the first.
fn blend_channel(a: u8, b: u8, bias: i64) -> (r: u8)
    requires
        0 <= bias <= SCALE,
    ensures
        r == blend_channel_spec(a, b, bias),
{
    proof {
        assert(
            0 <= (a as int) * (bias as int)
            && 0 <= (b as int) * ((SCALE - bias) as int)
            && (a as int) * (bias as int) + (b as int) * ((SCALE - bias) as int) <= 255 * 1024
        ) by (nonlinear_arith)
            requires
                0 <= bias <= SCALE,
                0 <= a < 256,
                0 <= b < 256,
                SCALE == 1024i64,
        ;
    }
    let w: u64 = (a as u64) * (bias as u64) + (b as u64) * ((SCALE - bias) as u64);
    let q: u64 = w / (SCALE as u64);
    proof {
        assert(q <= 255) by (nonlinear_arith)
            requires
                q == w as int / 1024,
                w <= 255 * 1024,
        ;
    }
    q as u8
}

/// Relies on rand::random: draws a value of any type the standard
/// distribution covers; nothing is promised of the drawn value.
pub assume_specification<T>[ rand::random::<T> ]() -> (r: T)
    where
        rand::distributions::Standard: rand::distributions::Distribution<T>,
;

/// A random unit vector satisfies exactly this: components within one world
/// unit, and unit length within truncation slack (squared norm within
/// `6 * SCALE` below to `3 * SCALE` above the unit square).
pub open spec fn rnd_ok(v: Vector3) -> bool {
    &&& in_range(v, SCALE as int)
    &&& 1024 * 1024 - 6 * 1024 <= norm2_spec(v) <= 1024 * 1024 + 3 * 1024
}

/// One channel of the normal tint: the channel is weighted by
/// `normal / 2 + 1` (fixed-point) and clamped to the 8-bit range.
pub open spec fn modulate_channel_spec(nc: int, base: u8) -> u8 {
    let v = tdiv((tdiv(nc, 2) + SCALE) * base, SCALE as int);
    if v < 0 {
        0u8
    } else if v > 255 {
        255u8
    } else {
        v as u8
    }
}

/// The normal tint: each channel of the base color weighted by the matching
/// component of the struck normal, mapping x, y, z to r, g, b.
pub open spec fn modulate_spec(base: Color, n: Vector3) -> Color {
    Color {
        r: modulate_channel_spec(n.x as int, base.r),
        g: modulate_channel_spec(n.y as int, base.g),
        b: modulate_channel_spec(n.z as int, base.b),
    }
}

/// Tints one channel by a normal component, clamping to the 8-bit range.
fn modulate_channel(nc: i64, base: u8) -> (r: u8)
    requires
        -NORMAL_MAX <= nc <= NORMAL_MAX,
    ensures
        r == modulate_channel_spec(nc as int, base),
{
    proof {
        lemma_tdiv_shrinks(nc as int, 2);
    }
    let f: i64 = tdiv_i64(nc, 2) + SCALE;
    proof {
        assert(
            -0x3000_0000_0000_0000_0000int <= (f as int) * (base as int)
                <= 0x3000_0000_0000_0000_0000int
        ) by (nonlinear_arith)
            requires
                -0x2000_0000_0000_0000i64 - 1024 <= f <= 0x2000_0000_0000_0000i64 + 1024,
                0 <= base < 256,
        ;
    }
    let v: i128 = tdiv_i128((f as i128) * (base as i128), SCALE as i128);
    if v < 0 {
        0
    } else if v > 255 {
        255
    } else {
        v as u8
    }
}

/// What the shading of a struck point returns, once the diffuse bounce
/// vector `rnd` is fixed: the secondary ray leaves the hit toward
/// `normal + rnd`; a miss shades to the background (black); a strike tints
/// the material's base color by the struck normal and darkens it when the
/// struck point faces away from the light.
pub open spec fn shade_spec(scene: Seq<Sphere>, info: Hitinfo, base: Color, rnd: Vector3) -> Color {
    let ray = Ray {
        origin: info.position,
        direction: ray_dir_spec(add_spec(info.normal, rnd)),
    };
    match resolve_far_spec(scene, ray) {
        None => black_spec(),
        Some(sec) => {
            let tinted = modulate_spec(base, sec.normal);
            let alignment = tdiv(dot_spec(sec.normal, light_dir_spec()), SCALE as int);
            if alignment < LIGHT_EPS {
                add_color_bias_spec(tinted, black_spec(), DARKEN_BIAS)
            } else {
                tinted
            }
        },
    }
}

impl Diffuse {
    /// Draws a vector whose components are uniform over `[min, max]`.
    fn random_vector(min: i64, max: i64) -> (r: Vector3)
        requires
            -SCALE <= min <= max <= SCALE,
        ensures
            min <= r.x <= max,
            min <= r.y <= max,
            min <= r.z <= max,
    {
        let span: u64 = (max - min) as u64 + 1;
        let ux: u64 = rand::random::<u64>() % span;
        let uy: u64 = rand::random::<u64>() % span;
        let uz: u64 = rand::random::<u64>() % span;
        Vector3 { x: min + ux as i64, y: min + uy as i64, z: min + uz as i64 }
    }

    /// Draws a random diffuse bounce direction: a vector with components in
    /// `[-1, 1]` world units, normalized.  The (vanishingly rare) zero draw
    /// has no normalization and falls back to the upward unit vector.
    fn random_in_unit_sphere() -> (r: Vector3)
        ensures
            rnd_ok(r),
    {
        let v = Diffuse::random_vector(-SCALE, SCALE);
        let n: u128 = crate::vector::norm2_wide(&v);
        if n == 0 {
            let up = Vector3 { x: 0, y: SCALE, z: 0 };
            proof {
                assert(norm2_spec(up) == 1024 * 1024);
            }
            up
        } else {
            proof {
                crate::vector::lemma_norm2_nonneg(v);
            }
            v.normalize()
        }
    }

    /// Shades a struck point (the diffuse rule): a zero budget ends the
    /// recursion at once with the material's own base color; otherwise one
    /// diffuse bounce is traced through the scene and [`shade_spec`] gives
    /// the color.  A hit outside the scene bounds cannot seed a ray and
    /// shades to the background.
    pub fn calc_mat(&self, info: &Hitinfo, scene: &Vec<Sphere>, bounce_limit: u8) -> (r: Color)
        requires
            hitinfo_wf(*info),
            scene_wf(scene@),
        ensures
            bounce_limit == 0 ==> r == self.color,
            bounce_limit > 0 && !in_range(info.position, MAX_COORD as int) ==> r
                == black_spec(),
            bounce_limit > 0 && in_range(info.position, MAX_COORD as int) ==> exists|rnd: Vector3|
                rnd_ok(rnd) && r == shade_spec(scene@, *info, self.color, rnd),
    {
        if bounce_limit == 0 {
            return self.color;
        }
        if info.position.x < -MAX_COORD || info.position.x > MAX_COORD
            || info.position.y < -MAX_COORD || info.position.y > MAX_COORD
            || info.position.z < -MAX_COORD || info.position.z > MAX_COORD {
            return Color::black();
        }
        let rnd = Diffuse::random_in_unit_sphere();
        shade_bounce(info, scene, self.color, rnd)
    }
}

/// Traces one diffuse bounce for a fixed bounce vector `rnd` and returns
/// exactly the color [`shade_spec`] states: the whole shading rule, with the
/// random draw factored out as an argument.
pub fn shade_bounce(info: &Hitinfo, scene: &Vec<Sphere>, base: Color, rnd: Vector3) -> (r: Color)
    requires
        hitinfo_wf(*info),
        scene_wf(scene@),
        in_range(info.position, MAX_COORD as int),
        rnd_ok(rnd),
    ensures
        r == shade_spec(scene@, *info, base, rnd),
{
    let dir = info.normal.add(&rnd);
    let ray = Ray::new(info.position, dir);
    match resolve_furthest(scene, &ray) {
        None => Color::black(),
        Some(sec) => {
            let tinted = Color {
                r: modulate_channel(sec.normal.x, base.r),
                g: modulate_channel(sec.normal.y, base.g),
                b: modulate_channel(sec.normal.z, base.b),
            };
            let light = Vector3 { x: 0, y: SCALE, z: 0 };
            proof {
                lemma_tdiv_exact(sec.normal.y as int, SCALE as int);
                assert(dot_spec(sec.normal, light) == (sec.normal.y as int) * (SCALE as int));
            }
            let d: i64 = sec.normal.dot(&light);
            if d < LIGHT_EPS {
                add_color_bias(tinted, Color::black(), DARKEN_BIAS)
            } else {
                tinted
            }
        },
    }
}

impl Material for Diffuse {
    fn calc_mat(&self, info: &Hitinfo, scene: &Vec<Sphere>, bounce_limit: u8) -> (r: Color)
        ensures
            bounce_limit == 0 ==> r == self.color,
            bounce_limit > 0 && !in_range(info.position, MAX_COORD as int) ==> r
                == black_spec(),
            bounce_limit > 0 && in_range(info.position, MAX_COORD as int) ==> exists|rnd: Vector3|
                rnd_ok(rnd) && r == shade_spec(scene@, *info, self.color, rnd),
    {
        Diffuse::calc_mat(self, info, scene, bounce_limit)
    }
}

} // verus!
