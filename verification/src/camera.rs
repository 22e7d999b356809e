//! The perspective camera.
//!
//! A camera holds a position, a rotation given as three whole-degree Euler
//! angles, and a field-of-view value.  The field of view is a documented but
//! unused configuration knob: the projection takes its angle implicitly from
//! the image resolution, with the image width standing as the forward
//! component of every pixel's direction.  A pixel ray starts from the pixel's
//! offset against the image center, is normalized, and is rotated about the
//! Z, X and Y axes in that order, each by the matching rotation angle.
//!
//! The trigonometry is a fixed-point quarter-wave sine table at whole-degree
//! resolution, unfolded over the four quadrants.

use vstd::prelude::*;
use crate::fixed::{SCALE, MAX_COORD, tdiv, fx_mul, lemma_tdiv_mul_bound};
use crate::vector::{Vector3, VEC_MAX, in_range, norm2_spec, norm_spec};
use crate::objects::{Ray, ray_wf, ray_dir_spec};

verus! {

/// The sine of a whole angle in the first quadrant, in fixed point:
/// `round(sin(d degrees) * SCALE)` for `0 <= d <= 90`.
pub open spec fn sin_q_spec(d: int) -> int {
    if d == 0 { 0 } else if d == 1 { 18 } else if d == 2 { 36 } else if d == 3 { 54 } else if d == 4 { 71 }
 else if d == 5 { 89 } else if d == 6 { 107 } else if d == 7 { 125 } else if d == 8 { 143 } else if d == 9 { 160 }
 else if d == 10 { 178 } else if d == 11 { 195 } else if d == 12 { 213 } else if d == 13 { 230 } else if d == 14 { 248 }
 else if d == 15 { 265 } else if d == 16 { 282 } else if d == 17 { 299 } else if d == 18 { 316 } else if d == 19 { 333 }
 else if d == 20 { 350 } else if d == 21 { 367 } else if d == 22 { 384 } else if d == 23 { 400 } else if d == 24 { 416 }
 else if d == 25 { 433 } else if d == 26 { 449 } else if d == 27 { 465 } else if d == 28 { 481 } else if d == 29 { 496 }
 else if d == 30 { 512 } else if d == 31 { 527 } else if d == 32 { 543 } else if d == 33 { 558 } else if d == 34 { 573 }
 else if d == 35 { 587 } else if d == 36 { 602 } else if d == 37 { 616 } else if d == 38 { 630 } else if d == 39 { 644 }
 else if d == 40 { 658 } else if d == 41 { 672 } else if d == 42 { 685 } else if d == 43 { 698 } else if d == 44 { 711 }
 else if d == 45 { 724 } else if d == 46 { 737 } else if d == 47 { 749 } else if d == 48 { 761 } else if d == 49 { 773 }
 else if d == 50 { 784 } else if d == 51 { 796 } else if d == 52 { 807 } else if d == 53 { 818 } else if d == 54 { 828 }
 else if d == 55 { 839 } else if d == 56 { 849 } else if d == 57 { 859 } else if d == 58 { 868 } else if d == 59 { 878 }
 else if d == 60 { 887 } else if d == 61 { 896 } else if d == 62 { 904 } else if d == 63 { 912 } else if d == 64 { 920 }
 else if d == 65 { 928 } else if d == 66 { 935 } else if d == 67 { 943 } else if d == 68 { 949 } else if d == 69 { 956 }
 else if d == 70 { 962 } else if d == 71 { 968 } else if d == 72 { 974 } else if d == 73 { 979 } else if d == 74 { 984 }
 else if d == 75 { 989 } else if d == 76 { 994 } else if d == 77 { 998 } else if d == 78 { 1002 } else if d == 79 { 1005 }
 else if d == 80 { 1008 } else if d == 81 { 1011 } else if d == 82 { 1014 } else if d == 83 { 1016 } else if d == 84 { 1018 }
 else if d == 85 { 1020 } else if d == 86 { 1022 } else if d == 87 { 1023 } else if d == 88 { 1023 } else if d == 89 { 1024 }
 else if d == 90 { 1024 } else { 0 }
}

/// The sine of a whole angle of the full circle, in fixed point.
pub open spec fn sin_deg_spec(d: int) -> int
    recommends
        0 <= d < 360,
{
    if d <= 90 {
        sin_q_spec(d)
    } else if d <= 180 {
        sin_q_spec(180 - d)
    } else if d <= 270 {
        -sin_q_spec(d - 180)
    } else {
        -sin_q_spec(360 - d)
    }
}

/// The cosine of a whole angle of the full circle, in fixed point.
pub open spec fn cos_deg_spec(d: int) -> int
    recommends
        0 <= d < 360,
{
    sin_deg_spec((d + 90) % 360)
}

/// First-quadrant sine from the table.
fn sin_q(d: u32) -> (r: i64)
    requires
        d <= 90,
    ensures
        r == sin_q_spec(d as int),
        0 <= r <= 1024,
{
    if d == 0 { 0 } else if d == 1 { 18 } else if d == 2 { 36 } else if d == 3 { 54 } else if d == 4 { 71 }
 else if d == 5 { 89 } else if d == 6 { 107 } else if d == 7 { 125 } else if d == 8 { 143 } else if d == 9 { 160 }
 else if d == 10 { 178 } else if d == 11 { 195 } else if d == 12 { 213 } else if d == 13 { 230 } else if d == 14 { 248 }
 else if d == 15 { 265 } else if d == 16 { 282 } else if d == 17 { 299 } else if d == 18 { 316 } else if d == 19 { 333 }
 else if d == 20 { 350 } else if d == 21 { 367 } else if d == 22 { 384 } else if d == 23 { 400 } else if d == 24 { 416 }
 else if d == 25 { 433 } else if d == 26 { 449 } else if d == 27 { 465 } else if d == 28 { 481 } else if d == 29 { 496 }
 else if d == 30 { 512 } else if d == 31 { 527 } else if d == 32 { 543 } else if d == 33 { 558 } else if d == 34 { 573 }
 else if d == 35 { 587 } else if d == 36 { 602 } else if d == 37 { 616 } else if d == 38 { 630 } else if d == 39 { 644 }
 else if d == 40 { 658 } else if d == 41 { 672 } else if d == 42 { 685 } else if d == 43 { 698 } else if d == 44 { 711 }
 else if d == 45 { 724 } else if d == 46 { 737 } else if d == 47 { 749 } else if d == 48 { 761 } else if d == 49 { 773 }
 else if d == 50 { 784 } else if d == 51 { 796 } else if d == 52 { 807 } else if d == 53 { 818 } else if d == 54 { 828 }
 else if d == 55 { 839 } else if d == 56 { 849 } else if d == 57 { 859 } else if d == 58 { 868 } else if d == 59 { 878 }
 else if d == 60 { 887 } else if d == 61 { 896 } else if d == 62 { 904 } else if d == 63 { 912 } else if d == 64 { 920 }
 else if d == 65 { 928 } else if d == 66 { 935 } else if d == 67 { 943 } else if d == 68 { 949 } else if d == 69 { 956 }
 else if d == 70 { 962 } else if d == 71 { 968 } else if d == 72 { 974 } else if d == 73 { 979 } else if d == 74 { 984 }
 else if d == 75 { 989 } else if d == 76 { 994 } else if d == 77 { 998 } else if d == 78 { 1002 } else if d == 79 { 1005 }
 else if d == 80 { 1008 } else if d == 81 { 1011 } else if d == 82 { 1014 } else if d == 83 { 1016 } else if d == 84 { 1018 }
 else if d == 85 { 1020 } else if d == 86 { 1022 } else if d == 87 { 1023 } else if d == 88 { 1023 } else if d == 89 { 1024 }
 else if d == 90 { 1024 } else { 0 }
}

/// Full-circle sine from the table, by quadrant symmetry.
pub fn sin_deg(d: u32) -> (r: i64)
    requires
        d < 360,
    ensures
        r == sin_deg_spec(d as int),
        -1024 <= r <= 1024,
{
    if d <= 90 {
        sin_q(d)
    } else if d <= 180 {
        sin_q(180 - d)
    } else if d <= 270 {
        -sin_q(d - 180)
    } else {
        -sin_q(360 - d)
    }
}

/// Full-circle cosine from the table.
pub fn cos_deg(d: u32) -> (r: i64)
    requires
        d < 360,
    ensures
        r == cos_deg_spec(d as int),
        -1024 <= r <= 1024,
{
    sin_deg((d + 90) % 360)
}

/// Rotation about the Z axis by an angle with sine `s` and cosine `c`.
pub open spec fn rot_z_spec(v: Vector3, s: int, c: int) -> Vector3 {
    Vector3 {
        x: (tdiv(v.x * c, SCALE as int) - tdiv(v.y * s, SCALE as int)) as i64,
        y: (tdiv(v.x * s, SCALE as int) + tdiv(v.y * c, SCALE as int)) as i64,
        z: v.z,
    }
}

/// Rotation about the X axis by an angle with sine `s` and cosine `c`.
pub open spec fn rot_x_spec(v: Vector3, s: int, c: int) -> Vector3 {
    Vector3 {
        x: v.x,
        y: (tdiv(v.y * c, SCALE as int) - tdiv(v.z * s, SCALE as int)) as i64,
        z: (tdiv(v.y * s, SCALE as int) + tdiv(v.z * c, SCALE as int)) as i64,
    }
}

/// Rotation about the Y axis by an angle with sine `s` and cosine `c`.
pub open spec fn rot_y_spec(v: Vector3, s: int, c: int) -> Vector3 {
    Vector3 {
        x: (tdiv(v.x * c, SCALE as int) + tdiv(v.z * s, SCALE as int)) as i64,
        y: v.y,
        z: (tdiv(v.z * c, SCALE as int) - tdiv(v.x * s, SCALE as int)) as i64,
    }
}

/// The camera's full rotation: about Z, then X, then Y, each by the matching
/// whole-degree Euler angle, reduced into `[0, 360)` at use (the angles are
/// stored exactly as given; the table is periodic).
pub open spec fn rotate_all_spec(rot: Vector3, v: Vector3) -> Vector3 {
    let v1 = rot_z_spec(v, sin_deg_spec((rot.z as int) % 360), cos_deg_spec((rot.z as int) % 360));
    let v2 = rot_x_spec(v1, sin_deg_spec((rot.x as int) % 360), cos_deg_spec((rot.x as int) % 360));
    rot_y_spec(v2, sin_deg_spec((rot.y as int) % 360), cos_deg_spec((rot.y as int) % 360))
}

/// Rotates about the Z axis by a whole-degree angle.
fn rotate_z(v: &Vector3, deg: u32, Ghost(b): Ghost<int>) -> (r: Vector3)
    requires
        deg < 360,
        0 <= b <= 0x1000_0000_0000,
        in_range(*v, b),
    ensures
        r == rot_z_spec(*v, sin_deg_spec(deg as int), cos_deg_spec(deg as int)),
        in_range(r, 2 * b),
{
    let s = sin_deg(deg);
    let c = cos_deg(deg);
    proof {
        lemma_rot_products(v.x as int, v.y as int, s as int, c as int, b);
        lemma_tdiv_mul_bound(v.x as int, c as int, b);
        lemma_tdiv_mul_bound(v.y as int, s as int, b);
        lemma_tdiv_mul_bound(v.x as int, s as int, b);
        lemma_tdiv_mul_bound(v.y as int, c as int, b);
    }
    Vector3 {
        x: fx_mul(v.x, c) - fx_mul(v.y, s),
        y: fx_mul(v.x, s) + fx_mul(v.y, c),
        z: v.z,
    }
}

/// Rotates about the X axis by a whole-degree angle.
fn rotate_x(v: &Vector3, deg: u32, Ghost(b): Ghost<int>) -> (r: Vector3)
    requires
        deg < 360,
        0 <= b <= 0x1000_0000_0000,
        in_range(*v, b),
    ensures
        r == rot_x_spec(*v, sin_deg_spec(deg as int), cos_deg_spec(deg as int)),
        in_range(r, 2 * b),
{
    let s = sin_deg(deg);
    let c = cos_deg(deg);
    proof {
        lemma_rot_products(v.y as int, v.z as int, s as int, c as int, b);
        lemma_tdiv_mul_bound(v.y as int, c as int, b);
        lemma_tdiv_mul_bound(v.z as int, s as int, b);
        lemma_tdiv_mul_bound(v.y as int, s as int, b);
        lemma_tdiv_mul_bound(v.z as int, c as int, b);
    }
    Vector3 {
        x: v.x,
        y: fx_mul(v.y, c) - fx_mul(v.z, s),
        z: fx_mul(v.y, s) + fx_mul(v.z, c),
    }
}

/// Rotates about the Y axis by a whole-degree angle.
fn rotate_y(v: &Vector3, deg: u32, Ghost(b): Ghost<int>) -> (r: Vector3)
    requires
        deg < 360,
        0 <= b <= 0x1000_0000_0000,
        in_range(*v, b),
    ensures
        r == rot_y_spec(*v, sin_deg_spec(deg as int), cos_deg_spec(deg as int)),
        in_range(r, 2 * b),
{
    let s = sin_deg(deg);
    let c = cos_deg(deg);
    proof {
        lemma_rot_products(v.x as int, v.z as int, s as int, c as int, b);
        lemma_tdiv_mul_bound(v.x as int, c as int, b);
        lemma_tdiv_mul_bound(v.z as int, s as int, b);
        lemma_tdiv_mul_bound(v.x as int, s as int, b);
        lemma_tdiv_mul_bound(v.z as int, c as int, b);
    }
    Vector3 {
        x: fx_mul(v.x, c) + fx_mul(v.z, s),
        y: v.y,
        z: fx_mul(v.z, c) - fx_mul(v.x, s),
    }
}

/// Products of bounded components and table values fit the multiplier.
proof fn lemma_rot_products(p: int, q: int, s: int, c: int, b: int)
    requires
        -b <= p <= b,
        -b <= q <= b,
        -1024 <= s <= 1024,
        -1024 <= c <= 1024,
        0 <= b <= 0x1000_0000_0000,
    ensures
        -0x4000_0000_0000_0000 <= p * c <= 0x4000_0000_0000_0000,
        -0x4000_0000_0000_0000 <= p * s <= 0x4000_0000_0000_0000,
        -0x4000_0000_0000_0000 <= q * c <= 0x4000_0000_0000_0000,
        -0x4000_0000_0000_0000 <= q * s <= 0x4000_0000_0000_0000,
{
    assert(
        -0x4000_0000_0000_0000 <= p * c <= 0x4000_0000_0000_0000
        && -0x4000_0000_0000_0000 <= p * s <= 0x4000_0000_0000_0000
        && -0x4000_0000_0000_0000 <= q * c <= 0x4000_0000_0000_0000
        && -0x4000_0000_0000_0000 <= q * s <= 0x4000_0000_0000_0000
    ) by (nonlinear_arith)
        requires
            -b <= p <= b,
            -b <= q <= b,
            -1024 <= s <= 1024,
            -1024 <= c <= 1024,
            0 <= b <= 0x1000_0000_0000,
    ;
}

/// A perspective camera: a position, whole-degree Euler angles, and the
/// (unused) field-of-view knob.
pub struct Camera {
    pub position: Vector3,
    pub rotation: Vector3,
    pub fov: i64,
}

/// A well-formed camera: position inside the scene bounds; the rotation
/// angles are whole degrees, stored exactly as given (any value above the
/// machine minimum, so that reduction into `[0, 360)` at use cannot
/// overflow).
pub open spec fn camera_wf(c: Camera) -> bool {
    &&& in_range(c.position, MAX_COORD as int)
    &&& c.rotation.x > i64::MIN
    &&& c.rotation.y > i64::MIN
    &&& c.rotation.z > i64::MIN
}

/// The unnormalized direction of a pixel's ray: the pixel's offset against
/// the image center, with the image width as the forward component.
pub open spec fn pixel_dir_spec(x: int, y: int, w: int, h: int) -> Vector3 {
    Vector3 {
        x: (x * SCALE - (w * SCALE) / 2) as i64,
        y: (y * SCALE - (h * SCALE) / 2) as i64,
        z: (w * SCALE) as i64,
    }
}

/// The ray a camera casts through a pixel: the pixel direction, normalized,
/// rotated by the camera's angles, from the camera's position.
pub open spec fn generate_ray_spec(cam: Camera, x: int, y: int, w: int, h: int) -> Ray {
    let d0 = pixel_dir_spec(x, y, w, h);
    let d1 = norm_spec(d0);
    let d2 = rotate_all_spec(cam.rotation, d1);
    Ray { origin: cam.position, direction: ray_dir_spec(d2) }
}

/// Reduces a whole-degree angle into `[0, 360)`.
fn reduce_deg(d: i64) -> (r: u32)
    requires
        d > i64::MIN,
    ensures
        r == (d as int) % 360,
        r < 360,
{
    if d >= 0 {
        ((d as u64) % 360) as u32
    } else {
        let m: u64 = ((-d) as u64) % 360;
        proof {
            vstd::arithmetic::div_mod::lemma_fundamental_div_mod(-d as int, 360);
            let q0 = (-d as int) / 360;
            if m == 0 {
                vstd::arithmetic::div_mod::lemma_fundamental_div_mod_converse(
                    d as int, 360, -q0, 0);
            } else {
                vstd::arithmetic::div_mod::lemma_fundamental_div_mod_converse(
                    d as int, 360, -q0 - 1, 360 - m as int);
            }
        }
        if m == 0 {
            0
        } else {
            (360 - m) as u32
        }
    }
}

impl Camera {
    /// Builds a camera.  The rotation angles are stored exactly as given;
    /// [`rotate_vec`](Camera::rotate_vec) reduces them into `[0, 360)` when
    /// they are used, so any whole-degree angle is accepted.
    pub fn new(position: Vector3, rotation: Vector3, fov: i64) -> (r: Camera)
        requires
            in_range(position, MAX_COORD as int),
            rotation.x > i64::MIN,
            rotation.y > i64::MIN,
            rotation.z > i64::MIN,
        ensures
            r.position == position,
            r.rotation == rotation,
            r.fov == fov,
            camera_wf(r),
    {
        Camera { position, rotation, fov }
    }

    /// Applies the camera's rotation to a vector: about Z, then X, then Y,
    /// each angle reduced into `[0, 360)` first.  On a unit-scale vector the
    /// squared norm moves by at most `21 * SCALE` per axis
    /// ([`lemma_rotate_magnitude`]); a vector of only a few sub-units can
    /// collapse to zero under truncation, so
    /// [`generate_ray`](Camera::generate_ray) normalizes again after
    /// rotating and every constructed ray direction is unit length within
    /// slack.
    pub fn rotate_vec(&self, v: Vector3) -> (r: Vector3)
        requires
            camera_wf(*self),
            in_range(v, SCALE as int),
        ensures
            r == rotate_all_spec(self.rotation, v),
            in_range(r, 8 * SCALE as int),
    {
        let dz = reduce_deg(self.rotation.z);
        let dx = reduce_deg(self.rotation.x);
        let dy = reduce_deg(self.rotation.y);
        let v1 = rotate_z(&v, dz, Ghost(SCALE as int));
        let v2 = rotate_x(&v1, dx, Ghost(2 * SCALE as int));
        rotate_y(&v2, dy, Ghost(4 * SCALE as int))
    }

    /// Casts the ray for a pixel of a `width` by `height` image.
    pub fn generate_ray(&self, x: u32, y: u32, width: u32, height: u32) -> (r: Ray)
        requires
            camera_wf(*self),
            1 <= width <= 4096,
            1 <= height <= 4096,
            x < width,
            y < height,
        ensures
            r == generate_ray_spec(*self, x as int, y as int, width as int, height as int),
            ray_wf(r),
    {
        let half_w: i64 = (((width as u64) * 1024) / 2) as i64;
        let half_h: i64 = (((height as u64) * 1024) / 2) as i64;
        let d0 = Vector3 {
            x: (x as i64) * SCALE - half_w,
            y: (y as i64) * SCALE - half_h,
            z: (width as i64) * SCALE,
        };
        proof {
            assert(d0 == pixel_dir_spec(x as int, y as int, width as int, height as int));
            assert(norm2_spec(d0) >= 1) by (nonlinear_arith)
                requires
                    d0.z >= 1024,
                    norm2_spec(d0) == (d0.x as int) * (d0.x as int) + (d0.y as int) * (d0.y as int)
                        + (d0.z as int) * (d0.z as int),
            ;
        }
        let d1 = d0.normalize();
        let d2 = self.rotate_vec(d1);
        Ray::new(self.position, d2)
    }
}


/// The table respects the circle identity within rounding: for a
/// first-quadrant angle, the squares of its sine and cosine sum to the unit
/// square within `2 * SCALE`, and each value lies in `[0, SCALE]`.
proof fn lemma_sin_q_circle(d: int)
    requires
        0 <= d <= 90,
    ensures
        0 <= sin_q_spec(d) <= 1024,
        0 <= sin_q_spec(90 - d) <= 1024,
        1024 * 1024 - 2 * 1024 <= sin_q_spec(d) * sin_q_spec(d) + sin_q_spec(90 - d) * sin_q_spec(
            90 - d,
        ) <= 1024 * 1024 + 2 * 1024,
{
}

/// The full-circle sine and cosine respect the circle identity within
/// rounding, and each lies in `[-SCALE, SCALE]`.
proof fn lemma_sin_cos_circle(d: int)
    requires
        0 <= d < 360,
    ensures
        -1024 <= sin_deg_spec(d) <= 1024,
        -1024 <= cos_deg_spec(d) <= 1024,
        1024 * 1024 - 2 * 1024 <= sin_deg_spec(d) * sin_deg_spec(d) + cos_deg_spec(d)
            * cos_deg_spec(d) <= 1024 * 1024 + 2 * 1024,
{
    let sv = sin_deg_spec(d);
    let cv = cos_deg_spec(d);
    if d < 270 {
        vstd::arithmetic::div_mod::lemma_fundamental_div_mod_converse(d + 90, 360, 0, d + 90);
        assert((d + 90) % 360 == d + 90);
    } else {
        vstd::arithmetic::div_mod::lemma_fundamental_div_mod_converse(d + 90, 360, 1, d - 270);
        assert((d + 90) % 360 == d - 270);
    }
    if d <= 90 {
        lemma_sin_q_circle(d);
        assert(sv == sin_q_spec(d));
        assert(cv == sin_q_spec(90 - d));
        assert(sv * sv + cv * cv == sin_q_spec(d) * sin_q_spec(d) + sin_q_spec(90 - d)
            * sin_q_spec(90 - d));
    } else if d <= 180 {
        let e = 180 - d;
        lemma_sin_q_circle(e);
        assert(sv == sin_q_spec(e));
        assert(cv == -sin_q_spec(90 - e));
        assert(cv * cv == sin_q_spec(90 - e) * sin_q_spec(90 - e)) by (nonlinear_arith)
            requires
                cv == -sin_q_spec(90 - e),
        ;
    } else if d <= 270 {
        let e = d - 180;
        lemma_sin_q_circle(e);
        assert(sv == -sin_q_spec(e));
        if d < 270 {
            assert(cv == -sin_q_spec(90 - e));
        } else {
            assert(cv == sin_q_spec(0));
            assert(90 - e == 0);
        }
        assert(sv * sv == sin_q_spec(e) * sin_q_spec(e)) by (nonlinear_arith)
            requires
                sv == -sin_q_spec(e),
        ;
        assert(cv * cv == sin_q_spec(90 - e) * sin_q_spec(90 - e)) by (nonlinear_arith)
            requires
                cv == -sin_q_spec(90 - e) || cv == sin_q_spec(90 - e),
        ;
    } else {
        let e = 360 - d;
        lemma_sin_q_circle(e);
        assert(sv == -sin_q_spec(e));
        assert(cv == sin_q_spec(90 - e));
        assert(sv * sv == sin_q_spec(e) * sin_q_spec(e)) by (nonlinear_arith)
            requires
                sv == -sin_q_spec(e),
        ;
    }
}

/// The square of a value within `2 * SCALE` of `a` is within
/// `4 * SCALE * |a| + 4 * SCALE * SCALE` of the square of `a`.
proof fn lemma_near_square(w: int, a: int, aa: int)
    requires
        a - 2048 < w < a + 2048,
        aa == if a >= 0 { a } else { -a },
    ensures
        w * w <= a * a + 4096 * aa + 4194304,
        w * w >= a * a - 4096 * aa,
{
    assert(w * w <= a * a + 4096 * aa + 4194304 && w * w >= a * a - 4096 * aa)
        by (nonlinear_arith)
        requires
            a - 2048 < w < a + 2048,
            aa == if a >= 0 { a } else { -a },
    ;
}

/// One planar rotation step moves the squared norm of the rotated pair by
/// at most `21 * SCALE`, for unit-scale components and table sine/cosine.
proof fn lemma_rot_pair_norm(x: int, y: int, s: int, c: int, qx: int, qy: int)
    requires
        -1050 <= x <= 1050,
        -1050 <= y <= 1050,
        -1024 <= s <= 1024,
        -1024 <= c <= 1024,
        1024 * 1024 - 2 * 1024 <= s * s + c * c <= 1024 * 1024 + 2 * 1024,
        qx == tdiv(x * c, SCALE as int) - tdiv(y * s, SCALE as int),
        qy == tdiv(x * s, SCALE as int) + tdiv(y * c, SCALE as int),
    ensures
        x * x + y * y - 21504 <= qx * qx + qy * qy <= x * x + y * y + 21504,
{
    let a = x * c - y * s;
    let b = x * s + y * c;
    assert(
        -1075200 <= x * c <= 1075200 && -1075200 <= y * s <= 1075200 && -1075200 <= x * s
            <= 1075200 && -1075200 <= y * c <= 1075200
    ) by (nonlinear_arith)
        requires
            -1050 <= x <= 1050,
            -1050 <= y <= 1050,
            -1024 <= s <= 1024,
            -1024 <= c <= 1024,
    ;
    let aa = if a >= 0 { a } else { -a };
    let ab = if b >= 0 { b } else { -b };
    assert(aa <= 2150400 && ab <= 2150400);
    crate::fixed::lemma_tdiv_near(x * c);
    crate::fixed::lemma_tdiv_near(y * s);
    crate::fixed::lemma_tdiv_near(x * s);
    crate::fixed::lemma_tdiv_near(y * c);
    let wx = qx * 1024;
    let wy = qy * 1024;
    assert(wx == tdiv(x * c, SCALE as int) * SCALE - tdiv(y * s, SCALE as int) * SCALE)
        by (nonlinear_arith)
        requires
            qx == tdiv(x * c, SCALE as int) - tdiv(y * s, SCALE as int),
            wx == qx * 1024,
            SCALE == 1024i64,
    ;
    assert(wy == tdiv(x * s, SCALE as int) * SCALE + tdiv(y * c, SCALE as int) * SCALE)
        by (nonlinear_arith)
        requires
            qy == tdiv(x * s, SCALE as int) + tdiv(y * c, SCALE as int),
            wy == qy * 1024,
            SCALE == 1024i64,
    ;
    assert(a - 2048 < wx < a + 2048);
    assert(b - 2048 < wy < b + 2048);
    lemma_near_square(wx, a, aa);
    lemma_near_square(wy, b, ab);
    // the exact rotation is orthogonal: a^2 + b^2 == (x^2 + y^2)(s^2 + c^2)
    let xc = x * c;
    let ys = y * s;
    let xs = x * s;
    let yc = y * c;
    assert(a * a == xc * xc - 2 * (xc * ys) + ys * ys) by (nonlinear_arith)
        requires
            a == xc - ys,
    ;
    assert(b * b == xs * xs + 2 * (xs * yc) + yc * yc) by (nonlinear_arith)
        requires
            b == xs + yc,
    ;
    assert(xc * ys == xs * yc) by (nonlinear_arith)
        requires
            xc == x * c,
            ys == y * s,
            xs == x * s,
            yc == y * c,
    ;
    assert(
        xc * xc == (x * x) * (c * c) && ys * ys == (y * y) * (s * s) && xs * xs == (x * x) * (
        s * s) && yc * yc == (y * y) * (c * c)
    ) by (nonlinear_arith)
        requires
            xc == x * c,
            ys == y * s,
            xs == x * s,
            yc == y * c,
    ;
    assert((x * x + y * y) * (s * s + c * c) == (x * x) * (s * s) + (x * x) * (c * c) + (y * y)
        * (s * s) + (y * y) * (c * c)) by (nonlinear_arith);
    assert(a * a + b * b == (x * x + y * y) * (s * s + c * c));
    let u = x * x + y * y;
    assert(0 <= u <= 2205000) by (nonlinear_arith)
        requires
            -1050 <= x <= 1050,
            -1050 <= y <= 1050,
            u == x * x + y * y,
    ;
    assert(
        u * (1024 * 1024 - 2 * 1024) <= (x * x + y * y) * (s * s + c * c) <= u * (1024 * 1024
            + 2 * 1024)
    ) by (nonlinear_arith)
        requires
            1024 * 1024 - 2 * 1024 <= s * s + c * c <= 1024 * 1024 + 2 * 1024,
            u == x * x + y * y,
            u >= 0,
    ;
    assert(wx * wx == (qx * qx) * 1048576 && wy * wy == (qy * qy) * 1048576)
        by (nonlinear_arith)
        requires
            wx == qx * 1024,
            wy == qy * 1024,
    ;
    assert((qx * qx + qy * qy) * 1048576 == (qx * qx) * 1048576 + (qy * qy) * 1048576)
        by (nonlinear_arith);
    assert((qx * qx + qy * qy) * 1048576 <= u * 1050624 + 4096 * (aa + ab) + 8388608);
    assert((qx * qx + qy * qy) * 1048576 >= u * 1046528 - 4096 * (aa + ab));
    assert((qx * qx + qy * qy) * 1048576 <= (u + 21504) * 1048576);
    assert((qx * qx + qy * qy) * 1048576 >= (u - 21504) * 1048576);
    assert(qx * qx + qy * qy <= u + 21504 && qx * qx + qy * qy >= u - 21504)
        by (nonlinear_arith)
        requires
            (qx * qx + qy * qy) * 1048576 <= (u + 21504) * 1048576,
            (qx * qx + qy * qy) * 1048576 >= (u - 21504) * 1048576,
    ;
}

/// Components are bounded by any bound whose successor square exceeds the
/// squared norm.
proof fn lemma_comps_bounded(v: Vector3, m: int, b: int)
    requires
        norm2_spec(v) <= m,
        0 <= b,
        m < (b + 1) * (b + 1),
    ensures
        in_range(v, b),
{
    assert(
        -(b + 1) < v.x < b + 1 && -(b + 1) < v.y < b + 1 && -(b + 1) < v.z < b + 1
    ) by (nonlinear_arith)
        requires
            (v.x as int) * (v.x as int) + (v.y as int) * (v.y as int) + (v.z as int) * (
            v.z as int) <= m,
            m < (b + 1) * (b + 1),
            b >= 0,
    ;
}

/// Law: the camera rotation preserves magnitude within truncation slack on
/// unit-scale vectors: each axis rotation moves the squared norm by at most
/// `21 * SCALE`, so a direction of unit length (within the slack ray
/// construction guarantees) keeps its squared norm within `63 * SCALE` over
/// the three rotations.  Vectors of only a few sub-units are excluded:
/// truncation can collapse them (rotating `(1, 0, 0)` thirty degrees about
/// Z gives the zero vector), which is why ray construction normalizes after
/// rotating.
pub proof fn lemma_rotate_magnitude(rot: Vector3, v: Vector3)
    requires
        1024 * 1024 - 6 * 1024 <= norm2_spec(v) <= 1024 * 1024 + 3 * 1024,
    ensures
        norm2_spec(v) - 64512 <= norm2_spec(rotate_all_spec(rot, v)),
        norm2_spec(rotate_all_spec(rot, v)) <= norm2_spec(v) + 64512,
{
    let dz = (rot.z as int) % 360;
    let dx = (rot.x as int) % 360;
    let dy = (rot.y as int) % 360;
    vstd::arithmetic::div_mod::lemma_mod_bound(rot.z as int, 360);
    vstd::arithmetic::div_mod::lemma_mod_bound(rot.x as int, 360);
    vstd::arithmetic::div_mod::lemma_mod_bound(rot.y as int, 360);
    lemma_sin_cos_circle(dz);
    lemma_sin_cos_circle(dx);
    lemma_sin_cos_circle(dy);
    let sz = sin_deg_spec(dz);
    let cz = cos_deg_spec(dz);
    let sx = sin_deg_spec(dx);
    let cx = cos_deg_spec(dx);
    let sy = sin_deg_spec(dy);
    let cy = cos_deg_spec(dy);
    // first rotation, about Z: the (x, y) pair turns, z is kept
    lemma_comps_bounded(v, 1024int * 1024 + 3 * 1024, 1026int);
    lemma_tdiv_mul_bound(v.x as int, cz, 1026);
    lemma_tdiv_mul_bound(v.y as int, sz, 1026);
    lemma_tdiv_mul_bound(v.x as int, sz, 1026);
    lemma_tdiv_mul_bound(v.y as int, cz, 1026);
    let v1 = rot_z_spec(v, sz, cz);
    assert(v1.x == tdiv(v.x * cz, SCALE as int) - tdiv(v.y * sz, SCALE as int));
    assert(v1.y == tdiv(v.x * sz, SCALE as int) + tdiv(v.y * cz, SCALE as int));
    lemma_rot_pair_norm(v.x as int, v.y as int, sz, cz, v1.x as int, v1.y as int);
    assert(norm2_spec(v) - 21504 <= norm2_spec(v1) <= norm2_spec(v) + 21504);
    // second rotation, about X: the (y, z) pair turns, x is kept
    lemma_comps_bounded(v1, 1024int * 1024 + 3 * 1024 + 21504, 1036int);
    lemma_tdiv_mul_bound(v1.y as int, cx, 1036);
    lemma_tdiv_mul_bound(v1.z as int, sx, 1036);
    lemma_tdiv_mul_bound(v1.y as int, sx, 1036);
    lemma_tdiv_mul_bound(v1.z as int, cx, 1036);
    let v2 = rot_x_spec(v1, sx, cx);
    assert(v2.y == tdiv(v1.y * cx, SCALE as int) - tdiv(v1.z * sx, SCALE as int));
    assert(v2.z == tdiv(v1.y * sx, SCALE as int) + tdiv(v1.z * cx, SCALE as int));
    lemma_rot_pair_norm(v1.y as int, v1.z as int, sx, cx, v2.y as int, v2.z as int);
    assert(norm2_spec(v1) - 21504 <= norm2_spec(v2) <= norm2_spec(v1) + 21504);
    // third rotation, about Y: the (z, x) pair turns, y is kept
    lemma_comps_bounded(v2, 1024int * 1024 + 3 * 1024 + 2 * 21504, 1046int);
    lemma_tdiv_mul_bound(v2.z as int, cy, 1046);
    lemma_tdiv_mul_bound(v2.x as int, sy, 1046);
    lemma_tdiv_mul_bound(v2.z as int, sy, 1046);
    lemma_tdiv_mul_bound(v2.x as int, cy, 1046);
    let v3 = rot_y_spec(v2, sy, cy);
    assert(v3.z == tdiv(v2.z * cy, SCALE as int) - tdiv(v2.x * sy, SCALE as int));
    assert(v3.x == tdiv(v2.z * sy, SCALE as int) + tdiv(v2.x * cy, SCALE as int));
    lemma_rot_pair_norm(v2.z as int, v2.x as int, sy, cy, v3.z as int, v3.x as int);
    assert(norm2_spec(v2) - 21504 <= norm2_spec(v3) <= norm2_spec(v2) + 21504);
    assert(v3 == rotate_all_spec(rot, v));
}

} // verus!
