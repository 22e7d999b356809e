//! Rays, hit records, spheres and the intersection contract.
//!
//! A sphere intersection follows the closed-form quadratic: with `oc` the
//! vector from the sphere's center to the ray origin, `a = |d|^2`,
//! `half_b = d . oc` and `c = |oc|^2 - r^2`, the ray misses exactly when the
//! discriminant `half_b^2 - a c` is negative, and otherwise the reported hit
//! sits at the near root `(-half_b - sqrt(disc)) / a`.  The far root is never
//! taken, so a ray that starts inside a sphere reports a hit behind its
//! origin (a negative distance); nothing rejects negative distances here.

use vstd::prelude::*;
use crate::fixed::{SCALE, MAX_COORD, tdiv, sqrt_floor, tdiv_i128, isqrt_u128, fx_mul};
use crate::fixed::{lemma_sqrt_floor_bounds, lemma_sqrt_floor_unique, lemma_tdiv_shrinks, lemma_tdiv_mul_bound};
use crate::vector::{Vector3, VEC_MAX, in_range, dot_spec, norm2_spec, norm_spec, sub_spec};
use crate::vector::{dot_wide, norm2_wide, lemma_norm2_nonneg};
use crate::material::Diffuse;

verus! {

/// Largest ray parameter (fixed-point) an intersection can report.
pub const T_MAX: i64 = 0x2_0000_0000_0000;

/// Largest coordinate magnitude of a reported hit position.
pub const POS_MAX: i64 = 0x4_0000_0000_0000;

/// Largest component magnitude of a reported hit normal.
pub const NORMAL_MAX: i64 = 0x2000_0000_0000_0000;

/// A display color: three 8-bit channels.
#[derive(Clone, Copy, PartialEq, Eq, Structural, Debug)]
pub struct Color {
    pub r: u8,
    pub g: u8,
    pub b: u8,
}

/// The background color: black.
pub open spec fn black_spec() -> Color {
    Color { r: 0, g: 0, b: 0 }
}

impl Color {
    /// Builds a color from its three channels.
    pub fn new(r: u8, g: u8, b: u8) -> (c: Color)
        ensures
            c == (Color { r, g, b }),
    {
        Color { r, g, b }
    }

    /// The background color: black.
    pub fn black() -> (c: Color)
        ensures
            c == black_spec(),
    {
        Color { r: 0, g: 0, b: 0 }
    }
}

/// A ray: an origin and a unit-length direction.
#[derive(Clone, Copy, PartialEq, Eq, Structural, Debug)]
pub struct Ray {
    pub origin: Vector3,
    pub direction: Vector3,
}

/// The direction a constructed ray stores: the normalized input, or the
/// canonical forward axis when the input is the (degenerate) zero vector.
pub open spec fn ray_dir_spec(direction: Vector3) -> Vector3 {
    if norm2_spec(direction) == 0 {
        Vector3 { x: 0, y: 0, z: SCALE }
    } else {
        norm_spec(direction)
    }
}

/// A well-formed ray: origin inside the scene bounds, direction unit length
/// within truncation slack (squared norm within `6 * SCALE` below to
/// `3 * SCALE` above the unit square).
pub open spec fn ray_wf(ray: Ray) -> bool {
    &&& in_range(ray.origin, MAX_COORD as int)
    &&& in_range(ray.direction, SCALE as int)
    &&& 1024 * 1024 - 6 * 1024 <= norm2_spec(ray.direction) <= 1024 * 1024 + 3 * 1024
}

/// The point the ray reaches at parameter `t` (fixed-point).
pub open spec fn ray_at_spec(ray: Ray, t: int) -> Vector3 {
    Vector3 {
        x: (ray.origin.x + tdiv(t * ray.direction.x, SCALE as int)) as i64,
        y: (ray.origin.y + tdiv(t * ray.direction.y, SCALE as int)) as i64,
        z: (ray.origin.z + tdiv(t * ray.direction.z, SCALE as int)) as i64,
    }
}

impl Ray {
    /// Builds a ray, normalizing the direction at construction.  A zero
    /// direction has no normalization; it is replaced by the forward axis,
    /// so construction never produces a degenerate ray.
    pub fn new(origin: Vector3, direction: Vector3) -> (r: Ray)
        requires
            in_range(origin, MAX_COORD as int),
            in_range(direction, VEC_MAX as int),
        ensures
            r.origin == origin,
            r.direction == ray_dir_spec(direction),
            ray_wf(r),
    {
        proof {
            lemma_norm2_nonneg(direction);
        }
        let n: u128 = norm2_wide(&direction);
        if n == 0 {
            let d = Vector3 { x: 0, y: 0, z: SCALE };
            proof {
                assert(norm2_spec(d) == 1024 * 1024);
            }
            Ray { origin, direction: d }
        } else {
            Ray { origin, direction: direction.normalize() }
        }
    }

    /// The parametric point `origin + t * direction`.  For a well-formed
    /// ray the direction is unit length within truncation slack, so the
    /// parameter `t` measures Euclidean distance along the ray to the same
    /// relative slack.
    pub fn function(&self, t: i64) -> (r: Vector3)
        requires
            ray_wf(*self),
            -T_MAX <= t <= T_MAX,
        ensures
            r.x == self.origin.x + tdiv(t * self.direction.x, SCALE as int),
            r.y == self.origin.y + tdiv(t * self.direction.y, SCALE as int),
            r.z == self.origin.z + tdiv(t * self.direction.z, SCALE as int),
            r == ray_at_spec(*self, t as int),
            in_range(r, POS_MAX as int),
    {
        proof {
            lemma_tdiv_mul_bound(t as int, self.direction.x as int, T_MAX as int);
            lemma_tdiv_mul_bound(t as int, self.direction.y as int, T_MAX as int);
            lemma_tdiv_mul_bound(t as int, self.direction.z as int, T_MAX as int);
            assert(
                -0x4000_0000_0000_0000 <= (t as int) * (self.direction.x as int)
                    <= 0x4000_0000_0000_0000
                && -0x4000_0000_0000_0000 <= (t as int) * (self.direction.y as int)
                    <= 0x4000_0000_0000_0000
                && -0x4000_0000_0000_0000 <= (t as int) * (self.direction.z as int)
                    <= 0x4000_0000_0000_0000
            ) by (nonlinear_arith)
                requires
                    -T_MAX <= t <= T_MAX,
                    in_range(self.direction, SCALE as int),
                    T_MAX == 0x2_0000_0000_0000i64,
                    SCALE == 1024i64,
            ;
        }
        Vector3 {
            x: self.origin.x + fx_mul(t, self.direction.x),
            y: self.origin.y + fx_mul(t, self.direction.y),
            z: self.origin.z + fx_mul(t, self.direction.z),
        }
    }
}

/// What an intersection reports: the struck point, the outward surface
/// normal there, the ray parameter of the strike, and the surface's color.
#[derive(Clone, Copy, PartialEq, Eq, Structural, Debug)]
pub struct Hitinfo {
    pub position: Vector3,
    pub normal: Vector3,
    pub distance: i64,
    pub color: Color,
}

/// Bounds every reported hit satisfies, enough for shading arithmetic.
pub open spec fn hitinfo_wf(h: Hitinfo) -> bool {
    &&& in_range(h.position, POS_MAX as int)
    &&& in_range(h.normal, NORMAL_MAX as int)
    &&& -T_MAX <= h.distance <= T_MAX
}

/// A solid sphere with a base color and a diffuse material.
#[derive(Clone)]
pub struct Sphere {
    pub position: Vector3,
    pub radius: i64,
    pub color: Color,
    pub material: Diffuse,
}

/// A well-formed sphere: center inside the scene bounds, positive radius.
pub open spec fn sphere_wf(s: Sphere) -> bool {
    &&& in_range(s.position, MAX_COORD as int)
    &&& 1 <= s.radius <= MAX_COORD
}

/// Every sphere of the scene is well-formed.
pub open spec fn scene_wf(s: Seq<Sphere>) -> bool {
    forall|i: int| 0 <= i < s.len() ==> sphere_wf(#[trigger] s[i])
}

/// `oc`: the vector from the sphere's center to the ray's origin.
pub open spec fn hit_oc(s: Sphere, ray: Ray) -> Vector3 {
    sub_spec(ray.origin, s.position)
}

/// The quadratic's leading coefficient: the squared norm of the direction.
pub open spec fn hit_a(ray: Ray) -> int {
    norm2_spec(ray.direction)
}

/// Half the quadratic's linear coefficient: `direction . oc`.
pub open spec fn hit_halfb(s: Sphere, ray: Ray) -> int {
    dot_spec(ray.direction, hit_oc(s, ray))
}

/// The quadratic's constant coefficient: `|oc|^2 - radius^2`.
pub open spec fn hit_c(s: Sphere, ray: Ray) -> int {
    norm2_spec(hit_oc(s, ray)) - (s.radius as int) * (s.radius as int)
}

/// The discriminant deciding whether the ray meets the sphere.
pub open spec fn hit_disc(s: Sphere, ray: Ray) -> int {
    hit_halfb(s, ray) * hit_halfb(s, ray) - hit_a(ray) * hit_c(s, ray)
}

/// The near root of the quadratic: the reported hit distance (fixed-point).
pub open spec fn hit_t(s: Sphere, ray: Ray) -> int {
    tdiv(
        (-hit_halfb(s, ray) - sqrt_floor(hit_disc(s, ray) as nat)) * SCALE,
        hit_a(ray),
    )
}

/// The outward normal at the hit: `(hit point - center) / radius`, exactly
/// as stated, with each division truncating toward zero.  Its length is one
/// unit only up to slack of the order of `SCALE / radius` sub-units (the
/// struck point itself sits on the sphere only up to truncation), so for
/// radii of a few sub-units the normal is not close to unit length; the
/// head-on law [`lemma_head_on_hit`] pins the exact axial case.
pub open spec fn hit_normal(s: Sphere, ray: Ray) -> Vector3 {
    let p = ray_at_spec(ray, hit_t(s, ray));
    Vector3 {
        x: tdiv((p.x - s.position.x) * SCALE, s.radius as int) as i64,
        y: tdiv((p.y - s.position.y) * SCALE, s.radius as int) as i64,
        z: tdiv((p.z - s.position.z) * SCALE, s.radius as int) as i64,
    }
}

/// What a sphere intersection returns: nothing when the discriminant is
/// negative, and otherwise the hit record at the near root.
pub open spec fn hit_spec(s: Sphere, ray: Ray) -> Option<Hitinfo> {
    if hit_disc(s, ray) < 0 {
        None
    } else {
        Some(Hitinfo {
            position: ray_at_spec(ray, hit_t(s, ray)),
            normal: hit_normal(s, ray),
            distance: hit_t(s, ray) as i64,
            color: s.color,
        })
    }
}

/// Anything a ray can strike.
pub trait Hitable {
    /// The implementor's validity bounds.
    spec fn wf(&self) -> bool;

    /// Intersects a ray with this object.  The scene and the bounce budget
    /// are passed through for implementors whose appearance needs them; the
    /// plain geometric test ignores both.
    fn hit(&self, ray: &Ray, scene: &Vec<Sphere>, bounce_limit: u8) -> (r: Option<Hitinfo>)
        requires
            self.wf(),
            ray_wf(*ray),
        ensures
            r matches Some(h) ==> hitinfo_wf(h),
    ;
}

/// A surface's appearance: turns a hit into a displayed color.
pub trait Material {
    /// Computes the color of a struck point, tracing at most one diffuse
    /// bounce through the scene within the given budget.
    fn calc_mat(&self, info: &Hitinfo, scene: &Vec<Sphere>, bounce_limit: u8) -> (r: Color)
        requires
            hitinfo_wf(*info),
            scene_wf(scene@),
    ;
}

impl Sphere {
    /// Builds a heap-allocated sphere whose material matches its color.
    pub fn boxed(position: Vector3, radius: i64, color: Color) -> (r: Box<Sphere>)
        ensures
            r.position == position,
            r.radius == radius,
            r.color == color,
            r.material == Diffuse::new_spec(color),
    {
        Box::new(Sphere { position, radius, color, material: Diffuse::new(color) })
    }

    /// The closed-form sphere-ray intersection, exactly as [`hit_spec`]
    /// states it.
    pub fn intersect(&self, ray: &Ray) -> (r: Option<Hitinfo>)
        requires
            sphere_wf(*self),
            ray_wf(*ray),
        ensures
            r == hit_spec(*self, *ray),
            r matches Some(h) ==> hitinfo_wf(h),
    {
        let oc: Vector3 = ray.origin.sub(&self.position);
        proof {
            assert(in_range(oc, 0x80_0000int));
            lemma_hit_coeff_bounds(*self, *ray);
        }
        let a: i128 = norm2_wide(&ray.direction) as i128;
        let hb: i128 = dot_wide(&ray.direction, &oc);
        let oc2: i128 = norm2_wide(&oc) as i128;
        let c: i128 = oc2 - (self.radius as i128) * (self.radius as i128);
        let disc: i128 = hb * hb - a * c;
        if disc < 0 {
            return None;
        }
        let sq: u64 = isqrt_u128(disc as u128);
        proof {
            lemma_sqrt_floor_bounds(disc as nat);
            assert((sq as int) <= 0x10_0000_0000int) by (nonlinear_arith)
                requires
                    (sq as int) * (sq as int) <= disc as int,
                    disc as int <= 0x80_0000_0000_0000_0000int,
                    sq >= 0,
            ;
        }
        let num: i128 = -hb - (sq as i128);
        proof {
            assert(
                -0x8000_0000_0000int <= (num as int) * (SCALE as int)
                    <= 0x8000_0000_0000int
            ) by (nonlinear_arith)
                requires
                    -0x20_0000_0000int <= num as int <= 0x20_0000_0000int,
                    SCALE == 1024i64,
            ;
        }
        let t128: i128 = tdiv_i128(num * (SCALE as i128), a);
        proof {
            lemma_tdiv_shrinks((num * (SCALE as i128)) as int, a as int);
        }
        let t: i64 = t128 as i64;
        let pos: Vector3 = ray.function(t);
        proof {
            lemma_tdiv_shrinks(((pos.x - self.position.x) as int) * (SCALE as int), self.radius as int);
            lemma_tdiv_shrinks(((pos.y - self.position.y) as int) * (SCALE as int), self.radius as int);
            lemma_tdiv_shrinks(((pos.z - self.position.z) as int) * (SCALE as int), self.radius as int);
            lemma_normal_dividend_bound(pos.x as int, self.position.x as int);
            lemma_normal_dividend_bound(pos.y as int, self.position.y as int);
            lemma_normal_dividend_bound(pos.z as int, self.position.z as int);
        }
        let nx: i128 = tdiv_i128(((pos.x - self.position.x) as i128) * (SCALE as i128), self.radius as i128);
        let ny: i128 = tdiv_i128(((pos.y - self.position.y) as i128) * (SCALE as i128), self.radius as i128);
        let nz: i128 = tdiv_i128(((pos.z - self.position.z) as i128) * (SCALE as i128), self.radius as i128);
        let normal = Vector3 { x: nx as i64, y: ny as i64, z: nz as i64 };
        Some(Hitinfo { position: pos, normal, distance: t, color: self.color })
    }
}

impl Hitable for Sphere {
    open spec fn wf(&self) -> bool {
        sphere_wf(*self)
    }

    fn hit(&self, ray: &Ray, scene: &Vec<Sphere>, bounce_limit: u8) -> (r: Option<Hitinfo>)
        ensures
            r == hit_spec(*self, *ray),
    {
        self.intersect(ray)
    }
}

/// Law: a sphere at the origin, struck head-on along the forward axis by a
/// ray starting ten radii away, reports the hit at nine radii with the
/// outward normal pointing straight back at the ray.
pub proof fn lemma_head_on_hit(s: Sphere, ray: Ray)
    requires
        s.position == (Vector3 { x: 0i64, y: 0i64, z: 0i64 }),
        1 <= s.radius,
        10 * s.radius <= MAX_COORD,
        ray.origin == (Vector3 { x: 0i64, y: 0i64, z: (-10 * s.radius) as i64 }),
        ray.direction == (Vector3 { x: 0i64, y: 0i64, z: SCALE }),
    ensures
        hit_spec(s, ray) == Some(Hitinfo {
            position: Vector3 { x: 0i64, y: 0i64, z: (-s.radius) as i64 },
            normal: Vector3 { x: 0i64, y: 0i64, z: (-1024) as i64 },
            distance: (9 * s.radius) as i64,
            color: s.color,
        }),
{
    let r = s.radius as int;
    let rr = r * r;
    let oc = hit_oc(s, ray);
    assert(oc.x == 0 && oc.y == 0 && oc.z == -10 * r);
    let a = hit_a(ray);
    assert(a == 1024 * 1024);
    let hb = hit_halfb(s, ray);
    assert(hb == 1024 * (-10 * r));
    assert(hb == -10240 * r) by (nonlinear_arith)
        requires
            hb == 1024 * (-10 * r),
    ;
    assert(norm2_spec(oc) == (-10 * r) * (-10 * r));
    assert(norm2_spec(oc) == 100 * rr) by (nonlinear_arith)
        requires
            norm2_spec(oc) == (-10 * r) * (-10 * r),
            rr == r * r,
    ;
    let c = hit_c(s, ray);
    assert(c == 99 * rr);
    let disc = hit_disc(s, ray);
    assert(hb * hb == 104857600 * rr) by (nonlinear_arith)
        requires
            hb == -10240 * r,
            rr == r * r,
    ;
    assert(a * c == 1048576 * (99 * rr));
    assert(a * c == 103809024 * rr) by (nonlinear_arith)
        requires
            a * c == 1048576 * (99 * rr),
    ;
    assert(disc == 1048576 * rr);
    assert(rr >= 1) by (nonlinear_arith)
        requires
            r >= 1,
            rr == r * r,
    ;
    assert((1024 * r) * (1024 * r) == 1048576 * rr && 1048576 * rr < (1024 * r + 1) * (1024 * r + 1))
        by (nonlinear_arith)
        requires
            rr == r * r,
            r >= 1,
    ;
    lemma_sqrt_floor_unique((1048576 * rr) as nat, 1024 * r);
    assert(sqrt_floor(disc as nat) == 1024 * r);
    let num = -hb - 1024 * r;
    assert(num == 9216 * r);
    let t = hit_t(s, ray);
    assert(num * SCALE == (9 * r) * (1024 * 1024)) by (nonlinear_arith)
        requires
            num == 9216 * r,
    ;
    crate::fixed::lemma_tdiv_exact(9 * r, 1048576int);
    assert(t == 9 * r);
    // the struck point
    assert((9 * r) * 0int == 0) by (nonlinear_arith);
    crate::fixed::lemma_tdiv_exact(0, SCALE as int);
    assert(tdiv(0, SCALE as int) == 0);
    assert((9 * r) * (SCALE as int) == (9 * r) * 1024);
    crate::fixed::lemma_tdiv_exact(9 * r, 1024);
    let p = ray_at_spec(ray, t);
    assert(p.x == 0 && p.y == 0);
    assert(p.z == -10 * r + 9 * r);
    assert(p.z == -r);
    // the outward normal
    let n = hit_normal(s, ray);
    assert((0int - 0int) * SCALE == 0);
    crate::fixed::lemma_tdiv_exact(0, r);
    assert(tdiv(0 * r, r) == 0 && 0 * r == 0) by (nonlinear_arith)
        requires
            tdiv(0 * r, r) == 0,
    ;
    assert(n.x == 0 && n.y == 0);
    assert((p.z - s.position.z) * SCALE == (-1024) * r) by (nonlinear_arith)
        requires
            p.z == -r,
            s.position.z == 0i64,
            SCALE == 1024i64,
    ;
    crate::fixed::lemma_tdiv_exact(-1024, r);
    assert(n.z == -1024);
}

/// Law: a ray whose perpendicular distance from the sphere's center exceeds
/// the radius reports no hit.  In fixed point the hypothesis reads
/// `a * |oc|^2 - half_b^2 > a * radius^2`: the squared perpendicular
/// distance condition, scaled by the positive coefficient `a`.
pub proof fn lemma_perpendicular_miss(s: Sphere, ray: Ray)
    requires
        hit_a(ray) * norm2_spec(hit_oc(s, ray)) - hit_halfb(s, ray) * hit_halfb(s, ray)
            > hit_a(ray) * ((s.radius as int) * (s.radius as int)),
    ensures
        hit_spec(s, ray) == None::<Hitinfo>,
{
    let a = hit_a(ray);
    let noc = norm2_spec(hit_oc(s, ray));
    let rr = (s.radius as int) * (s.radius as int);
    assert(a * (noc - rr) == a * noc - a * rr) by (nonlinear_arith);
    assert(hit_disc(s, ray) < 0);
}

/// Bounds on the quadratic's coefficients for a well-formed sphere and ray.
proof fn lemma_hit_coeff_bounds(s: Sphere, ray: Ray)
    requires
        sphere_wf(s),
        ray_wf(ray),
    ensures
        1 <= hit_a(ray) <= 0x40_0000int,
        -0x8_0000_0000int <= hit_halfb(s, ray) <= 0x8_0000_0000int,
        0 <= norm2_spec(hit_oc(s, ray)) <= 0xC000_0000_0000int,
        0 <= (s.radius as int) * (s.radius as int) <= 0x1000_0000_0000int,
        -0x1000_0000_0000int <= hit_c(s, ray) <= 0xC000_0000_0000int,
        0 <= hit_halfb(s, ray) * hit_halfb(s, ray) <= 0x40_0000_0000_0000_0000int,
        -0x40_0000_0000_0000_0000int <= hit_a(ray) * hit_c(s, ray)
            <= 0x40_0000_0000_0000_0000int,
        -0x80_0000_0000_0000_0000int <= hit_disc(s, ray) <= 0x80_0000_0000_0000_0000int,
        in_range(hit_oc(s, ray), 0x80_0000int),
{
    let oc = hit_oc(s, ray);
    assert(in_range(oc, 0x80_0000int));
    let d = ray.direction;
    assert(
        (d.x as int) * (d.x as int) <= 0x10_0000int
        && (d.y as int) * (d.y as int) <= 0x10_0000int
        && (d.z as int) * (d.z as int) <= 0x10_0000int
        && (d.x as int) * (d.x as int) >= 0
        && (d.y as int) * (d.y as int) >= 0
        && (d.z as int) * (d.z as int) >= 0
    ) by (nonlinear_arith)
        requires
            in_range(d, SCALE as int),
            SCALE == 1024i64,
    ;
    assert(
        -0x2_0000_0000int <= (d.x as int) * (oc.x as int) <= 0x2_0000_0000int
        && -0x2_0000_0000int <= (d.y as int) * (oc.y as int) <= 0x2_0000_0000int
        && -0x2_0000_0000int <= (d.z as int) * (oc.z as int) <= 0x2_0000_0000int
    ) by (nonlinear_arith)
        requires
            in_range(d, SCALE as int),
            in_range(oc, 0x80_0000int),
            SCALE == 1024i64,
    ;
    assert(
        0 <= (oc.x as int) * (oc.x as int) <= 0x4000_0000_0000int
        && 0 <= (oc.y as int) * (oc.y as int) <= 0x4000_0000_0000int
        && 0 <= (oc.z as int) * (oc.z as int) <= 0x4000_0000_0000int
    ) by (nonlinear_arith)
        requires
            in_range(oc, 0x80_0000int),
    ;
    assert(0 <= (s.radius as int) * (s.radius as int) <= 0x1000_0000_0000int)
        by (nonlinear_arith)
        requires
            1 <= s.radius <= 0x40_0000i64,
    ;
    let hb = hit_halfb(s, ray);
    let a = hit_a(ray);
    let c = hit_c(s, ray);
    assert(
        0 <= hb * hb <= 0x40_0000_0000_0000_0000int
        && -0x40_0000_0000_0000_0000int <= a * c <= 0x40_0000_0000_0000_0000int
    ) by (nonlinear_arith)
        requires
            -0x8_0000_0000int <= hb <= 0x8_0000_0000int,
            1 <= a <= 0x40_0000int,
            -0x1000_0000_0000int <= c <= 0xC000_0000_0000int,
    ;
}

/// The dividend of a normal component fits 128-bit arithmetic.
proof fn lemma_normal_dividend_bound(p: int, q: int)
    requires
        -(POS_MAX as int) <= p <= POS_MAX as int,
        -(MAX_COORD as int) <= q <= MAX_COORD as int,
    ensures
        -0x4000_0000_0000_0000_0000int <= (p - q) * SCALE <= 0x4000_0000_0000_0000_0000int,
{
    assert(-0x4000_0000_0000_0000_0000int <= (p - q) * SCALE <= 0x4000_0000_0000_0000_0000int)
        by (nonlinear_arith)
        requires
            -0x4_0200_0000_0000int <= p - q <= 0x4_0200_0000_0000int,
            SCALE == 1024i64,
    ;
}

} // verus!
