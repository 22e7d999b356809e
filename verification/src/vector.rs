//! 3D vectors over fixed-point scalars.
//!
//! Every operation carries an exact integer contract: addition and
//! subtraction are component-wise, the dot product and squared norm are stated
//! as raw integer sums of products, the length is the integer square root of
//! the squared norm, and normalization divides each component by the length
//! (truncating toward zero).

use vstd::prelude::*;
use crate::fixed::{SCALE, tdiv, sqrt_floor, tdiv_i128, isqrt_u128};
use crate::fixed::{lemma_sqrt_floor_bounds, lemma_tdiv_shrinks};

verus! {

/// Component magnitude accepted by the wide (128-bit) vector operations.
pub const VEC_MAX: i64 = 0x4000_0000_0000_0000;

#[derive(Clone, Copy, PartialEq, Eq, Structural, Debug)]
pub struct Vector3 {
    pub x: i64,
    pub y: i64,
    pub z: i64,
}

/// Every component lies in `[-b, b]`.
pub open spec fn in_range(v: Vector3, b: int) -> bool {
    -b <= v.x <= b && -b <= v.y <= b && -b <= v.z <= b
}

/// The raw dot product: a sum of products of components, not rescaled.
pub open spec fn dot_spec(u: Vector3, v: Vector3) -> int {
    (u.x as int) * (v.x as int) + (u.y as int) * (v.y as int) + (u.z as int) * (v.z as int)
}

/// The raw squared norm of a vector.
pub open spec fn norm2_spec(v: Vector3) -> int {
    dot_spec(v, v)
}

/// The fixed-point length: the square-root floor of the raw squared norm.
pub open spec fn len_spec(v: Vector3) -> int {
    sqrt_floor(norm2_spec(v) as nat) as int
}

/// One rescaling pass: each component multiplied by `SCALE / length`,
/// truncating toward zero.  Accurate only when the length is at least one
/// unit; [`norm_spec`] supplies that.
pub open spec fn norm_raw_spec(v: Vector3) -> Vector3
    recommends
        norm2_spec(v) >= 1,
{
    Vector3 {
        x: tdiv(v.x * SCALE, len_spec(v)) as i64,
        y: tdiv(v.y * SCALE, len_spec(v)) as i64,
        z: tdiv(v.z * SCALE, len_spec(v)) as i64,
    }
}

/// Each component multiplied by `SCALE`: an exact change of scale for
/// vectors shorter than one unit, which keeps the direction.
pub open spec fn upscale_spec(v: Vector3) -> Vector3 {
    Vector3 { x: (v.x * SCALE) as i64, y: (v.y * SCALE) as i64, z: (v.z * SCALE) as i64 }
}

/// The normalized vector: rescaled to one unit of length.  A vector shorter
/// than one unit is first scaled up exactly, so for every nonzero input the
/// result is unit length within truncation slack (see
/// [`lemma_normalize_magnitude`]).
pub open spec fn norm_spec(v: Vector3) -> Vector3
    recommends
        norm2_spec(v) >= 1,
{
    if norm2_spec(v) >= 1024 * 1024 {
        norm_raw_spec(v)
    } else {
        norm_raw_spec(upscale_spec(v))
    }
}

/// The component-wise sum, as a vector (defined when no component overflows).
pub open spec fn add_spec(u: Vector3, v: Vector3) -> Vector3 {
    Vector3 { x: (u.x + v.x) as i64, y: (u.y + v.y) as i64, z: (u.z + v.z) as i64 }
}

/// The component-wise difference, as a vector (defined when no component overflows).
pub open spec fn sub_spec(u: Vector3, v: Vector3) -> Vector3 {
    Vector3 { x: (u.x - v.x) as i64, y: (u.y - v.y) as i64, z: (u.z - v.z) as i64 }
}

/// A squared norm is never negative.
pub proof fn lemma_norm2_nonneg(v: Vector3)
    ensures
        norm2_spec(v) >= 0,
{
    assert(
        (v.x as int) * (v.x as int) >= 0
        && (v.y as int) * (v.y as int) >= 0
        && (v.z as int) * (v.z as int) >= 0
    ) by (nonlinear_arith);
}

/// No component exceeds the length in magnitude.
pub proof fn lemma_component_le_len(v: Vector3)
    ensures
        -len_spec(v) <= v.x <= len_spec(v),
        -len_spec(v) <= v.y <= len_spec(v),
        -len_spec(v) <= v.z <= len_spec(v),
{
    lemma_norm2_nonneg(v);
    let n = norm2_spec(v);
    let l = len_spec(v);
    lemma_sqrt_floor_bounds(n as nat);
    assert(l * l <= n < (l + 1) * (l + 1));
    assert(-(l + 1) < v.x < l + 1 && -(l + 1) < v.y < l + 1 && -(l + 1) < v.z < l + 1)
        by (nonlinear_arith)
        requires
            n == (v.x as int) * (v.x as int) + (v.y as int) * (v.y as int)
                + (v.z as int) * (v.z as int),
            n < (l + 1) * (l + 1),
            l >= 0,
    ;
}

impl Vector3 {
    /// Builds a vector from its fixed-point components.
    pub fn new(x: i64, y: i64, z: i64) -> (r: Vector3)
        ensures
            r == (Vector3 { x, y, z }),
    {
        Vector3 { x, y, z }
    }

    /// Component-wise sum.
    pub fn add(&self, o: &Vector3) -> (r: Vector3)
        requires
            i64::MIN <= self.x + o.x <= i64::MAX,
            i64::MIN <= self.y + o.y <= i64::MAX,
            i64::MIN <= self.z + o.z <= i64::MAX,
        ensures
            r.x == self.x + o.x,
            r.y == self.y + o.y,
            r.z == self.z + o.z,
            r == add_spec(*self, *o),
    {
        Vector3 { x: self.x + o.x, y: self.y + o.y, z: self.z + o.z }
    }

    /// Component-wise difference.
    pub fn sub(&self, o: &Vector3) -> (r: Vector3)
        requires
            i64::MIN <= self.x - o.x <= i64::MAX,
            i64::MIN <= self.y - o.y <= i64::MAX,
            i64::MIN <= self.z - o.z <= i64::MAX,
        ensures
            r.x == self.x - o.x,
            r.y == self.y - o.y,
            r.z == self.z - o.z,
            r == sub_spec(*self, *o),
    {
        Vector3 { x: self.x - o.x, y: self.y - o.y, z: self.z - o.z }
    }

    /// The fixed-point dot product: the raw sum of products, rescaled.
    pub fn dot(&self, o: &Vector3) -> (r: i64)
        requires
            in_range(*self, VEC_MAX as int),
            in_range(*o, VEC_MAX as int),
            i64::MIN < tdiv(dot_spec(*self, *o), SCALE as int) <= i64::MAX,
        ensures
            r == tdiv(dot_spec(*self, *o), SCALE as int),
    {
        let d: i128 = dot_wide(self, o);
        let q: i128 = tdiv_i128(d, SCALE as i128);
        proof {
            lemma_tdiv_shrinks(d as int, SCALE as int);
        }
        q as i64
    }

    /// The fixed-point length of the vector.
    pub fn length(&self) -> (r: u64)
        requires
            in_range(*self, VEC_MAX as int),
        ensures
            r == len_spec(*self),
    {
        let n: u128 = norm2_wide(self);
        isqrt_u128(n)
    }

    /// Rescales the vector to length `SCALE` (one world unit), truncating
    /// each component toward zero.  A vector shorter than one unit is first
    /// scaled up exactly, so the result is unit length within truncation
    /// slack for every input.  The zero vector is excluded: its
    /// normalization is undefined.
    pub fn normalize(&self) -> (r: Vector3)
        requires
            in_range(*self, VEC_MAX as int),
            norm2_spec(*self) >= 1,
        ensures
            r == norm_spec(*self),
            in_range(r, SCALE as int),
            1024 * 1024 - 6 * 1024 <= norm2_spec(r) <= 1024 * 1024 + 3 * 1024,
            SCALE - 4 <= len_spec(r) <= SCALE + 1,
    {
        proof {
            lemma_normalize_magnitude(*self);
        }
        let n: u128 = norm2_wide(self);
        if n >= 1048576 {
            self.normalize_raw()
        } else {
            proof {
                lemma_subunit_components(*self);
            }
            let w = Vector3 { x: self.x * SCALE, y: self.y * SCALE, z: self.z * SCALE };
            proof {
                assert(w == upscale_spec(*self));
                assert(norm2_spec(w) == norm2_spec(*self) * (1024 * 1024)) by (nonlinear_arith)
                    requires
                        in_range(*self, 1023),
                        w == (Vector3 {
                            x: (self.x * SCALE) as i64,
                            y: (self.y * SCALE) as i64,
                            z: (self.z * SCALE) as i64,
                        }),
                        SCALE == 1024i64,
                ;
                assert(norm2_spec(w) >= 1) by (nonlinear_arith)
                    requires
                        norm2_spec(w) == norm2_spec(*self) * (1024 * 1024),
                        norm2_spec(*self) >= 1,
                ;
            }
            w.normalize_raw()
        }
    }

    /// One raw rescaling pass: each component multiplied by `SCALE` and
    /// divided by the length, truncating toward zero.
    fn normalize_raw(&self) -> (r: Vector3)
        requires
            in_range(*self, VEC_MAX as int),
            norm2_spec(*self) >= 1,
        ensures
            r == norm_raw_spec(*self),
            in_range(r, SCALE as int),
            norm2_spec(r) >= 1,
    {
        proof {
            lemma_norm_raw_spec_bounds(*self);
        }
        let len: u64 = self.length();
        let rx: i128 = tdiv_i128((self.x as i128) * (SCALE as i128), len as i128);
        let ry: i128 = tdiv_i128((self.y as i128) * (SCALE as i128), len as i128);
        let rz: i128 = tdiv_i128((self.z as i128) * (SCALE as i128), len as i128);
        Vector3 { x: rx as i64, y: ry as i64, z: rz as i64 }
    }
}

/// The wide dot product, exact in 128-bit arithmetic.
pub fn dot_wide(u: &Vector3, v: &Vector3) -> (r: i128)
    requires
        in_range(*u, VEC_MAX as int),
        in_range(*v, VEC_MAX as int),
    ensures
        r == dot_spec(*u, *v),
{
    proof {
        let b = VEC_MAX as int;
        assert(
            -(b * b) <= (u.x as int) * (v.x as int) <= b * b
            && -(b * b) <= (u.y as int) * (v.y as int) <= b * b
            && -(b * b) <= (u.z as int) * (v.z as int) <= b * b
        ) by (nonlinear_arith)
            requires
                in_range(*u, b),
                in_range(*v, b),
                0 <= b,
        ;
    }
    (u.x as i128) * (v.x as i128) + (u.y as i128) * (v.y as i128) + (u.z as i128) * (v.z as i128)
}

/// The wide squared norm, exact in 128-bit arithmetic.
pub fn norm2_wide(v: &Vector3) -> (r: u128)
    requires
        in_range(*v, VEC_MAX as int),
    ensures
        r == norm2_spec(*v),
{
    proof {
        lemma_norm2_nonneg(*v);
    }
    let d: i128 = dot_wide(v, v);
    d as u128
}

/// Law: normalization is idempotent — a vector already of unit length
/// (length exactly `SCALE`) is returned unchanged.
pub proof fn lemma_normalize_unit_identity(v: Vector3)
    requires
        len_spec(v) == SCALE,
    ensures
        norm_spec(v) == v,
{
    lemma_norm2_nonneg(v);
    lemma_sqrt_floor_bounds(norm2_spec(v) as nat);
    assert(norm2_spec(v) >= 1024 * 1024);
    crate::fixed::lemma_tdiv_exact(v.x as int, SCALE as int);
    crate::fixed::lemma_tdiv_exact(v.y as int, SCALE as int);
    crate::fixed::lemma_tdiv_exact(v.z as int, SCALE as int);
}

/// Law: normalizing any nonzero vector yields a vector of unit length up to
/// truncation slack: the squared norm lands within `6 * SCALE` below to
/// `3 * SCALE` above the unit square, so the length lands within four
/// sub-units of `SCALE`.  A raw rescaling pass alone cannot give this for
/// sub-unit inputs (it maps `(1, 1, 0)` to `(SCALE, SCALE, 0)`, whose length
/// exceeds the unit by more than a third), which is why [`norm_spec`] scales
/// such inputs up exactly first.
pub proof fn lemma_normalize_magnitude(v: Vector3)
    requires
        in_range(v, VEC_MAX as int),
        norm2_spec(v) >= 1,
    ensures
        1024 * 1024 - 6 * 1024 <= norm2_spec(norm_spec(v)),
        norm2_spec(norm_spec(v)) <= 1024 * 1024 + 3 * 1024,
        SCALE - 4 <= len_spec(norm_spec(v)) <= SCALE + 1,
{
    if norm2_spec(v) >= 1024 * 1024 {
        lemma_len_ge_unit(v);
        lemma_norm_raw_magnitude(v);
    } else {
        lemma_subunit_components(v);
        let w = upscale_spec(v);
        assert(norm2_spec(w) == norm2_spec(v) * (1024 * 1024)) by (nonlinear_arith)
            requires
                in_range(v, 1023),
                w == (Vector3 {
                    x: (v.x * SCALE) as i64,
                    y: (v.y * SCALE) as i64,
                    z: (v.z * SCALE) as i64,
                }),
                SCALE == 1024i64,
        ;
        assert(norm2_spec(w) >= 1024 * 1024) by (nonlinear_arith)
            requires
                norm2_spec(w) == norm2_spec(v) * (1024 * 1024),
                norm2_spec(v) >= 1,
        ;
        lemma_len_ge_unit(w);
        lemma_norm_raw_magnitude(w);
    }
}

/// A vector whose squared norm reaches the unit square has length at least
/// one unit.
pub proof fn lemma_len_ge_unit(v: Vector3)
    requires
        norm2_spec(v) >= 1024 * 1024,
    ensures
        len_spec(v) >= SCALE,
        norm2_spec(v) >= 1,
{
    lemma_norm2_nonneg(v);
    lemma_sqrt_floor_bounds(norm2_spec(v) as nat);
    let l = len_spec(v);
    assert(l >= 1024) by (nonlinear_arith)
        requires
            (norm2_spec(v) as int) < (l + 1) * (l + 1),
            norm2_spec(v) >= 1024 * 1024,
            l >= 0,
    ;
}

/// A vector shorter than one unit has every component under `SCALE`.
pub proof fn lemma_subunit_components(v: Vector3)
    requires
        norm2_spec(v) < 1024 * 1024,
    ensures
        in_range(v, 1023),
{
    lemma_norm2_nonneg(v);
    lemma_component_le_len(v);
    lemma_sqrt_floor_bounds(norm2_spec(v) as nat);
    let l = len_spec(v);
    assert(l <= 1023) by (nonlinear_arith)
        requires
            l * l <= norm2_spec(v),
            norm2_spec(v) < 1024 * 1024,
            l >= 0,
    ;
}

/// The raw rescaling pass on a vector of at least unit length: the squared
/// norm and the length land within the stated slack of one unit.
proof fn lemma_norm_raw_magnitude(v: Vector3)
    requires
        in_range(v, VEC_MAX as int),
        len_spec(v) >= SCALE,
    ensures
        1024 * 1024 - 6 * 1024 <= norm2_spec(norm_raw_spec(v)),
        norm2_spec(norm_raw_spec(v)) <= 1024 * 1024 + 3 * 1024,
        SCALE - 4 <= len_spec(norm_raw_spec(v)) <= SCALE + 1,
{
    let n = norm2_spec(v);
    let l = len_spec(v);
    lemma_norm2_nonneg(v);
    lemma_sqrt_floor_bounds(n as nat);
    assert(l * l <= n < (l + 1) * (l + 1));
    lemma_component_le_len(v);
    lemma_sq_quotient_bounds(v.x as int, l);
    lemma_sq_quotient_bounds(v.y as int, l);
    lemma_sq_quotient_bounds(v.z as int, l);
    lemma_scaled_component_bound(v.x as int, l);
    lemma_scaled_component_bound(v.y as int, l);
    lemma_scaled_component_bound(v.z as int, l);
    let r = norm_raw_spec(v);
    let qx = tdiv(v.x * SCALE, l);
    let qy = tdiv(v.y * SCALE, l);
    let qz = tdiv(v.z * SCALE, l);
    assert(r.x == qx && r.y == qy && r.z == qz);
    let m = norm2_spec(r);
    assert(m == qx * qx + qy * qy + qz * qz);
    assert(m * (l * l) == qx * qx * (l * l) + qy * qy * (l * l) + qz * qz * (l * l))
        by (nonlinear_arith)
        requires
            m == qx * qx + qy * qy + qz * qz,
    ;
    assert(n * (1024 * 1024) == (v.x as int) * (v.x as int) * (1024 * 1024)
        + (v.y as int) * (v.y as int) * (1024 * 1024)
        + (v.z as int) * (v.z as int) * (1024 * 1024)) by (nonlinear_arith)
        requires
            n == (v.x as int) * (v.x as int) + (v.y as int) * (v.y as int)
                + (v.z as int) * (v.z as int),
    ;
    assert(m * (l * l) <= n * (1024 * 1024));
    assert(qx * qx * (l * l) >= (v.x as int) * (v.x as int) * (1024 * 1024) - 2 * 1024 * (l * l));
    assert(qy * qy * (l * l) >= (v.y as int) * (v.y as int) * (1024 * 1024) - 2 * 1024 * (l * l));
    assert(qz * qz * (l * l) >= (v.z as int) * (v.z as int) * (1024 * 1024) - 2 * 1024 * (l * l));
    assert(m * (l * l) >= n * (1024 * 1024) - 6 * 1024 * (l * l)) by (nonlinear_arith)
        requires
            m * (l * l) == qx * qx * (l * l) + qy * qy * (l * l) + qz * qz * (l * l),
            n * (1024 * 1024) == (v.x as int) * (v.x as int) * (1024 * 1024)
                + (v.y as int) * (v.y as int) * (1024 * 1024)
                + (v.z as int) * (v.z as int) * (1024 * 1024),
            qx * qx * (l * l) >= (v.x as int) * (v.x as int) * (1024 * 1024) - 2 * 1024 * (l * l),
            qy * qy * (l * l) >= (v.y as int) * (v.y as int) * (1024 * 1024) - 2 * 1024 * (l * l),
            qz * qz * (l * l) >= (v.z as int) * (v.z as int) * (1024 * 1024) - 2 * 1024 * (l * l),
    ;
    // upper bound: n < (l + 1)^2 and l >= SCALE squeeze m under the unit square
    assert(n * (1024 * 1024) < (1024 * 1024 + 3 * 1024 + 1) * (l * l)) by (nonlinear_arith)
        requires
            n < (l + 1) * (l + 1),
            l >= 1024,
    ;
    assert(m < 1024 * 1024 + 3 * 1024 + 1) by (nonlinear_arith)
        requires
            m * (l * l) < (1024 * 1024 + 3 * 1024 + 1) * (l * l),
            l >= 1024,
    ;
    // lower bound: n >= l^2 keeps m above the unit square less the slack
    assert(n * (1024 * 1024) - 6 * 1024 * (l * l) >= (1024 * 1024 - 6 * 1024) * (l * l))
        by (nonlinear_arith)
        requires
            n >= l * l,
    ;
    assert(m >= 1024 * 1024 - 6 * 1024) by (nonlinear_arith)
        requires
            m * (l * l) >= (1024 * 1024 - 6 * 1024) * (l * l),
            l >= 1024,
    ;
    // the length of the normalized vector
    let l2 = len_spec(r);
    lemma_sqrt_floor_bounds(m as nat);
    assert(l2 * l2 <= m < (l2 + 1) * (l2 + 1));
    assert(l2 <= 1024 + 1) by (nonlinear_arith)
        requires
            l2 * l2 <= m,
            m <= 1024 * 1024 + 3 * 1024,
            l2 >= 0,
    ;
    assert(l2 >= 1024 - 4) by (nonlinear_arith)
        requires
            m < (l2 + 1) * (l2 + 1),
            m >= 1024 * 1024 - 6 * 1024,
            l2 >= 0,
    ;
}

/// The square of a rescaled component, against the square of its exact
/// value: `(x * SCALE / l)^2 * l^2` sits within `2 * SCALE * l^2` below
/// `x^2 * SCALE^2`, and never above it.
proof fn lemma_sq_quotient_bounds(x: int, l: int)
    requires
        l >= 1,
        -l <= x <= l,
    ensures
        tdiv(x * SCALE, l) * tdiv(x * SCALE, l) * (l * l) <= x * x * (1024 * 1024),
        tdiv(x * SCALE, l) * tdiv(x * SCALE, l) * (l * l) >= x * x * (1024 * 1024)
            - 2 * 1024 * (l * l),
{
    if x >= 0 {
        lemma_sq_quotient_bounds_nonneg(x, l);
    } else {
        lemma_sq_quotient_bounds_nonneg(-x, l);
        let q = tdiv(x * SCALE, l);
        let qp = tdiv((-x) * SCALE, l);
        assert(x * SCALE == -((-x) * SCALE)) by (nonlinear_arith);
        assert((-x) * SCALE >= 0) by (nonlinear_arith)
            requires
                -x >= 0,
                SCALE == 1024i64,
        ;
        assert(q == -qp);
        assert(q * q * (l * l) == qp * qp * (l * l) && x * x == (-x) * (-x))
            by (nonlinear_arith)
            requires
                q == -qp,
        ;
    }
}

/// The nonnegative case of [`lemma_sq_quotient_bounds`].
proof fn lemma_sq_quotient_bounds_nonneg(x: int, l: int)
    requires
        l >= 1,
        0 <= x <= l,
    ensures
        tdiv(x * SCALE, l) * tdiv(x * SCALE, l) * (l * l) <= x * x * (1024 * 1024),
        tdiv(x * SCALE, l) * tdiv(x * SCALE, l) * (l * l) >= x * x * (1024 * 1024)
            - 2 * 1024 * (l * l),
{
    let xs = x * SCALE;
    assert(xs >= 0 && xs == x * 1024) by (nonlinear_arith)
        requires
            x >= 0,
            xs == x * SCALE,
            SCALE == 1024i64,
    ;
    let q = tdiv(xs, l);
    assert(q == xs / l);
    vstd::arithmetic::div_mod::lemma_fundamental_div_mod(xs, l);
    let md = xs % l;
    assert(xs == l * q + md);
    assert(0 <= md < l);
    crate::fixed::lemma_tdiv_shrinks(xs, l);
    assert(q >= 0);
    assert(q * q * (l * l) == (q * l) * (q * l)) by (nonlinear_arith);
    assert(xs * xs == x * x * (1024 * 1024)) by (nonlinear_arith)
        requires
            xs == x * SCALE,
            SCALE == 1024i64,
    ;
    // upper: q * l <= xs, both nonnegative, so squares are ordered
    assert(q * l <= xs && q * l >= 0) by (nonlinear_arith)
        requires
            xs == l * q + md,
            md >= 0,
            q >= 0,
            l >= 1,
    ;
    assert(q * q * (l * l) <= xs * xs) by (nonlinear_arith)
        requires
            0 <= q * l <= xs,
            q * q * (l * l) == (q * l) * (q * l),
    ;
    // lower: q * l misses xs by less than l, and x <= l caps the cross term
    assert(q * q * (l * l) >= x * x * (1024 * 1024) - 2 * 1024 * (l * l))
        by (nonlinear_arith)
        requires
            xs == l * q + md,
            0 <= md < l,
            q >= 0,
            l >= 1,
            0 <= x <= l,
            xs == x * 1024,
            q * q * (l * l) == (q * l) * (q * l),
            xs * xs == x * x * (1024 * 1024),
    ;
}

/// A normalized vector has components within `SCALE`, and its largest
/// component keeps at least half a unit, so it is never the zero vector.
proof fn lemma_norm_raw_spec_bounds(v: Vector3)
    requires
        in_range(v, VEC_MAX as int),
        norm2_spec(v) >= 1,
    ensures
        in_range(norm_raw_spec(v), SCALE as int),
        norm2_spec(norm_raw_spec(v)) >= 1,
        len_spec(v) >= 1,
        norm_raw_spec(v).x == tdiv(v.x * SCALE, len_spec(v)),
        norm_raw_spec(v).y == tdiv(v.y * SCALE, len_spec(v)),
        norm_raw_spec(v).z == tdiv(v.z * SCALE, len_spec(v)),
{
    let n = norm2_spec(v);
    let l = len_spec(v);
    lemma_sqrt_floor_bounds(n as nat);
    assert(l >= 1);
    lemma_component_le_len(v);
    lemma_scaled_component_bound(v.x as int, l);
    lemma_scaled_component_bound(v.y as int, l);
    lemma_scaled_component_bound(v.z as int, l);
    let r = norm_raw_spec(v);
    assert(r.x == tdiv(v.x * SCALE, l) && r.y == tdiv(v.y * SCALE, l)
        && r.z == tdiv(v.z * SCALE, l));
    // The largest component survives normalization with magnitude >= SCALE / 2.
    let mx = if v.x >= 0 { v.x as int } else { -(v.x as int) };
    let my = if v.y >= 0 { v.y as int } else { -(v.y as int) };
    let mz = if v.z >= 0 { v.z as int } else { -(v.z as int) };
    let mm = if mx >= my { if mx >= mz { mx } else { mz } } else { if my >= mz { my } else { mz } };
    assert(n <= 3 * mm * mm) by (nonlinear_arith)
        requires
            n == (v.x as int) * (v.x as int) + (v.y as int) * (v.y as int)
                + (v.z as int) * (v.z as int),
            mx == if v.x >= 0 { v.x as int } else { -(v.x as int) },
            my == if v.y >= 0 { v.y as int } else { -(v.y as int) },
            mz == if v.z >= 0 { v.z as int } else { -(v.z as int) },
            mm >= mx && mm >= my && mm >= mz,
    ;
    assert(l <= 2 * mm) by (nonlinear_arith)
        requires
            l * l <= n,
            n <= 3 * mm * mm,
            l >= 0,
            mm >= 0,
    ;
    lemma_big_quotient(mm, l);
    if mm == mx {
        lemma_abs_quotient_big(v.x as int, mm, l);
    } else if mm == my {
        lemma_abs_quotient_big(v.y as int, mm, l);
    } else {
        lemma_abs_quotient_big(v.z as int, mm, l);
    }
    assert(
        (r.x as int) * (r.x as int) + (r.y as int) * (r.y as int) + (r.z as int) * (r.z as int)
            >= 1
    ) by (nonlinear_arith)
        requires
            (r.x as int >= 512 || r.x as int <= -512 || r.y as int >= 512 || r.y as int <= -512
                || r.z as int >= 512 || r.z as int <= -512),
    ;
}

/// A component whose magnitude rescales past half a unit keeps that magnitude
/// whatever its sign.
proof fn lemma_abs_quotient_big(c: int, mm: int, l: int)
    requires
        l >= 1,
        mm == if c >= 0 { c } else { -c },
        tdiv(mm * SCALE, l) >= 512,
    ensures
        tdiv(c * SCALE, l) >= 512 || tdiv(c * SCALE, l) <= -512,
{
    if c >= 0 {
    } else {
        assert(c * SCALE == -(mm * SCALE)) by (nonlinear_arith)
            requires
                mm == -c,
        ;
        assert(mm * SCALE >= 0) by (nonlinear_arith)
            requires
                mm >= 0,
                SCALE == 1024,
        ;
        assert(tdiv(c * SCALE, l) == -tdiv(mm * SCALE, l));
    }
}

/// A component at least half the length keeps at least `SCALE / 2` after rescaling.
proof fn lemma_big_quotient(mm: int, l: int)
    requires
        l >= 1,
        mm >= 0,
        l <= 2 * mm,
    ensures
        tdiv(mm * SCALE, l) >= 512,
{
    assert(mm * SCALE >= 512 * l && mm * SCALE >= 0) by (nonlinear_arith)
        requires
            l <= 2 * mm,
            mm >= 0,
            SCALE == 1024,
    ;
    assert((mm * SCALE) / l >= 512) by (nonlinear_arith)
        requires
            l >= 1,
            mm * SCALE >= 512 * l,
    ;
}

/// Rescaled components stay within `SCALE`.
proof fn lemma_scaled_component_bound(c: int, l: int)
    requires
        l >= 1,
        -l <= c <= l,
    ensures
        -SCALE <= tdiv(c * SCALE, l) <= SCALE,
{
    if c >= 0 {
        assert(0 <= (c * SCALE) / l <= SCALE) by (nonlinear_arith)
            requires
                l >= 1,
                0 <= c <= l,
                SCALE == 1024,
        ;
    } else {
        assert(-(c * SCALE) == (-c) * SCALE) by (nonlinear_arith);
        assert(0 <= ((-c) * SCALE) / l <= SCALE) by (nonlinear_arith)
            requires
                l >= 1,
                0 <= -c <= l,
                SCALE == 1024,
        ;
    }
}

} // verus!
