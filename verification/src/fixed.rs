//! Fixed-point scalar arithmetic.
//!
//! A scalar is an `i64` counting [`SCALE`] sub-units per world unit.  The two
//! primitive operations the engine needs beyond `+`, `-` and `*` are a
//! truncated (round-toward-zero) division and the floor of an integer square
//! root; both are given exact specifications here.

use vstd::prelude::*;

verus! {

/// The fixed-point scale: one world unit is this many sub-units.
pub const SCALE: i64 = 1024;

/// Largest coordinate magnitude (in sub-units) a scene may use: 4096 world units.
pub const MAX_COORD: i64 = 4194304;

/// Truncated division (round toward zero), defined for a positive divisor.
pub open spec fn tdiv(a: int, b: int) -> int
    recommends
        b > 0,
{
    if a >= 0 {
        a / b
    } else {
        -((-a) / b)
    }
}

/// The floor of the square root of a natural number.
pub open spec fn sqrt_floor(n: nat) -> nat
    decreases n,
{
    if n == 0 {
        0
    } else {
        let r = sqrt_floor((n - 1) as nat);
        if (r + 1) * (r + 1) <= n {
            r + 1
        } else {
            r
        }
    }
}

/// `sqrt_floor(n)` is the unique `r` with `r * r <= n < (r + 1) * (r + 1)`.
pub proof fn lemma_sqrt_floor_bounds(n: nat)
    ensures
        (sqrt_floor(n) as int) * (sqrt_floor(n) as int) <= n as int,
        (n as int) < (sqrt_floor(n) as int + 1) * (sqrt_floor(n) as int + 1),
    decreases n,
{
    if n == 0 {
        assert(sqrt_floor(0) == 0);
    } else {
        let m = (n - 1) as nat;
        lemma_sqrt_floor_bounds(m);
        let r = sqrt_floor(m) as int;
        assert(r * r <= m as int);
        assert((m as int) < (r + 1) * (r + 1));
        if (r + 1) * (r + 1) <= n as int {
            assert(sqrt_floor(n) == sqrt_floor(m) + 1);
            assert((n as int) <= (r + 1) * (r + 1));
            assert((n as int) < (r + 1 + 1) * (r + 1 + 1)) by (nonlinear_arith)
                requires
                    n as int <= (r + 1) * (r + 1),
                    r >= 0,
            ;
        } else {
            assert(sqrt_floor(n) == sqrt_floor(m));
            assert((n as int) < (r + 1) * (r + 1));
        }
    }
}

/// Any `r` that brackets `n` between consecutive squares is the square root floor.
pub proof fn lemma_sqrt_floor_unique(n: nat, r: int)
    requires
        0 <= r,
        r * r <= n as int,
        (n as int) < (r + 1) * (r + 1),
    ensures
        r == sqrt_floor(n),
{
    let s = sqrt_floor(n) as int;
    lemma_sqrt_floor_bounds(n);
    if r < s {
        assert((r + 1) * (r + 1) <= s * s) by (nonlinear_arith)
            requires
                r + 1 <= s,
                r >= 0,
            ;
    }
    if s < r {
        assert((s + 1) * (s + 1) <= r * r) by (nonlinear_arith)
            requires
                s + 1 <= r,
                s >= 0,
            ;
    }
}

/// Floor of the square root, by bisection over the answer.
pub fn isqrt_u128(n: u128) -> (r: u64)
    ensures
        r == sqrt_floor(n as nat),
{
    if n == 0 {
        proof {
            lemma_sqrt_floor_unique(0, 0);
        }
        return 0;
    }
    let mut lo: u128 = 0;
    let mut hi: u128 = 0x1_0000_0000_0000_0000;
    proof {
        assert((hi as int) * (hi as int) > n as int) by (nonlinear_arith)
            requires
                hi == 0x1_0000_0000_0000_0000u128,
                n <= u128::MAX,
        ;
    }
    while lo + 1 < hi
        invariant
            0 <= lo < hi <= 0x1_0000_0000_0000_0000u128,
            (lo as int) * (lo as int) <= n as int,
            (hi as int) * (hi as int) > n as int,
        decreases hi - lo,
    {
        let mid: u128 = lo + (hi - lo) / 2;
        assert(lo < mid < hi);
        assert((mid as int) * (mid as int) < 0x1_0000_0000_0000_0000_0000_0000_0000_0000int) by (nonlinear_arith)
            requires
                0 <= mid < 0x1_0000_0000_0000_0000u128,
        ;
        if mid * mid <= n {
            lo = mid;
        } else {
            hi = mid;
        }
    }
    proof {
        lemma_sqrt_floor_unique(n as nat, lo as int);
    }
    lo as u64
}

/// Truncated division of an `i64` by a positive `i64`.
pub fn tdiv_i64(a: i64, b: i64) -> (r: i64)
    requires
        b >= 1,
        a > i64::MIN,
    ensures
        r == tdiv(a as int, b as int),
        -(a as int) <= r <= a as int || a as int <= r <= -(a as int),
{
    proof {
        lemma_tdiv_shrinks(a as int, b as int);
    }
    if a >= 0 {
        let q: u64 = (a as u64) / (b as u64);
        q as i64
    } else {
        let q: u64 = ((-a) as u64) / (b as u64);
        -(q as i64)
    }
}

/// Truncated division of an `i128` by a positive `i128`.
pub fn tdiv_i128(a: i128, b: i128) -> (r: i128)
    requires
        b >= 1,
        a > i128::MIN,
    ensures
        r == tdiv(a as int, b as int),
        -(a as int) <= r <= a as int || a as int <= r <= -(a as int),
{
    proof {
        lemma_tdiv_shrinks(a as int, b as int);
    }
    if a >= 0 {
        let q: u128 = (a as u128) / (b as u128);
        q as i128
    } else {
        let q: u128 = ((-a) as u128) / (b as u128);
        -(q as i128)
    }
}

/// A truncated quotient is no larger in magnitude than the dividend.
pub proof fn lemma_tdiv_shrinks(a: int, b: int)
    requires
        b >= 1,
    ensures
        a >= 0 ==> 0 <= tdiv(a, b) <= a,
        a < 0 ==> a <= tdiv(a, b) <= 0,
{
    if a >= 0 {
        assert(0 <= a / b <= a) by (nonlinear_arith)
            requires
                a >= 0,
                b >= 1,
        ;
    } else {
        assert(0 <= (-a) / b <= -a) by (nonlinear_arith)
            requires
                -a >= 0,
                b >= 1,
        ;
    }
}

/// Dividing an exact multiple truncates to the exact quotient.
pub proof fn lemma_tdiv_exact(a: int, b: int)
    requires
        b >= 1,
    ensures
        tdiv(a * b, b) == a,
{
    if a >= 0 {
        assert((a * b) / b == a) by (nonlinear_arith)
            requires
                a >= 0,
                b >= 1,
        ;
    } else {
        assert(a * b < 0) by (nonlinear_arith)
            requires
                a < 0,
                b >= 1,
        ;
        assert(-(a * b) == (-a) * b) by (nonlinear_arith);
        assert(((-a) * b) / b == -a) by (nonlinear_arith)
            requires
                -a >= 0,
                b >= 1,
        ;
    }
}

/// Rescaling a bounded scalar by a factor of at most one unit keeps the bound.
pub proof fn lemma_tdiv_mul_bound(t: int, d: int, b: int)
    requires
        -b <= t <= b,
        -SCALE <= d <= SCALE,
        0 <= b,
    ensures
        -b <= tdiv(t * d, SCALE as int) <= b,
{
    assert(-(b * SCALE) <= t * d <= b * SCALE) by (nonlinear_arith)
        requires
            -b <= t <= b,
            -SCALE <= d <= SCALE,
            0 <= b,
            SCALE == 1024,
    ;
    if t * d >= 0 {
        assert((t * d) / (SCALE as int) <= b) by (nonlinear_arith)
            requires
                0 <= t * d <= b * SCALE,
                SCALE == 1024,
                0 <= b,
        ;
        lemma_tdiv_shrinks(t * d, SCALE as int);
    } else {
        assert((-(t * d)) / (SCALE as int) <= b) by (nonlinear_arith)
            requires
                0 <= -(t * d) <= b * SCALE,
                SCALE == 1024,
                0 <= b,
        ;
        lemma_tdiv_shrinks(t * d, SCALE as int);
    }
}

/// A truncated quotient by `SCALE`, scaled back up, lands within `SCALE` of
/// the dividend.
pub proof fn lemma_tdiv_near(a: int)
    ensures
        a - SCALE < tdiv(a, SCALE as int) * SCALE < a + SCALE,
{
    if a >= 0 {
        vstd::arithmetic::div_mod::lemma_fundamental_div_mod(a, SCALE as int);
        assert(tdiv(a, SCALE as int) * SCALE == a - a % (SCALE as int)) by (nonlinear_arith)
            requires
                a == (SCALE as int) * (a / (SCALE as int)) + a % (SCALE as int),
                tdiv(a, SCALE as int) == a / (SCALE as int),
        ;
    } else {
        vstd::arithmetic::div_mod::lemma_fundamental_div_mod(-a, SCALE as int);
        assert(tdiv(a, SCALE as int) * SCALE == a + (-a) % (SCALE as int)) by (nonlinear_arith)
            requires
                -a == (SCALE as int) * ((-a) / (SCALE as int)) + (-a) % (SCALE as int),
                tdiv(a, SCALE as int) == -((-a) / (SCALE as int)),
        ;
    }
}

/// Fixed-point multiplication: the product of two scalars, rescaled.
pub fn fx_mul(a: i64, b: i64) -> (r: i64)
    requires
        -0x4000_0000_0000_0000 <= (a as int) * (b as int) <= 0x4000_0000_0000_0000,
    ensures
        r == tdiv((a as int) * (b as int), SCALE as int),
{
    let p: i128 = (a as i128) * (b as i128);
    let q: i128 = tdiv_i128(p, SCALE as i128);
    q as i64
}

} // verus!
