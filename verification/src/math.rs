//! Vector algebra over fixed-point scalars: 3D vectors for the scene and the
//! camera, and a 2D vector for the flat projection path.

use vstd::prelude::*;
use vstd::arithmetic::div_mod::*;
use crate::fixed::{FP_ONE, fmul, fdiv, tdiv, fp_mul, fp_div, isqrt, lemma_tdiv_bound};

verus! {

/// A 3D vector of fixed-point coordinates.
#[derive(Clone, Copy, PartialEq, Eq, Structural, Debug)]
pub struct Vec3 {
    pub x: i64,
    pub y: i64,
    pub z: i64,
}

/// A 2D vector of fixed-point coordinates.
#[derive(Clone, Copy, PartialEq, Eq, Structural, Debug)]
pub struct Vec2 {
    pub x: i64,
    pub y: i64,
}

/// Componentwise sum, as unbounded integers.
pub open spec fn vadd(a: Vec3, b: Vec3) -> Vec3 {
    Vec3 { x: (a.x + b.x) as i64, y: (a.y + b.y) as i64, z: (a.z + b.z) as i64 }
}

/// Componentwise difference, as unbounded integers.
pub open spec fn vsub(a: Vec3, b: Vec3) -> Vec3 {
    Vec3 { x: (a.x - b.x) as i64, y: (a.y - b.y) as i64, z: (a.z - b.z) as i64 }
}

/// Componentwise fixed-point scaling.
pub open spec fn vscale(a: Vec3, s: int) -> Vec3 {
    Vec3 { x: fmul(a.x as int, s) as i64, y: fmul(a.y as int, s) as i64, z: fmul(
        a.z as int,
        s,
    ) as i64 }
}

/// Fixed-point dot product.
pub open spec fn dot_fx(a: Vec3, b: Vec3) -> int {
    fmul(a.x as int, b.x as int) + fmul(a.y as int, b.y as int) + fmul(a.z as int, b.z as int)
}

/// Fixed-point cross product.
pub open spec fn cross_fx(a: Vec3, b: Vec3) -> Vec3 {
    Vec3 {
        x: (fmul(a.y as int, b.z as int) - fmul(a.z as int, b.y as int)) as i64,
        y: (fmul(a.z as int, b.x as int) - fmul(a.x as int, b.z as int)) as i64,
        z: (fmul(a.x as int, b.y as int) - fmul(a.y as int, b.x as int)) as i64,
    }
}

/// Floor of the square root of a nonnegative integer.
pub open spec fn sqrt_floor(n: int) -> int {
    choose|r: int| 0 <= r && #[trigger] (r * r) <= n && n < (r + 1) * (r + 1)
}

/// The floor square root is unique: any witness equals `sqrt_floor`.
pub proof fn lemma_sqrt_floor_unique(n: int, r: int)
    requires
        0 <= r,
        r * r <= n,
        n < (r + 1) * (r + 1),
    ensures
        r == sqrt_floor(n),
{
    assert(exists|s: int| 0 <= s && #[trigger] (s * s) <= n && n < (s + 1) * (s + 1));
    let s = sqrt_floor(n);
    assert(0 <= s && s * s <= n && n < (s + 1) * (s + 1));
    assert(r == s) by (nonlinear_arith)
        requires
            0 <= r,
            0 <= s,
            r * r <= n,
            n < (r + 1) * (r + 1),
            s * s <= n,
            n < (s + 1) * (s + 1),
    ;
}

/// Fixed-point length: the floor square root of the sum of squared
/// coordinates.
pub open spec fn len_fx(a: Vec3) -> int {
    sqrt_floor(a.x * a.x + a.y * a.y + a.z * a.z)
}

/// Fixed-point normalization: each coordinate divided by the length, or the
/// vector unchanged when its length is zero.
pub open spec fn norm_fx(a: Vec3) -> Vec3 {
    let l = len_fx(a);
    if l == 0 {
        a
    } else {
        Vec3 { x: fdiv(a.x as int, l) as i64, y: fdiv(a.y as int, l) as i64, z: fdiv(
            a.z as int,
            l,
        ) as i64 }
    }
}

/// All three coordinates within `[-m, m]`.
pub open spec fn bounded3(a: Vec3, m: int) -> bool {
    -m <= a.x <= m && -m <= a.y <= m && -m <= a.z <= m
}

impl Vec3 {
    pub fn new(x: i64, y: i64, z: i64) -> (r: Vec3)
        ensures
            r == (Vec3 { x, y, z }),
    {
        Vec3 { x, y, z }
    }

    pub fn zero() -> (r: Vec3)
        ensures
            r == (Vec3 { x: 0, y: 0, z: 0 }),
    {
        Vec3 { x: 0, y: 0, z: 0 }
    }

    /// The world's vertical axis.
    pub fn up() -> (r: Vec3)
        ensures
            r == (Vec3 { x: 0, y: FP_ONE, z: 0 }),
    {
        Vec3 { x: 0, y: FP_ONE, z: 0 }
    }

    pub fn add(self, b: Vec3) -> (r: Vec3)
        requires
            i64::MIN <= self.x + b.x <= i64::MAX,
            i64::MIN <= self.y + b.y <= i64::MAX,
            i64::MIN <= self.z + b.z <= i64::MAX,
        ensures
            r == vadd(self, b),
    {
        Vec3 { x: self.x + b.x, y: self.y + b.y, z: self.z + b.z }
    }

    pub fn sub(self, b: Vec3) -> (r: Vec3)
        requires
            i64::MIN <= self.x - b.x <= i64::MAX,
            i64::MIN <= self.y - b.y <= i64::MAX,
            i64::MIN <= self.z - b.z <= i64::MAX,
        ensures
            r == vsub(self, b),
    {
        Vec3 { x: self.x - b.x, y: self.y - b.y, z: self.z - b.z }
    }

    /// Scale by a fixed-point factor (a unit-sized vector by a moderate
    /// factor).
    pub fn scale(self, s: i64) -> (r: Vec3)
        requires
            bounded3(self, 0x100_0000),
            -0x20_0000_0000 <= s <= 0x20_0000_0000,
        ensures
            r == vscale(self, s as int),
            bounded3(r, 0x2000_0000_0000),
    {
        proof {
            lemma_scale_comp(self.x as int, s as int);
            lemma_scale_comp(self.y as int, s as int);
            lemma_scale_comp(self.z as int, s as int);
        }
        Vec3 { x: fp_mul(self.x, s), y: fp_mul(self.y, s), z: fp_mul(self.z, s) }
    }

    /// Fixed-point dot product. The bounds admit a world-sized left operand
    /// and a unit-sized right operand.
    pub fn dot(self, b: Vec3) -> (r: i64)
        requires
            bounded3(self, 0x2_0000_0000),
            bounded3(b, 0x4_0000),
        ensures
            r == dot_fx(self, b),
            -0x18_0000_0000 <= r <= 0x18_0000_0000,
    {
        proof {
            lemma_dot_comp(self.x as int, b.x as int);
            lemma_dot_comp(self.y as int, b.y as int);
            lemma_dot_comp(self.z as int, b.z as int);
        }
        fp_mul(self.x, b.x) + fp_mul(self.y, b.y) + fp_mul(self.z, b.z)
    }

    /// Fixed-point cross product of two unit-sized vectors.
    pub fn cross(self, b: Vec3) -> (r: Vec3)
        requires
            bounded3(self, 0x4_0000),
            bounded3(b, 0x4_0000),
        ensures
            r == cross_fx(self, b),
            bounded3(r, 0x20_0000),
    {
        proof {
            lemma_cross_comp(self.y as int, b.z as int, self.z as int, b.y as int);
            lemma_cross_comp(self.z as int, b.x as int, self.x as int, b.z as int);
            lemma_cross_comp(self.x as int, b.y as int, self.y as int, b.x as int);
        }
        Vec3 {
            x: fp_mul(self.y, b.z) - fp_mul(self.z, b.y),
            y: fp_mul(self.z, b.x) - fp_mul(self.x, b.z),
            z: fp_mul(self.x, b.y) - fp_mul(self.y, b.x),
        }
    }

    /// Fixed-point length of the vector.
    pub fn length(self) -> (r: i64)
        requires
            bounded3(self, 0x100_0000_0000),
        ensures
            r == len_fx(self),
            r >= 0,
            self.x <= r && -self.x <= r,
            self.y <= r && -self.y <= r,
            self.z <= r && -self.z <= r,
    {
        proof {
            lemma_square_bound(self.x as int, 0x100_0000_0000);
            lemma_square_bound(self.y as int, 0x100_0000_0000);
            lemma_square_bound(self.z as int, 0x100_0000_0000);
        }
        let sx: i128 = self.x as i128 * self.x as i128;
        let sy: i128 = self.y as i128 * self.y as i128;
        let sz: i128 = self.z as i128 * self.z as i128;
        let s: u128 = (sx + sy + sz) as u128;
        let r: u128 = isqrt(s);
        proof {
            assert(r <= 0x200_0000_0000) by (nonlinear_arith)
                requires
                    r * r <= s,
                    s <= 3 * 0x100_0000_0000 * 0x100_0000_0000,
            ;
            lemma_sqrt_floor_unique(s as int, r as int);
            lemma_abs_le_sqrt(self.x as int, r as int, s as int);
            lemma_abs_le_sqrt(self.y as int, r as int, s as int);
            lemma_abs_le_sqrt(self.z as int, r as int, s as int);
        }
        r as i64
    }

    /// The vector scaled to (fixed-point) unit length; the zero-length vector
    /// is returned unchanged.
    pub fn normalized(self) -> (r: Vec3)
        requires
            bounded3(self, 0x100_0000_0000),
        ensures
            r == norm_fx(self),
            bounded3(r, FP_ONE as int),
            len_fx(self) == 0 ==> r == self,
    {
        let l = self.length();
        if l == 0 {
            proof {
                assert(self.x == 0 && self.y == 0 && self.z == 0) by (nonlinear_arith)
                    requires
                        len_fx(self) == 0,
                        0 <= len_fx(self),
                        len_fx(self) * len_fx(self) <= self.x * self.x + self.y * self.y + self.z * self.z,
                        self.x * self.x + self.y * self.y + self.z * self.z < (len_fx(self) + 1) * (len_fx(self) + 1),
                ;
            }
            self
        } else {
            proof {
                lemma_norm_comp(self.x as int, l as int);
                lemma_norm_comp(self.y as int, l as int);
                lemma_norm_comp(self.z as int, l as int);
            }
            Vec3 { x: fp_div(self.x, l), y: fp_div(self.y, l), z: fp_div(self.z, l) }
        }
    }
}

/// A square of a bounded value is bounded.
proof fn lemma_square_bound(x: int, m: int)
    requires
        -m <= x <= m,
        m >= 0,
    ensures
        0 <= x * x <= m * m,
{
    assert(0 <= x * x <= m * m) by (nonlinear_arith)
        requires
            -m <= x <= m,
            m >= 0,
    ;
}

/// Helper bound for one component of `scale`.
proof fn lemma_scale_comp(x: int, s: int)
    requires
        -0x100_0000 <= x <= 0x100_0000,
        -0x20_0000_0000 <= s <= 0x20_0000_0000,
    ensures
        -0x2000_0000_0000_0000 <= x * s <= 0x2000_0000_0000_0000,
        -0x2000_0000_0000 <= fmul(x, s) <= 0x2000_0000_0000,
{
    assert(-0x2000_0000_0000_0000 <= x * s <= 0x2000_0000_0000_0000) by (nonlinear_arith)
        requires
            -0x100_0000 <= x <= 0x100_0000,
            -0x20_0000_0000 <= s <= 0x20_0000_0000,
    ;
    lemma_tdiv_bound(x * s, FP_ONE as int, 0x2000_0000_0000_0000);
}

/// Helper bound for one term of `dot`.
proof fn lemma_dot_comp(x: int, b: int)
    requires
        -0x2_0000_0000 <= x <= 0x2_0000_0000,
        -0x4_0000 <= b <= 0x4_0000,
    ensures
        -0x8_0000_0000_0000 <= x * b <= 0x8_0000_0000_0000,
        -0x8_0000_0000 <= fmul(x, b) <= 0x8_0000_0000,
{
    assert(-0x8_0000_0000_0000 <= x * b <= 0x8_0000_0000_0000) by (nonlinear_arith)
        requires
            -0x2_0000_0000 <= x <= 0x2_0000_0000,
            -0x4_0000 <= b <= 0x4_0000,
    ;
    lemma_tdiv_bound(x * b, FP_ONE as int, 0x8_0000_0000_0000);
}

/// Helper bound for one component of `cross`.
proof fn lemma_cross_comp(a1: int, b1: int, a2: int, b2: int)
    requires
        -0x4_0000 <= a1 <= 0x4_0000,
        -0x4_0000 <= b1 <= 0x4_0000,
        -0x4_0000 <= a2 <= 0x4_0000,
        -0x4_0000 <= b2 <= 0x4_0000,
    ensures
        -0x10_0000_0000 <= a1 * b1 <= 0x10_0000_0000,
        -0x10_0000_0000 <= a2 * b2 <= 0x10_0000_0000,
        -0x20_0000 <= fmul(a1, b1) - fmul(a2, b2) <= 0x20_0000,
{
    assert(-0x10_0000_0000 <= a1 * b1 <= 0x10_0000_0000) by (nonlinear_arith)
        requires
            -0x4_0000 <= a1 <= 0x4_0000,
            -0x4_0000 <= b1 <= 0x4_0000,
    ;
    assert(-0x10_0000_0000 <= a2 * b2 <= 0x10_0000_0000) by (nonlinear_arith)
        requires
            -0x4_0000 <= a2 <= 0x4_0000,
            -0x4_0000 <= b2 <= 0x4_0000,
    ;
    lemma_tdiv_bound(a1 * b1, FP_ONE as int, 0x10_0000_0000);
    lemma_tdiv_bound(a2 * b2, FP_ONE as int, 0x10_0000_0000);
}

/// A coordinate no larger than the length divides to at most one unit.
proof fn lemma_norm_comp(x: int, l: int)
    requires
        l > 0,
        x <= l,
        -x <= l,
        -0x100_0000_0000 <= x <= 0x100_0000_0000,
    ensures
        -FP_ONE <= fdiv(x, l) <= FP_ONE,
{
    assert(-(l * FP_ONE) <= x * FP_ONE <= l * FP_ONE) by (nonlinear_arith)
        requires
            x <= l,
            -x <= l,
            FP_ONE == 65536,
    ;
    lemma_tdiv_bound(x * FP_ONE, l, l * FP_ONE);
    lemma_div_multiples_vanish(FP_ONE as int, l);
    assert(l * FP_ONE == FP_ONE * l) by (nonlinear_arith);
}

/// A squared coordinate never exceeds the squared length, so the coordinate's
/// magnitude never exceeds the floor root of the sum of squares.
proof fn lemma_abs_le_sqrt(x: int, r: int, s: int)
    requires
        0 <= r,
        x * x <= s,
        s < (r + 1) * (r + 1),
    ensures
        x <= r,
        -x <= r,
{
    assert(x <= r && -x <= r) by (nonlinear_arith)
        requires
            0 <= r,
            x * x <= s,
            s < (r + 1) * (r + 1),
    ;
}

} // verus!
