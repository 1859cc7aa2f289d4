//! Fixed-point scalar arithmetic: signed 64-bit values carrying 16 fractional
//! bits. `FP_ONE` is the representation of 1.0; an angle of one radian is
//! `FP_ONE` as well. All derived quantities (vectors, angles, screen offsets)
//! are built from the operations here.

use vstd::prelude::*;
use vstd::arithmetic::div_mod::*;

verus! {

/// The fixed-point representation of 1.0 (16 fractional bits).
pub const FP_ONE: i64 = 65536;

/// pi/2 in fixed-point radians.
pub const HALF_PI_FP: i64 = 102944;

/// pi in fixed-point radians (2 * HALF_PI_FP, so quadrant reduction is exact).
pub const PI_FP: i64 = 205888;

/// 2*pi in fixed-point radians (4 * HALF_PI_FP).
pub const TWO_PI_FP: i64 = 411776;

/// Division truncating towards zero (the semantics of `/` on `i64`),
/// defined for positive divisors.
pub open spec fn tdiv(n: int, d: int) -> int {
    if n >= 0 {
        n / d
    } else {
        -((-n) / d)
    }
}

/// The fixed-point product of two fixed-point values.
pub open spec fn fmul(a: int, b: int) -> int {
    tdiv(a * b, FP_ONE as int)
}

/// The fixed-point quotient of two fixed-point values (positive divisor).
pub open spec fn fdiv(a: int, b: int) -> int {
    tdiv(a * FP_ONE, b)
}

/// `v` clamped into `[lo, hi]`.
pub open spec fn clip(v: int, lo: int, hi: int) -> int {
    if v < lo {
        lo
    } else if v > hi {
        hi
    } else {
        v
    }
}

/// Truncating division shrinks magnitudes: a bound on the numerator gives a
/// bound on the quotient.
pub proof fn lemma_tdiv_bound(n: int, d: int, m: int)
    requires
        d > 0,
        m >= 0,
        -m <= n <= m,
    ensures
        -(m / d) <= tdiv(n, d) <= m / d,
{
    if n >= 0 {
        lemma_div_is_ordered(n, m, d);
        lemma_div_pos_is_pos(n, d);
    } else {
        lemma_div_is_ordered(-n, m, d);
        lemma_div_pos_is_pos(-n, d);
    }
}

/// Fixed-point multiplication. The product of the raw values must fit i64,
/// which every caller discharges from its own magnitude bounds.
pub fn fp_mul(a: i64, b: i64) -> (r: i64)
    requires
        -0x4000_0000_0000_0000 <= a * b <= 0x4000_0000_0000_0000,
    ensures
        r == fmul(a as int, b as int),
{
    let p: i64 = a * b;
    p / FP_ONE
}

/// Fixed-point division by a positive divisor.
pub fn fp_div(a: i64, b: i64) -> (r: i64)
    requires
        b > 0,
        -0x4000_0000_0000 <= a <= 0x4000_0000_0000,
    ensures
        r == fdiv(a as int, b as int),
{
    let n: i64 = a * FP_ONE;
    n / b
}

/// Absolute value.
pub open spec fn iabs(a: int) -> int {
    if a >= 0 {
        a
    } else {
        -a
    }
}

/// Division rounded to the nearest integer (ties upward), for positive
/// divisors: `floor((2n + d) / 2d)`.
pub open spec fn rdiv(n: int, d: int) -> int {
    (2 * n + d) / (2 * d)
}

/// A rounded quotient of a product `n` with `|n| <= d * b` stays within
/// `[-b, b]`.
pub proof fn lemma_rdiv_bound(n: int, d: int, b: int)
    requires
        d > 0,
        b >= 0,
        -(d * b) <= n <= d * b,
    ensures
        -b <= rdiv(n, d) <= b,
{
    assert(d * (2 * b + 1) == (2 * d) * b + d) by (nonlinear_arith);
    assert(2 * n + d <= d * (2 * b + 1)) by (nonlinear_arith)
        requires
            n <= d * b,
    ;
    assert((2 * d) * (-b) + d <= 2 * n + d) by (nonlinear_arith)
        requires
            -(d * b) <= n,
    ;
    lemma_div_is_ordered(2 * n + d, d * (2 * b + 1), 2 * d);
    lemma_div_is_ordered((2 * d) * (-b) + d, 2 * n + d, 2 * d);
    lemma_fundamental_div_mod_converse((2 * d) * b + d, 2 * d, b, d);
    lemma_fundamental_div_mod_converse((2 * d) * (-b) + d, 2 * d, -b, d);
}

/// Euclidean (floor) division for positive divisors, on wide integers.
pub fn floor_div_i128(n: i128, d: i128) -> (r: i128)
    requires
        d > 0,
        -0x4000_0000_0000_0000_0000_0000_0000_0000 <= n,
    ensures
        r == n as int / d as int,
{
    let q: i128 = n / d;
    let rem: i128 = n % d;
    proof {
        if n < 0 {
            let nn = -(n as int);
            let dd = d as int;
            lemma_mod_bound(nn, dd);
            lemma_fundamental_div_mod(nn, dd);
            let bq = nn / dd;
            let br = nn % dd;
            if br == 0 {
                assert(n as int == dd * (-bq) + 0) by (nonlinear_arith)
                    requires
                        nn == dd * bq + 0,
                        nn == -(n as int),
                ;
                lemma_fundamental_div_mod_converse(n as int, dd, -bq, 0);
            } else {
                assert(n as int == dd * (-bq - 1) + (dd - br)) by (nonlinear_arith)
                    requires
                        nn == dd * bq + br,
                        nn == -(n as int),
                ;
                lemma_fundamental_div_mod_converse(n as int, dd, -bq - 1, dd - br);
            }
        }
    }
    if rem != 0 && n < 0 {
        q - 1
    } else {
        q
    }
}

/// Angle wrapped into `[0, 2*pi)`, in fixed-point radians.
pub open spec fn wrap2pi(a: int) -> int {
    a % (TWO_PI_FP as int)
}

/// Quadrant of a wrapped angle: 0, 1, 2 or 3.
pub open spec fn quad_of(w: int) -> int {
    w / (HALF_PI_FP as int)
}

/// Offset of a wrapped angle into its quadrant: `[0, pi/2)`.
pub open spec fn rem_of(w: int) -> int {
    w % (HALF_PI_FP as int)
}

/// Sine on `[0, pi/2)` by a degree-7 Taylor polynomial, clamped into
/// `[0, FP_ONE]`.
pub open spec fn psin(u: int) -> int {
    let u2 = (u * u) / (FP_ONE as int);
    let u3 = (u2 * u) / (FP_ONE as int);
    let u5 = (u3 * u2) / (FP_ONE as int);
    let u7 = (u5 * u2) / (FP_ONE as int);
    clip(u - u3 / 6 + u5 / 120 - u7 / 5040, 0, FP_ONE as int)
}

/// Cosine on `[0, pi/2)` by a degree-8 Taylor polynomial, clamped into
/// `[0, FP_ONE]`.
pub open spec fn pcos(u: int) -> int {
    let u2 = (u * u) / (FP_ONE as int);
    let u4 = (u2 * u2) / (FP_ONE as int);
    let u6 = (u4 * u2) / (FP_ONE as int);
    let u8 = (u6 * u2) / (FP_ONE as int);
    clip(FP_ONE - u2 / 2 + u4 / 24 - u6 / 720 + u8 / 40320, 0, FP_ONE as int)
}

/// Fixed-point sine of a fixed-point angle, for any angle.
pub open spec fn sin_fx(a: int) -> int {
    let w = wrap2pi(a);
    let q = quad_of(w);
    let u = rem_of(w);
    if q == 0 {
        psin(u)
    } else if q == 1 {
        pcos(u)
    } else if q == 2 {
        -psin(u)
    } else {
        -pcos(u)
    }
}

/// Fixed-point cosine of a fixed-point angle, for any angle.
pub open spec fn cos_fx(a: int) -> int {
    let w = wrap2pi(a);
    let q = quad_of(w);
    let u = rem_of(w);
    if q == 0 {
        pcos(u)
    } else if q == 1 {
        -psin(u)
    } else if q == 2 {
        -pcos(u)
    } else {
        psin(u)
    }
}

/// The sine and cosine specs are within `[-FP_ONE, FP_ONE]` (they are built
/// from clamped quadrant polynomials).
pub proof fn lemma_trig_bounds(a: int)
    ensures
        -FP_ONE <= sin_fx(a) <= FP_ONE,
        -FP_ONE <= cos_fx(a) <= FP_ONE,
{
}

/// Wrapping an angle does not change its sine or cosine: the wrapped value
/// reduces to the same quadrant and offset.
pub proof fn lemma_trig_wrap(a: int)
    ensures
        sin_fx(wrap2pi(a)) == sin_fx(a),
        cos_fx(wrap2pi(a)) == cos_fx(a),
{
    lemma_mod_bound(a, TWO_PI_FP as int);
    lemma_small_mod(wrap2pi(a) as nat, TWO_PI_FP as nat);
}

pub fn wrap_angle(a: i64) -> (r: i64)
    ensures
        r == wrap2pi(a as int),
        0 <= r < TWO_PI_FP,
{
    let m: i64 = a % TWO_PI_FP;
    proof {
        lemma_mod_bound(a as int, TWO_PI_FP as int);
        if a < 0 {
            let d = TWO_PI_FP as int;
            lemma_mod_bound(-(a as int), d);
            lemma_fundamental_div_mod(-(a as int), d);
            let q = (-(a as int)) / d;
            let rr = (-(a as int)) % d;
            assert(a as int == (-q - 1) * d + (d - rr)) by (nonlinear_arith)
                requires
                    -(a as int) == d * q + rr,
            ;
            if rr == 0 {
                assert(a as int == (-q) * d + 0) by (nonlinear_arith)
                    requires
                        a as int == (-q - 1) * d + (d - 0),
                ;
                lemma_fundamental_div_mod_converse_mod(a as int, d, -q, 0);
            } else {
                lemma_fundamental_div_mod_converse_mod(a as int, d, -q - 1, d - rr);
            }
        }
    }
    if m < 0 {
        m + TWO_PI_FP
    } else {
        m
    }
}

fn poly_sin(u: i64) -> (r: i64)
    requires
        0 <= u < HALF_PI_FP,
    ensures
        r == psin(u as int),
        0 <= r <= FP_ONE,
{
    proof {
        assert(u * u <= 102944 * 102944) by (nonlinear_arith)
            requires
                0 <= u <= 102944,
        ;
        assert(u * u >= 0) by (nonlinear_arith)
            requires
                0 <= u,
        ;
    }
    let u2: i64 = (u * u) / FP_ONE;
    proof {
        lemma_unit_div_bound(u as int * u as int, 102944int * 102944, FP_ONE as int);
        assert(u2 * u as int <= 161704 * 102944) by (nonlinear_arith)
            requires
                0 <= u2 <= 161704,
                0 <= u <= 102944,
        ;
    }
    let u3: i64 = (u2 * u) / FP_ONE;
    proof {
        lemma_unit_div_bound(u2 as int * u as int, 161704int * 102944, FP_ONE as int);
        assert(u3 * u2 <= 254004 * 161704) by (nonlinear_arith)
            requires
                0 <= u3 <= 254004,
                0 <= u2 <= 161704,
        ;
    }
    let u5: i64 = (u3 * u2) / FP_ONE;
    proof {
        lemma_unit_div_bound(u3 as int * u2 as int, 254004int * 161704, FP_ONE as int);
        assert(u5 * u2 <= 626731 * 161704) by (nonlinear_arith)
            requires
                0 <= u5 <= 626731,
                0 <= u2 <= 161704,
        ;
    }
    let u7: i64 = (u5 * u2) / FP_ONE;
    proof {
        lemma_unit_div_bound(u5 as int * u2 as int, 626731int * 161704, FP_ONE as int);
        lemma_unit_div_bound(u3 as int, 254004, 6);
        lemma_unit_div_bound(u5 as int, 626731, 120);
        lemma_unit_div_bound(u7 as int, 1546400, 5040);
    }
    let raw: i64 = u - u3 / 6 + u5 / 120 - u7 / 5040;
    if raw < 0 {
        0
    } else if raw > FP_ONE {
        FP_ONE
    } else {
        raw
    }
}

fn poly_cos(u: i64) -> (r: i64)
    requires
        0 <= u < HALF_PI_FP,
    ensures
        r == pcos(u as int),
        0 <= r <= FP_ONE,
{
    proof {
        assert(u * u <= 102944 * 102944) by (nonlinear_arith)
            requires
                0 <= u <= 102944,
        ;
        assert(u * u >= 0) by (nonlinear_arith)
            requires
                0 <= u,
        ;
    }
    let u2: i64 = (u * u) / FP_ONE;
    proof {
        lemma_unit_div_bound(u as int * u as int, 102944int * 102944, FP_ONE as int);
        assert(u2 * u2 <= 161704 * 161704) by (nonlinear_arith)
            requires
                0 <= u2 <= 161704,
        ;
    }
    let u4: i64 = (u2 * u2) / FP_ONE;
    proof {
        lemma_unit_div_bound(u2 as int * u2 as int, 161704int * 161704, FP_ONE as int);
        assert(u4 * u2 <= 398989 * 161704) by (nonlinear_arith)
            requires
                0 <= u4 <= 398989,
                0 <= u2 <= 161704,
        ;
    }
    let u6: i64 = (u4 * u2) / FP_ONE;
    proof {
        lemma_unit_div_bound(u4 as int * u2 as int, 398989int * 161704, FP_ONE as int);
        assert(u6 * u2 <= 984468 * 161704) by (nonlinear_arith)
            requires
                0 <= u6 <= 984468,
                0 <= u2 <= 161704,
        ;
    }
    let u8: i64 = (u6 * u2) / FP_ONE;
    proof {
        lemma_unit_div_bound(u6 as int * u2 as int, 984468int * 161704, FP_ONE as int);
        lemma_unit_div_bound(u2 as int, 161704, 2);
        lemma_unit_div_bound(u4 as int, 398989, 24);
        lemma_unit_div_bound(u6 as int, 984468, 720);
        lemma_unit_div_bound(u8 as int, 2429083, 40320);
    }
    let raw: i64 = FP_ONE - u2 / 2 + u4 / 24 - u6 / 720 + u8 / 40320;
    if raw < 0 {
        0
    } else if raw > FP_ONE {
        FP_ONE
    } else {
        raw
    }
}

/// Nonnegative division preserves order and sign.
proof fn lemma_unit_div_bound(x: int, m: int, d: int)
    requires
        0 <= x <= m,
        d > 0,
    ensures
        0 <= x / d <= m / d,
{
    lemma_div_is_ordered(x, m, d);
    lemma_div_pos_is_pos(x, d);
}

/// Fixed-point sine of any fixed-point angle.
pub fn sin_fp(a: i64) -> (r: i64)
    ensures
        r == sin_fx(a as int),
        -FP_ONE <= r <= FP_ONE,
{
    let w = wrap_angle(a);
    let q: i64 = w / HALF_PI_FP;
    let u: i64 = w % HALF_PI_FP;
    proof {
        lemma_mod_bound(w as int, HALF_PI_FP as int);
        lemma_div_pos_is_pos(w as int, HALF_PI_FP as int);
        lemma_div_is_ordered(w as int, 4 * HALF_PI_FP - 1, HALF_PI_FP as int);
    }
    if q == 0 {
        poly_sin(u)
    } else if q == 1 {
        poly_cos(u)
    } else if q == 2 {
        let v = poly_sin(u);
        -v
    } else {
        let v = poly_cos(u);
        -v
    }
}

/// Fixed-point cosine of any fixed-point angle.
pub fn cos_fp(a: i64) -> (r: i64)
    ensures
        r == cos_fx(a as int),
        -FP_ONE <= r <= FP_ONE,
{
    let w = wrap_angle(a);
    let q: i64 = w / HALF_PI_FP;
    let u: i64 = w % HALF_PI_FP;
    proof {
        lemma_mod_bound(w as int, HALF_PI_FP as int);
        lemma_div_pos_is_pos(w as int, HALF_PI_FP as int);
        lemma_div_is_ordered(w as int, 4 * HALF_PI_FP - 1, HALF_PI_FP as int);
    }
    if q == 0 {
        poly_cos(u)
    } else if q == 1 {
        let v = poly_sin(u);
        -v
    } else if q == 2 {
        let v = poly_cos(u);
        -v
    } else {
        poly_sin(u)
    }
}

/// Floor of the square root: `r * r <= n < (r + 1) * (r + 1)`.
pub fn isqrt(n: u128) -> (r: u128)
    ensures
        r * r <= n,
        n < (r + 1) * (r + 1),
{
    if n == 0 {
        return 0;
    }
    let mut lo: u128 = 0;
    let mut hi: u128 = 0x1_0000_0000_0000_0000;
    proof {
        assert((hi as int) * (hi as int) > n as int) by (nonlinear_arith)
            requires
                hi == 0x1_0000_0000_0000_0000,
                n <= u128::MAX,
        ;
    }
    while lo + 1 < hi
        invariant
            0 <= lo < hi <= 0x1_0000_0000_0000_0000,
            lo * lo <= n,
            n < hi * hi,
        decreases hi - lo,
    {
        let mid: u128 = lo + (hi - lo) / 2;
        proof {
            assert(mid < hi);
            assert((mid as int) * (mid as int) < 0x1_0000_0000_0000_0000 * 0x1_0000_0000_0000_0000)
                by (nonlinear_arith)
                requires
                    0 <= mid < 0x1_0000_0000_0000_0000,
            ;
        }
        if mid * mid <= n {
            lo = mid;
        } else {
            hi = mid;
        }
    }
    lo
}

} // verus!
