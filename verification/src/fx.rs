//! Fixed-point scalars.
//!
//! A real number `x` is represented by the `i64` value `x * SCALE`,
//! rounded toward negative infinity.  All operations are defined by exact
//! integer formulas (floor division), so every result is pinned down by
//! its specification.

use vstd::prelude::*;
use vstd::arithmetic::div_mod::lemma_fundamental_div_mod;

verus! {

/// One whole unit in the fixed-point encoding: six decimal places.
pub const SCALE: i64 = 1_000_000;

/// Stands in for "plus infinity" in ray-parameter intervals.  Large enough
/// that no geometric computation reaches it, small enough that interval
/// arithmetic on it cannot overflow an `i64`.
pub const INFINITY: i64 = 0x4000_0000_0000_0000;

/// The fixed-point encoding of pi.  The four circle constants are chosen
/// consistently — `PI == 2 * PI_2 == 4 * PI_4` and `TWO_PI == 2 * PI` —
/// so that exactly representable spherical coordinates land on their grid
/// values (the pole maps to one half, the equatorial seam to one quarter).
pub const PI: i64 = 3_141_592;

/// The fixed-point encoding of pi / 2.
pub const PI_2: i64 = 1_570_796;

/// The fixed-point encoding of pi / 4.
pub const PI_4: i64 = 785_398;

/// The fixed-point encoding of 2 pi.
pub const TWO_PI: i64 = 6_283_184;

/// Floor division (rounds toward negative infinity), for any nonzero
/// divisor.  `int` division is Euclidean, which equals floor division when
/// the divisor is positive, so a negative divisor is handled by negating
/// both operands.
pub open spec fn fdiv(a: int, b: int) -> int
    recommends
        b != 0,
{
    if b > 0 {
        a / b
    } else {
        (-a) / (-b)
    }
}

/// Ceiling division for a positive divisor.
pub open spec fn cdiv(a: int, b: int) -> int
    recommends
        b > 0,
{
    -((-a) / b)
}

/// The product of two fixed-point values: `(a * b) / SCALE`, floored.
pub open spec fn fxmul(a: int, b: int) -> int {
    fdiv(a * b, SCALE as int)
}

/// The quotient of two fixed-point values: `(a * SCALE) / b`, floored.
pub open spec fn fxdiv(a: int, b: int) -> int
    recommends
        b != 0,
{
    fdiv(a * (SCALE as int), b)
}

/// The integer square root: the largest `r` with `r * r <= n`.
pub open spec fn sqrt_floor(n: nat) -> nat
    decreases n,
{
    if n == 0 {
        0
    } else {
        let p = sqrt_floor((n - 1) as nat);
        if (p + 1) * (p + 1) <= n {
            p + 1
        } else {
            p
        }
    }
}

/// `sqrt_floor` on `int`, zero below zero.
pub open spec fn sqrt_floor_int(n: int) -> int {
    if n <= 0 {
        0
    } else {
        sqrt_floor(n as nat) as int
    }
}

/// Floor division is the quotient `q` with `q * b <= a < (q + 1) * b`.
pub proof fn lemma_fdiv_bounds(a: int, b: int)
    requires
        b > 0,
    ensures
        fdiv(a, b) * b <= a < (fdiv(a, b) + 1) * b,
{
    lemma_fundamental_div_mod(a, b);
    assert(fdiv(a, b) * b <= a < (fdiv(a, b) + 1) * b) by (nonlinear_arith)
        requires
            b > 0,
            a == b * (a / b) + a % b,
            0 <= a % b < b,
            fdiv(a, b) == a / b,
    ;
}

/// Only one integer satisfies the floor-division bounds.
pub proof fn lemma_fdiv_unique(a: int, b: int, q: int)
    requires
        b > 0,
        q * b <= a < (q + 1) * b,
    ensures
        fdiv(a, b) == q,
{
    lemma_fdiv_bounds(a, b);
    assert(fdiv(a, b) == q) by (nonlinear_arith)
        requires
            b > 0,
            q * b <= a < (q + 1) * b,
            fdiv(a, b) * b <= a < (fdiv(a, b) + 1) * b,
    ;
}

/// The floored quotient clears a bound exactly when the numerator does.
pub proof fn lemma_fdiv_ge(a: int, b: int, m: int)
    requires
        b > 0,
    ensures
        fdiv(a, b) >= m <==> a >= m * b,
{
    lemma_fdiv_bounds(a, b);
    assert(fdiv(a, b) >= m <==> a >= m * b) by (nonlinear_arith)
        requires
            b > 0,
            fdiv(a, b) * b <= a < (fdiv(a, b) + 1) * b,
    ;
}

/// The floored quotient stays under a bound exactly when the numerator
/// stays under the next multiple.
pub proof fn lemma_fdiv_le(a: int, b: int, m: int)
    requires
        b > 0,
    ensures
        fdiv(a, b) <= m <==> a < (m + 1) * b,
{
    lemma_fdiv_bounds(a, b);
    assert(fdiv(a, b) <= m <==> a < (m + 1) * b) by (nonlinear_arith)
        requires
            b > 0,
            fdiv(a, b) * b <= a < (fdiv(a, b) + 1) * b,
    ;
}

/// Floor division is monotone in the numerator.
pub proof fn lemma_fdiv_mono(a1: int, a2: int, b: int)
    requires
        b > 0,
        a1 <= a2,
    ensures
        fdiv(a1, b) <= fdiv(a2, b),
{
    lemma_fdiv_bounds(a1, b);
    lemma_fdiv_bounds(a2, b);
    assert(fdiv(a1, b) <= fdiv(a2, b)) by (nonlinear_arith)
        requires
            b > 0,
            a1 <= a2,
            fdiv(a1, b) * b <= a1 < (fdiv(a1, b) + 1) * b,
            fdiv(a2, b) * b <= a2 < (fdiv(a2, b) + 1) * b,
    ;
}

/// Dividing an exact multiple recovers the factor.
pub proof fn lemma_fdiv_multiple(k: int, b: int)
    requires
        b > 0,
    ensures
        fdiv(k * b, b) == k,
{
    assert(k * b <= k * b < (k + 1) * b) by (nonlinear_arith)
        requires
            b > 0,
    ;
    lemma_fdiv_unique(k * b, b, k);
}

/// Adding a multiple of the divisor shifts the floored quotient by the
/// factor.
pub proof fn lemma_fdiv_add_multiple(a: int, k: int, b: int)
    requires
        b > 0,
    ensures
        fdiv(a + k * b, b) == fdiv(a, b) + k,
{
    lemma_fdiv_bounds(a, b);
    assert((fdiv(a, b) + k) * b <= a + k * b < (fdiv(a, b) + k + 1) * b) by (nonlinear_arith)
        requires
            b > 0,
            fdiv(a, b) * b <= a < (fdiv(a, b) + 1) * b,
    ;
    lemma_fdiv_unique(a + k * b, b, fdiv(a, b) + k);
}

/// For a positive factor `d`, `t * d <= c` exactly when `t` is at most the
/// floored quotient `c / d`.
pub proof fn lemma_mul_le_iff(t: int, d: int, c: int)
    requires
        d > 0,
    ensures
        t * d <= c <==> t <= fdiv(c, d),
{
    lemma_fdiv_bounds(c, d);
    assert(t * d <= c <==> t <= fdiv(c, d)) by (nonlinear_arith)
        requires
            d > 0,
            fdiv(c, d) * d <= c < (fdiv(c, d) + 1) * d,
    ;
}

/// For a positive factor `d`, `t * d >= c` exactly when `t` is at least
/// the ceiling quotient of `c / d`.
pub proof fn lemma_mul_ge_iff(t: int, d: int, c: int)
    requires
        d > 0,
    ensures
        t * d >= c <==> t >= cdiv(c, d),
{
    lemma_mul_le_iff(-t, d, -c);
    assert(t * d >= c <==> (-t) * d <= -c) by (nonlinear_arith);
}

/// A floored scaled product lies between the floored quotients of any
/// bounds on the raw product.
pub proof fn lemma_fxmul_range(a: int, b: int, plo: int, phi: int)
    requires
        plo <= a * b <= phi,
    ensures
        fdiv(plo, SCALE as int) <= fxmul(a, b) <= fdiv(phi, SCALE as int),
{
    lemma_fdiv_mono(plo, a * b, SCALE as int);
    lemma_fdiv_mono(a * b, phi, SCALE as int);
}

/// `sqrt_floor` is the floor of the real square root.
pub proof fn lemma_sqrt_floor_bounds(n: nat)
    ensures
        sqrt_floor(n) * sqrt_floor(n) <= n < (sqrt_floor(n) + 1) * (sqrt_floor(n) + 1),
    decreases n,
{
    if n == 0 {
        assert(sqrt_floor(n) == 0);
        assert(sqrt_floor(n) * sqrt_floor(n) <= n < (sqrt_floor(n) + 1) * (sqrt_floor(n) + 1))
            by (nonlinear_arith)
            requires
                n == 0,
                sqrt_floor(n) == 0,
        ;
    } else {
        let p = sqrt_floor((n - 1) as nat);
        lemma_sqrt_floor_bounds((n - 1) as nat);
        if (p + 1) * (p + 1) <= n {
            assert(sqrt_floor(n) == p + 1);
            assert(sqrt_floor(n) * sqrt_floor(n) <= n < (sqrt_floor(n) + 1) * (sqrt_floor(n)
                + 1)) by (nonlinear_arith)
                requires
                    sqrt_floor(n) == p + 1,
                    (p + 1) * (p + 1) <= n,
                    n - 1 < (p + 1) * (p + 1),
            ;
        } else {
            assert(sqrt_floor(n) == p);
            assert(sqrt_floor(n) * sqrt_floor(n) <= n < (sqrt_floor(n) + 1) * (sqrt_floor(n)
                + 1)) by (nonlinear_arith)
                requires
                    sqrt_floor(n) == p,
                    p * p <= n - 1,
                    !((p + 1) * (p + 1) <= n),
            ;
        }
    }
}

/// Only one natural number satisfies the square-root bounds.
pub proof fn lemma_sqrt_floor_unique(n: nat, r: nat)
    requires
        r * r <= n < (r + 1) * (r + 1),
    ensures
        sqrt_floor(n) == r,
{
    lemma_sqrt_floor_bounds(n);
    assert(sqrt_floor(n) == r) by (nonlinear_arith)
        requires
            r * r <= n < (r + 1) * (r + 1),
            sqrt_floor(n) * sqrt_floor(n) <= n < (sqrt_floor(n) + 1) * (sqrt_floor(n) + 1),
    ;
}

/// Floor division of `i128` values, positive divisor.
pub fn floor_div_i128(a: i128, b: i128) -> (r: i128)
    requires
        b > 0,
    ensures
        r == fdiv(a as int, b as int),
{
    proof {
        lemma_fundamental_div_mod(a as int, b as int);
        assert(i128::MIN <= a as int / b as int <= i128::MAX) by (nonlinear_arith)
            requires
                b > 0,
                i128::MIN <= a <= i128::MAX,
                a == b * (a as int / b as int) + a as int % b as int,
                0 <= (a as int) % (b as int) < b,
        ;
    }
    a.checked_div_euclid(b).unwrap()
}

/// Ceiling division of `i128` values, positive divisor.
pub fn ceil_div_i128(a: i128, b: i128) -> (r: i128)
    requires
        b > 0,
        a > i128::MIN,
    ensures
        r == cdiv(a as int, b as int),
{
    let f = floor_div_i128(-a, b);
    proof {
        lemma_fdiv_bounds(-a as int, b as int);
        assert(i128::MIN <= -f <= i128::MAX) by (nonlinear_arith)
            requires
                b > 0,
                i128::MIN < -(a as int) <= i128::MAX,
                f * b <= -(a as int) < (f + 1) * b,
        ;
    }
    -f
}

/// The fixed-point product, floored.
pub fn fx_mul(a: i64, b: i64) -> (r: i64)
    requires
        i64::MIN <= fxmul(a as int, b as int) <= i64::MAX,
    ensures
        r == fxmul(a as int, b as int),
{
    let p: i128 = (a as i128) * (b as i128);
    let q = floor_div_i128(p, SCALE as i128);
    q as i64
}

/// The fixed-point quotient, floored; the divisor must be nonzero.
pub fn fx_div(a: i64, b: i64) -> (r: i64)
    requires
        b != 0,
        i64::MIN <= fxdiv(a as int, b as int) <= i64::MAX,
    ensures
        r == fxdiv(a as int, b as int),
{
    let p: i128 = (a as i128) * (SCALE as i128);
    if b > 0 {
        let q = floor_div_i128(p, b as i128);
        q as i64
    } else {
        let q = floor_div_i128(-p, -(b as i128));
        q as i64
    }
}

/// The integer square root of a `u128`.
pub fn isqrt_u128(n: u128) -> (r: u128)
    ensures
        r == sqrt_floor(n as nat),
        r * r <= n < (r + 1) * (r + 1),
        r < 0x1_0000_0000_0000_0000,
{
    let mut lo: u128 = 0;
    let mut hi: u128 = 0x1_0000_0000_0000_0000;
    proof {
        assert((hi as int) * (hi as int) > n as int) by (nonlinear_arith)
            requires
                hi == 0x1_0000_0000_0000_0000u128,
                n <= u128::MAX,
        ;
    }
    while lo + 1 < hi
        invariant
            0 <= lo < hi <= 0x1_0000_0000_0000_0000,
            (lo as int) * (lo as int) <= n as int,
            (hi as int) * (hi as int) > n as int,
        decreases hi - lo,
    {
        let mid = lo + (hi - lo) / 2;
        proof {
            assert((mid as int) * (mid as int) <= u128::MAX) by (nonlinear_arith)
                requires
                    0 <= mid < 0x1_0000_0000_0000_0000u128,
            ;
        }
        if mid * mid <= n {
            lo = mid;
        } else {
            hi = mid;
        }
    }
    proof {
        lemma_sqrt_floor_unique(n as nat, lo as nat);
    }
    lo
}

/// The integer square root of a nonnegative `i128`.
pub fn isqrt_i128(n: i128) -> (r: i128)
    requires
        n >= 0,
    ensures
        r == sqrt_floor_int(n as int),
        r * r <= n < (r + 1) * (r + 1),
        r >= 0,
{
    let r = isqrt_u128(n as u128);
    r as i128
}

/// Degrees to radians: `deg * pi / 180`.
pub open spec fn spec_degrees_to_radians(deg: int) -> int {
    fdiv(deg * PI, 180 * SCALE as int)
}

/// The argument folded into `[-pi, pi)` by whole turns.
pub open spec fn spec_fold_turns(x: int) -> int {
    x - fdiv(x + PI, TWO_PI as int) * TWO_PI
}

/// The quarter-wave polynomial behind the sine approximation.
pub open spec fn spec_sin_poly(y: int) -> int {
    let y2 = fxmul(y, y);
    let y3 = fxmul(y2, y);
    let y5 = fxmul(y3, y2);
    let y7 = fxmul(y5, y2);
    y - fdiv(y3, 6) + fdiv(y5, 120) - fdiv(y7, 5040)
}

/// The sine approximation: fold into `[-pi, pi)`, reflect into the
/// quarter wave, apply the polynomial.
pub open spec fn spec_sin(x: int) -> int {
    let xr = spec_fold_turns(x);
    let y = if xr > PI_2 {
        PI - xr
    } else if xr < -PI_2 {
        -PI - xr
    } else {
        xr
    };
    spec_sin_poly(y)
}

/// The cosine approximation: a quarter-turn shift of the sine.
pub open spec fn spec_cos(x: int) -> int {
    spec_sin(x + PI_2)
}

/// The arctangent polynomial on `[0, 1]`.
pub open spec fn spec_atan_unit(z: int) -> int {
    fxmul(z, PI_4 as int) + fxmul(fxmul(z, SCALE - z), 244_700 + fxmul(66_300, z))
}

/// Two-argument arctangent by octant reduction, in `[-pi, pi]`.
pub open spec fn spec_atan2(y: int, x: int) -> int {
    if x == 0 && y == 0 {
        0
    } else {
        let ax = if x >= 0 {
            x
        } else {
            -x
        };
        let ay = if y >= 0 {
            y
        } else {
            -y
        };
        let base = if ax >= ay {
            spec_atan_unit(fxdiv(ay, ax))
        } else {
            PI_2 - spec_atan_unit(fxdiv(ax, ay))
        };
        let r0 = if x >= 0 {
            base
        } else {
            PI - base
        };
        if y >= 0 {
            r0
        } else {
            -r0
        }
    }
}

/// Degrees to radians.
pub fn degrees_to_radians(deg: i64) -> (r: i64)
    requires
        -1_000_000_000_000 <= deg <= 1_000_000_000_000,
    ensures
        r == spec_degrees_to_radians(deg as int),
        -100_000_000_000 <= r <= 100_000_000_000,
{
    let p: i128 = (deg as i128) * (PI as i128);
    let q = floor_div_i128(p, 180 * (SCALE as i128));
    proof {
        lemma_fdiv_bounds(p as int, 180 * SCALE as int);
        assert(-100_000_000_000 <= fdiv(p as int, 180 * SCALE as int) <= 100_000_000_000)
            by (nonlinear_arith)
            requires
                -1_000_000_000_000 <= deg as int <= 1_000_000_000_000,
                p == (deg as int) * (PI as int),
                PI == 3_141_592i64,
                SCALE == 1_000_000i64,
                fdiv(p as int, 180 * SCALE as int) * (180 * SCALE as int) <= (p as int) < (fdiv(
                    p as int,
                    180 * SCALE as int,
                ) + 1) * (180 * SCALE as int),
        ;
    }
    q as i64
}

/// The sine of a fixed-point angle in radians; the result stays within a
/// little more than one unit of zero (the polynomial can overshoot by a
/// rounding margin).
pub fn fx_sin(x: i64) -> (r: i64)
    requires
        -2_000_000_000_000 <= x <= 2_000_000_000_000,
    ensures
        r == spec_sin(x as int),
        -2_400_000 <= r <= 2_400_000,
{
    let k128 = floor_div_i128((x as i128) + (PI as i128), TWO_PI as i128);
    proof {
        lemma_fdiv_bounds(x as int + PI, TWO_PI as int);
        assert(-1_000_000_000 <= fdiv(x as int + PI, TWO_PI as int) <= 1_000_000_000
            && -(PI as int) <= x as int - fdiv(x as int + PI, TWO_PI as int) * TWO_PI <= PI as int)
            by (nonlinear_arith)
            requires
                -2_000_000_000_000 <= x as int <= 2_000_000_000_000,
                PI == 3_141_592i64,
                TWO_PI == 6_283_184i64,
                fdiv(x as int + PI, TWO_PI as int) * TWO_PI <= x as int + PI < (fdiv(
                    x as int + PI,
                    TWO_PI as int,
                ) + 1) * TWO_PI,
        ;
    }
    let k = k128 as i64;
    let xr128: i128 = (x as i128) - (k as i128) * (TWO_PI as i128);
    let xr = xr128 as i64;
    let y: i64 = if xr > PI_2 {
        PI - xr
    } else if xr < -PI_2 {
        -PI - xr
    } else {
        xr
    };
    sin_poly(y)
}

/// The quarter-wave polynomial.
fn sin_poly(y: i64) -> (r: i64)
    requires
        -1_570_797 <= y <= 1_570_797,
    ensures
        r == spec_sin_poly(y as int),
        -2_400_000 <= r <= 2_400_000,
{
    proof {
        assert(0 <= (y as int) * (y as int) <= 1_570_797 * 1_570_797) by (nonlinear_arith)
            requires
                -1_570_797 <= y as int <= 1_570_797,
        ;
        lemma_fxmul_range(y as int, y as int, 0, 1_570_797int * 1_570_797);
    }
    let y2 = fx_mul(y, y);
    proof {
        assert(0 <= y2 as int <= 2_467_404);
        assert(-2_467_404 * 1_570_797 <= (y2 as int) * (y as int) <= 2_467_404 * 1_570_797)
            by (nonlinear_arith)
            requires
                0 <= y2 as int <= 2_467_404,
                -1_570_797 <= y as int <= 1_570_797,
        ;
        lemma_fxmul_range(y2 as int, y as int, -2_467_404int * 1_570_797, 2_467_404int * 1_570_797);
    }
    let y3 = fx_mul(y2, y);
    proof {
        assert(-3_875_791 <= y3 as int <= 3_875_791);
        assert(-3_875_791int * 2_467_404 <= (y3 as int) * (y2 as int) <= 3_875_791int * 2_467_404)
            by (nonlinear_arith)
            requires
                -3_875_791 <= y3 as int <= 3_875_791,
                0 <= y2 as int <= 2_467_404,
        ;
        lemma_fxmul_range(y3 as int, y2 as int, -3_875_791int * 2_467_404, 3_875_791int * 2_467_404);
    }
    let y5 = fx_mul(y3, y2);
    proof {
        assert(-9_563_143 <= y5 as int <= 9_563_143);
        assert(-9_563_143int * 2_467_404 <= (y5 as int) * (y2 as int) <= 9_563_143int * 2_467_404)
            by (nonlinear_arith)
            requires
                -9_563_143 <= y5 as int <= 9_563_143,
                0 <= y2 as int <= 2_467_404,
        ;
        lemma_fxmul_range(y5 as int, y2 as int, -9_563_143int * 2_467_404, 9_563_143int * 2_467_404);
    }
    let y7 = fx_mul(y5, y2);
    proof {
        assert(-23_596_138 <= y7 as int <= 23_596_138);
        lemma_fdiv_bounds(y3 as int, 6);
        lemma_fdiv_bounds(y5 as int, 120);
        lemma_fdiv_bounds(y7 as int, 5040);
    }
    let t3 = (floor_div_i128(y3 as i128, 6)) as i64;
    let t5 = (floor_div_i128(y5 as i128, 120)) as i64;
    let t7 = (floor_div_i128(y7 as i128, 5040)) as i64;
    y - t3 + t5 - t7
}

/// The cosine of a fixed-point angle in radians.
pub fn fx_cos(x: i64) -> (r: i64)
    requires
        -1_000_000_000_000 <= x <= 1_000_000_000_000,
    ensures
        r == spec_cos(x as int),
        -2_400_000 <= r <= 2_400_000,
{
    fx_sin(x + PI_2)
}

/// The tangent of a fixed-point angle: sine over cosine.
pub fn fx_tan(x: i64) -> (r: i64)
    requires
        -1_000_000_000_000 <= x <= 1_000_000_000_000,
        spec_cos(x as int) != 0,
        i64::MIN <= fxdiv(spec_sin(x as int), spec_cos(x as int)) <= i64::MAX,
    ensures
        r == fxdiv(spec_sin(x as int), spec_cos(x as int)),
{
    let s = fx_sin(x);
    let c = fx_cos(x);
    fx_div(s, c)
}

/// The arctangent polynomial on `[0, 1]`.
fn atan_unit(z: i64) -> (r: i64)
    requires
        0 <= z <= SCALE,
    ensures
        r == spec_atan_unit(z as int),
        0 <= r <= PI_2,
{
    proof {
        assert(0 <= (z as int) * (PI_4 as int) <= 1_000_000 * 785_398) by (nonlinear_arith)
            requires
                0 <= z as int <= 1_000_000,
                PI_4 == 785_398i64,
        ;
        lemma_fxmul_range(z as int, PI_4 as int, 0, 1_000_000int * 785_398);
    }
    let a = fx_mul(z, PI_4);
    proof {
        assert(0 <= (z as int) * (SCALE as int - z as int) <= 250_000_000_000)
            by (nonlinear_arith)
            requires
                0 <= z as int <= 1_000_000,
                SCALE == 1_000_000i64,
        ;
        lemma_fxmul_range(z as int, SCALE as int - z as int, 0, 250_000_000_000int);
    }
    let zz = fx_mul(z, SCALE - z);
    proof {
        assert(0 <= 66_300 * (z as int) <= 66_300 * 1_000_000) by (nonlinear_arith)
            requires
                0 <= z as int <= 1_000_000,
        ;
        lemma_fxmul_range(66_300, z as int, 0, 66_300int * 1_000_000);
    }
    let c = 244_700 + fx_mul(66_300, z);
    proof {
        assert(0 <= (zz as int) * (c as int) <= 250_000 * 311_000) by (nonlinear_arith)
            requires
                0 <= zz as int <= 250_000,
                244_700 <= c as int <= 311_000,
        ;
        lemma_fxmul_range(zz as int, c as int, 0, 250_000int * 311_000);
    }
    let b = fx_mul(zz, c);
    a + b
}

/// Two-argument arctangent, in `[-pi, pi]`.
pub fn fx_atan2(y: i64, x: i64) -> (r: i64)
    requires
        -100_000_000 <= y <= 100_000_000,
        -100_000_000 <= x <= 100_000_000,
    ensures
        r == spec_atan2(y as int, x as int),
        -(PI as int) <= r <= PI as int,
{
    if x == 0 && y == 0 {
        return 0;
    }
    let ax: i64 = if x >= 0 {
        x
    } else {
        -x
    };
    let ay: i64 = if y >= 0 {
        y
    } else {
        -y
    };
    let base: i64 = if ax >= ay {
        proof {
            lemma_quotient_unit(ay as int, ax as int);
        }
        atan_unit(fx_div(ay, ax))
    } else {
        proof {
            lemma_quotient_unit(ax as int, ay as int);
        }
        PI_2 - atan_unit(fx_div(ax, ay))
    };
    let r0: i64 = if x >= 0 {
        base
    } else {
        PI - base
    };
    if y >= 0 {
        r0
    } else {
        -r0
    }
}

/// The floored quotient of `0 <= a <= b` by `b > 0` lies in `[0, 1]`
/// fixed-point units.
proof fn lemma_quotient_unit(a: int, b: int)
    requires
        0 <= a <= b,
        b > 0,
    ensures
        0 <= fxdiv(a, b) <= SCALE as int,
{
    lemma_fdiv_bounds(a * SCALE as int, b);
    assert(0 <= fdiv(a * SCALE as int, b) <= SCALE as int) by (nonlinear_arith)
        requires
            0 <= a <= b,
            b > 0,
            SCALE == 1_000_000i64,
            fdiv(a * SCALE as int, b) * b <= a * (SCALE as int) < (fdiv(a * SCALE as int, b) + 1) * b,
    ;
}

/// Dividing by a factor of magnitude at least one cannot grow the
/// magnitude.
pub proof fn lemma_fdiv_shrink(x: int, e: int)
    requires
        e >= 1,
    ensures
        x >= 0 ==> 0 <= fdiv(x, e) <= x,
        x <= 0 ==> x <= fdiv(x, e) <= 0,
{
    lemma_fdiv_bounds(x, e);
    assert((x >= 0 ==> 0 <= fdiv(x, e) <= x) && (x <= 0 ==> x <= fdiv(x, e) <= 0))
        by (nonlinear_arith)
        requires
            e >= 1,
            fdiv(x, e) * e <= x < (fdiv(x, e) + 1) * e,
    ;
}

/// A fixed-point quotient of a bounded numerator stays within the
/// numerator bound times `SCALE`.
pub proof fn lemma_fxdiv_bound(a: int, b: int, m: int)
    requires
        b != 0,
        m >= 0,
        -m <= a <= m,
    ensures
        -(m * SCALE) <= fxdiv(a, b) <= m * SCALE,
{
    let e = if b > 0 {
        b
    } else {
        -b
    };
    let x = if b > 0 {
        a * SCALE as int
    } else {
        -(a * SCALE as int)
    };
    assert(fxdiv(a, b) == fdiv(x, e) && -(m * SCALE as int) <= x <= m * SCALE as int)
        by (nonlinear_arith)
        requires
            b != 0,
            m >= 0,
            -m <= a <= m,
            e == if b > 0 { b } else { -b },
            x == if b > 0 { a * SCALE as int } else { -(a * SCALE as int) },
            fxdiv(a, b) == if b > 0 { (a * SCALE as int) / b } else { (-(a * SCALE as int)) / (-b) },
            SCALE == 1_000_000i64,
    ;
    lemma_fdiv_shrink(x, e);
}

/// A fixed-point quotient whose numerator is no larger in magnitude than
/// its denominator lies within one unit of zero.
pub proof fn lemma_ratio_unit(c: int, d: int)
    requires
        d != 0,
        -(if d >= 0 { d } else { -d }) <= c <= (if d >= 0 { d } else { -d }),
    ensures
        -SCALE as int <= fxdiv(c, d) <= SCALE as int,
{
    let e = if d > 0 {
        d
    } else {
        -d
    };
    let x = if d > 0 {
        c * SCALE as int
    } else {
        -(c * SCALE as int)
    };
    lemma_fdiv_bounds(x, e);
    assert(-SCALE as int <= fdiv(x, e) <= SCALE as int && fxdiv(c, d) == fdiv(x, e))
        by (nonlinear_arith)
        requires
            d != 0,
            -(if d >= 0 { d } else { -d }) <= c <= (if d >= 0 { d } else { -d }),
            e == if d > 0 { d } else { -d },
            x == if d > 0 { c * SCALE as int } else { -(c * SCALE as int) },
            fxdiv(c, d) == if d > 0 { (c * SCALE as int) / d } else { (-(c * SCALE as int)) / (-d) },
            fdiv(x, e) * e <= x < (fdiv(x, e) + 1) * e,
            SCALE == 1_000_000i64,
    ;
}

/// Scaling by a fraction of a unit interpolates between zero and the
/// scaled value.
pub proof fn lemma_interp_bound(t: int, d: int)
    requires
        0 <= t <= SCALE as int,
    ensures
        d >= 0 ==> 0 <= fxmul(t, d) <= d,
        d < 0 ==> d <= fxmul(t, d) <= 0,
{
    if d >= 0 {
        assert(0 <= t * d <= d * SCALE as int) by (nonlinear_arith)
            requires
                0 <= t <= SCALE as int,
                d >= 0,
        ;
        lemma_fdiv_mono(0, t * d, SCALE as int);
        lemma_fdiv_mono(t * d, d * SCALE as int, SCALE as int);
        lemma_fdiv_multiple(d, SCALE as int);
        assert(fdiv(0int, SCALE as int) == 0);
    } else {
        assert(d * SCALE as int <= t * d <= 0) by (nonlinear_arith)
            requires
                0 <= t <= SCALE as int,
                d < 0,
        ;
        lemma_fdiv_mono(t * d, 0, SCALE as int);
        lemma_fdiv_mono(d * SCALE as int, t * d, SCALE as int);
        lemma_fdiv_multiple(d, SCALE as int);
        assert(fdiv(0int, SCALE as int) == 0);
    }
}

/// The smaller of two values.
pub fn imin(a: i64, b: i64) -> (r: i64)
    ensures
        r == if a as int <= b as int { a as int } else { b as int },
{
    if a <= b {
        a
    } else {
        b
    }
}

/// The larger of two values.
pub fn imax(a: i64, b: i64) -> (r: i64)
    ensures
        r == if a as int >= b as int { a as int } else { b as int },
{
    if a >= b {
        a
    } else {
        b
    }
}

} // verus!
