//! Three-component vectors over fixed-point scalars, used for positions,
//! directions and colors.
//!
//! The mathematical model of a vector is [`V3`], a triple of unbounded
//! integers; every executable operation is specified exactly against the
//! corresponding [`V3`] operation.

use vstd::prelude::*;
use crate::fx::{
    fdiv, fxmul, fxdiv, sqrt_floor, sqrt_floor_int, fx_mul, fx_div, isqrt_i128, floor_div_i128,
    lemma_fdiv_mono, lemma_fdiv_bounds, lemma_fdiv_ge, lemma_sqrt_floor_bounds, SCALE,
};
use crate::rng::{random_fraction, random_range_fx};

verus! {

/// Coordinates of well-formed geometry stay within this many fixed-point
/// units (four thousand world units), which keeps every intermediate
/// product of the intersection arithmetic inside an `i128`.
pub const COORD_MAX: i64 = 4_000_000_000;

/// The mathematical value of a vector: three unbounded integers, each the
/// fixed-point encoding of one real component.
pub ghost struct V3 {
    pub x: int,
    pub y: int,
    pub z: int,
}

impl V3 {
    /// Componentwise sum.
    pub open spec fn add(self, o: V3) -> V3 {
        V3 { x: self.x + o.x, y: self.y + o.y, z: self.z + o.z }
    }

    /// Componentwise difference.
    pub open spec fn sub(self, o: V3) -> V3 {
        V3 { x: self.x - o.x, y: self.y - o.y, z: self.z - o.z }
    }

    /// Componentwise negation.
    pub open spec fn neg(self) -> V3 {
        V3 { x: -self.x, y: -self.y, z: -self.z }
    }

    /// The vector scaled by a fixed-point factor.
    pub open spec fn smul(self, k: int) -> V3 {
        V3 { x: fxmul(k, self.x), y: fxmul(k, self.y), z: fxmul(k, self.z) }
    }

    /// Componentwise fixed-point product (used for color attenuation).
    pub open spec fn cmul(self, o: V3) -> V3 {
        V3 { x: fxmul(self.x, o.x), y: fxmul(self.y, o.y), z: fxmul(self.z, o.z) }
    }

    /// The vector divided by a fixed-point scalar.
    pub open spec fn sdiv(self, k: int) -> V3
        recommends
            k != 0,
    {
        V3 { x: fxdiv(self.x, k), y: fxdiv(self.y, k), z: fxdiv(self.z, k) }
    }

    /// The raw (unscaled) inner product; `dot` divides it by `SCALE`.
    pub open spec fn dot_raw(self, o: V3) -> int {
        self.x * o.x + self.y * o.y + self.z * o.z
    }

    /// Fixed-point inner product.
    pub open spec fn dot(self, o: V3) -> int {
        fdiv(self.dot_raw(o), SCALE as int)
    }

    /// Fixed-point cross product.
    pub open spec fn cross(self, o: V3) -> V3 {
        V3 {
            x: fxmul(self.y, o.z) - fxmul(self.z, o.y),
            y: fxmul(self.z, o.x) - fxmul(self.x, o.z),
            z: fxmul(self.x, o.y) - fxmul(self.y, o.x),
        }
    }

    /// Squared length as a fixed-point value.
    pub open spec fn len2(self) -> int {
        self.dot(self)
    }

    /// Length as a fixed-point value: the square root of the raw squared
    /// length, which already carries one factor of `SCALE * SCALE`.
    pub open spec fn len(self) -> int {
        sqrt_floor_int(self.dot_raw(self))
    }

    /// The vector scaled to (approximately) unit length.
    pub open spec fn unit(self) -> V3
        recommends
            self.len() > 0,
    {
        self.sdiv(self.len())
    }

    /// Mirror reflection about a normal: `v - 2 (v . n) n`.
    pub open spec fn reflect(self, n: V3) -> V3 {
        self.sub(n.smul(2 * self.dot(n)))
    }

    /// All components within `b` of zero.
    pub open spec fn bounded(self, b: int) -> bool {
        -b <= self.x <= b && -b <= self.y <= b && -b <= self.z <= b
    }

    /// Well-formed geometry: components within the world bound.
    pub open spec fn wf(self) -> bool {
        self.bounded(COORD_MAX as int)
    }

    /// The zero vector.
    pub open spec fn zero() -> V3 {
        V3 { x: 0, y: 0, z: 0 }
    }

    /// A vector of (approximately) unit length: components within one
    /// unit, squared length within two millesimals of one.
    pub open spec fn near_unit(self) -> bool {
        &&& self.bounded(SCALE as int)
        &&& SCALE - 2_000 <= self.len2() <= SCALE + 2_000
    }
}

/// Refraction by Snell's law; mirrors the executable computation exactly:
/// `cos = -min(uv . n, 1)`, perpendicular part `eta (uv + cos n)`,
/// parallel part `-sqrt(|1 - |perp|^2|) n`.
pub open spec fn spec_refract(uv: V3, n: V3, etai_over_etat: int) -> V3 {
    let d = uv.dot(n);
    let cos_theta = -(if d <= SCALE as int {
        d
    } else {
        SCALE as int
    });
    let r_out_perp = uv.add(n.smul(cos_theta)).smul(etai_over_etat);
    let k = SCALE as int - r_out_perp.len2();
    let absk = if k >= 0 {
        k
    } else {
        -k
    };
    let sq = sqrt_floor_int(absk * SCALE as int);
    r_out_perp.add(n.smul(sq).neg())
}

/// A vector, point or color; each component is a fixed-point scalar.
#[derive(Clone, Copy, PartialEq, Eq, Structural, Debug)]
pub struct Vec3 {
    pub x: i64,
    pub y: i64,
    pub z: i64,
}

/// Points share the vector representation.
pub type Point3 = Vec3;

/// Colors share the vector representation.
pub type Color = Vec3;

impl View for Vec3 {
    type V = V3;

    open spec fn view(&self) -> V3 {
        V3 { x: self.x as int, y: self.y as int, z: self.z as int }
    }
}

impl Vec3 {
    pub fn new(e1: i64, e2: i64, e3: i64) -> (r: Self)
        ensures
            r@ == (V3 { x: e1 as int, y: e2 as int, z: e3 as int }),
    {
        Self { x: e1, y: e2, z: e3 }
    }

    pub fn x(self) -> (r: i64)
        ensures
            r == self@.x,
    {
        self.x
    }

    pub fn y(self) -> (r: i64)
        ensures
            r == self@.y,
    {
        self.y
    }

    pub fn z(self) -> (r: i64)
        ensures
            r == self@.z,
    {
        self.z
    }

    /// Componentwise sum.
    pub fn add(self, rhs: Self) -> (r: Self)
        requires
            i64::MIN <= self@.x + rhs@.x <= i64::MAX,
            i64::MIN <= self@.y + rhs@.y <= i64::MAX,
            i64::MIN <= self@.z + rhs@.z <= i64::MAX,
        ensures
            r@ == self@.add(rhs@),
    {
        Self { x: self.x + rhs.x, y: self.y + rhs.y, z: self.z + rhs.z }
    }

    /// Componentwise difference.
    pub fn sub(self, rhs: Self) -> (r: Self)
        requires
            i64::MIN <= self@.x - rhs@.x <= i64::MAX,
            i64::MIN <= self@.y - rhs@.y <= i64::MAX,
            i64::MIN <= self@.z - rhs@.z <= i64::MAX,
        ensures
            r@ == self@.sub(rhs@),
    {
        Self { x: self.x - rhs.x, y: self.y - rhs.y, z: self.z - rhs.z }
    }

    /// Componentwise negation.
    pub fn neg(self) -> (r: Self)
        requires
            self@.x > i64::MIN,
            self@.y > i64::MIN,
            self@.z > i64::MIN,
        ensures
            r@ == self@.neg(),
    {
        Self { x: -self.x, y: -self.y, z: -self.z }
    }

    /// The vector scaled by a fixed-point factor.
    pub fn scale(self, k: i64) -> (r: Self)
        requires
            i64::MIN <= fxmul(k as int, self@.x) <= i64::MAX,
            i64::MIN <= fxmul(k as int, self@.y) <= i64::MAX,
            i64::MIN <= fxmul(k as int, self@.z) <= i64::MAX,
        ensures
            r@ == self@.smul(k as int),
    {
        Self { x: fx_mul(k, self.x), y: fx_mul(k, self.y), z: fx_mul(k, self.z) }
    }

    /// Componentwise fixed-point product.
    pub fn mul(self, rhs: Self) -> (r: Self)
        requires
            i64::MIN <= fxmul(self@.x, rhs@.x) <= i64::MAX,
            i64::MIN <= fxmul(self@.y, rhs@.y) <= i64::MAX,
            i64::MIN <= fxmul(self@.z, rhs@.z) <= i64::MAX,
        ensures
            r@ == self@.cmul(rhs@),
    {
        Self { x: fx_mul(self.x, rhs.x), y: fx_mul(self.y, rhs.y), z: fx_mul(self.z, rhs.z) }
    }

    /// The vector divided by a fixed-point scalar.
    pub fn div(self, k: i64) -> (r: Self)
        requires
            k != 0,
            i64::MIN <= fxdiv(self@.x, k as int) <= i64::MAX,
            i64::MIN <= fxdiv(self@.y, k as int) <= i64::MAX,
            i64::MIN <= fxdiv(self@.z, k as int) <= i64::MAX,
        ensures
            r@ == self@.sdiv(k as int),
    {
        Self { x: fx_div(self.x, k), y: fx_div(self.y, k), z: fx_div(self.z, k) }
    }

    /// Fixed-point inner product.
    pub fn dot(self, v: Vec3) -> (r: i64)
        requires
            self@.bounded(8 * COORD_MAX as int),
            v@.bounded(8 * COORD_MAX as int),
        ensures
            r == self@.dot(v@),
    {
        proof {
            lemma_dot_bounded(self@, v@, 32_000_000_000, 3_072_000_000_000_000_000_000);
        }
        let raw = dot_raw_wide(self, v);
        let q = floor_div_i128(raw, SCALE as i128);
        q as i64
    }

    /// Fixed-point cross product.
    pub fn cross(self, v: Vec3) -> (r: Self)
        requires
            self@.bounded(32_000_000_000),
            v@.bounded(32_000_000_000),
        ensures
            r@ == self@.cross(v@),
    {
        proof {
            lemma_smul_bounded(v@, self@.x, 32_000_000_000, 32_000_000_000, 1_024_000_000_000_000_000_000);
            lemma_smul_bounded(v@, self@.y, 32_000_000_000, 32_000_000_000, 1_024_000_000_000_000_000_000);
            lemma_smul_bounded(v@, self@.z, 32_000_000_000, 32_000_000_000, 1_024_000_000_000_000_000_000);
            lemma_smul_bounded(self@, v@.x, 32_000_000_000, 32_000_000_000, 1_024_000_000_000_000_000_000);
            lemma_smul_bounded(self@, v@.y, 32_000_000_000, 32_000_000_000, 1_024_000_000_000_000_000_000);
            lemma_smul_bounded(self@, v@.z, 32_000_000_000, 32_000_000_000, 1_024_000_000_000_000_000_000);
        }
        Self {
            x: fx_mul(self.y, v.z) - fx_mul(self.z, v.y),
            y: fx_mul(self.z, v.x) - fx_mul(self.x, v.z),
            z: fx_mul(self.x, v.y) - fx_mul(self.y, v.x),
        }
    }

    /// Squared length as a fixed-point value.
    pub fn length_squared(self) -> (r: i64)
        requires
            self@.bounded(8 * COORD_MAX as int),
        ensures
            r == self@.len2(),
            r >= 0,
    {
        proof {
            let ghost raw = self@.dot_raw(self@);
            assert(raw >= 0) by (nonlinear_arith)
                requires
                    raw == self@.x * self@.x + self@.y * self@.y + self@.z * self@.z,
            ;
            lemma_fdiv_ge(raw, SCALE as int, 0);
        }
        self.dot(self)
    }

    /// Length as a fixed-point value.
    pub fn length(self) -> (r: i64)
        requires
            self@.bounded(64_000_000_000_000),
        ensures
            r == self@.len(),
            r >= 0,
    {
        let raw = dot_raw_wide(self, self);
        proof {
            assert(raw >= 0) by (nonlinear_arith)
                requires
                    raw == (self.x as int) * (self.x as int) + (self.y as int) * (self.y as int) + (
                    self.z as int) * (self.z as int),
            ;
        }
        let r = isqrt_i128(raw);
        proof {
            assert(r <= 120_000_000_000_000) by (nonlinear_arith)
                requires
                    r >= 0,
                    (r as int) * (r as int) <= raw as int,
                    raw as int == (self.x as int) * (self.x as int) + (self.y as int) * (self.y
                        as int) + (self.z as int) * (self.z as int),
                    -64_000_000_000_000 <= self.x as int <= 64_000_000_000_000,
                    -64_000_000_000_000 <= self.y as int <= 64_000_000_000_000,
                    -64_000_000_000_000 <= self.z as int <= 64_000_000_000_000,
            ;
        }
        r as i64
    }

    /// True exactly when every component rounds to zero at fixed-point
    /// resolution; the degenerate-direction guard.
    pub fn near_zero(self) -> (r: bool)
        ensures
            r == (self@ == V3::zero()),
    {
        self.x == 0 && self.y == 0 && self.z == 0
    }

    /// The vector scaled to (approximately) unit length.  Every component
    /// of the result lies in `[-SCALE, SCALE]`.
    ///
    /// The contract pins the exact floored quotient but claims no norm:
    /// none holds at the grid floor, where a vector one unit long on two
    /// axes "normalizes" to squared length two.  For world-scale inputs
    /// the squared length lands within a few grid units of one, and
    /// callers that need a guaranteed band sample through
    /// `random_unit_vector`, which checks it.
    pub fn unit_vector(self) -> (r: Self)
        requires
            self@.bounded(64_000_000_000_000),
            self@.len() > 0,
        ensures
            r@ == self@.unit(),
            r@.bounded(SCALE as int),
    {
        let len = self.length();
        proof {
            lemma_unit_component_bounded(self@);
        }
        self.div(len)
    }

    /// Mirror reflection of `v` about the normal `n`.
    pub fn reflect(v: Vec3, n: Vec3) -> (r: Vec3)
        requires
            v@.bounded(4 * SCALE as int),
            n@.bounded(4 * SCALE as int),
        ensures
            r@ == v@.reflect(n@),
            r@.bounded(500 * SCALE as int),
    {
        proof {
            lemma_dot_bounded(v@, n@, 4_000_000, 48_000_000_000_000);
        }
        let d = v.dot(n);
        proof {
            lemma_smul_bounded(n@, 2 * d as int, 100_000_000, 4_000_000, 400_000_000_000_000);
        }
        v.sub(n.scale(2 * d))
    }

    /// Refraction of the unit direction `uv` about the normal `n` with
    /// relative index `etai_over_etat`.
    pub fn refract(uv: Vec3, n: Vec3, etai_over_etat: i64) -> (r: Vec3)
        requires
            uv@.bounded(4 * SCALE as int),
            n@.bounded(4 * SCALE as int),
            0 <= etai_over_etat <= 4 * SCALE as int,
        ensures
            r@ == spec_refract(uv@, n@, etai_over_etat as int),
    {
        proof {
            lemma_dot_bounded(uv@, n@, 4_000_000, 48_000_000_000_000);
        }
        let d = uv.dot(n);
        let cos_theta = -(if d <= SCALE {
            d
        } else {
            SCALE
        });
        proof {
            lemma_smul_bounded(n@, cos_theta as int, 50_000_000, 4_000_000, 200_000_000_000_000);
        }
        let shifted = uv.add(n.scale(cos_theta));
        proof {
            lemma_smul_bounded(shifted@, etai_over_etat as int, 4_000_000, 210_000_000, 840_000_000_000_000);
        }
        let r_out_perp = shifted.scale(etai_over_etat);
        proof {
            lemma_dot_bounded(r_out_perp@, r_out_perp@, 841_000_000, 2_121_843_000_000_000_000);
        }
        let ls = r_out_perp.length_squared();
        let k: i64 = SCALE - ls;
        let absk: i64 = if k >= 0 {
            k
        } else {
            -k
        };
        let sq128 = isqrt_i128((absk as i128) * (SCALE as i128));
        proof {
            assert(sq128 <= 3_000_000 * SCALE as int) by (nonlinear_arith)
                requires
                    sq128 >= 0,
                    sq128 * sq128 <= (absk as int) * (SCALE as int),
                    0 <= absk as int <= 3 * 841 * 841 * SCALE as int + 2 * SCALE as int,
                    SCALE == 1_000_000i64,
            ;
        }
        let sq = sq128 as i64;
        proof {
            lemma_smul_bounded(n@, sq as int, 3_000_000_000_000, 4_000_000, 12_000_000_000_000_000_000);
        }
        let r_out_parallel = n.scale(sq).neg();
        r_out_perp.add(r_out_parallel)
    }

    /// A vector whose components are uniform in `[0, 1)`.
    pub fn random() -> (r: Self)
        ensures
            0 <= r@.x < SCALE as int,
            0 <= r@.y < SCALE as int,
            0 <= r@.z < SCALE as int,
    {
        Self { x: random_fraction(), y: random_fraction(), z: random_fraction() }
    }

    /// A vector whose components are uniform in `[min, max)`.
    pub fn random_range(min: i64, max: i64) -> (r: Self)
        requires
            min < max,
        ensures
            min <= r@.x < max,
            min <= r@.y < max,
            min <= r@.z < max,
    {
        Self {
            x: random_range_fx(min, max),
            y: random_range_fx(min, max),
            z: random_range_fx(min, max),
        }
    }

    /// Rejection-samples a nonzero vector strictly inside the unit ball.
    /// The retry budget is large enough that it is never exhausted in
    /// practice; if it were, the sample degrades to a fixed interior point.
    pub fn random_in_unit_sphere() -> (r: Vec3)
        ensures
            r@.bounded(SCALE as int),
            0 < r@.len2() < SCALE as int,
    {
        let mut tries: u32 = 0;
        while tries < 1024
            invariant
                true,
            decreases 1024 - tries,
        {
            let p = Vec3::random_range(-SCALE, SCALE);
            proof {
                lemma_dot_bounded(p@, p@, 1_000_000, 3_000_000_000_000);
            }
            let ls = p.length_squared();
            if 0 < ls && ls < SCALE {
                return p;
            }
            tries = tries + 1;
        }
        let fallback = Vec3::new(SCALE / 2, 0, 0);
        proof {
            lemma_fdiv_bounds((SCALE as int / 2) * (SCALE as int / 2), SCALE as int);
            lemma_fdiv_bounds(SCALE as int, 2);
        }
        fallback
    }

    /// Rejection-samples a vector of (approximately) unit length: a
    /// normalized ball sample whose squared length is checked to sit
    /// within the unit band, falling back to an exact axis unit if the
    /// band check keeps failing.
    pub fn random_unit_vector() -> (r: Vec3)
        ensures
            r@.near_unit(),
    {
        let mut tries: u32 = 0;
        while tries < 1024
            invariant
                true,
            decreases 1024 - tries,
        {
            let p = Vec3::random_in_unit_sphere();
            proof {
                lemma_len2_pos_implies_len_pos(p@);
            }
            let u = p.unit_vector();
            let ls = u.length_squared();
            if SCALE - 2_000 <= ls && ls <= SCALE + 2_000 {
                return u;
            }
            tries = tries + 1;
        }
        let fallback = Vec3::new(SCALE, 0, 0);
        proof {
            crate::fx::lemma_fdiv_multiple(SCALE as int, SCALE as int);
            assert(fallback@.dot_raw(fallback@) == SCALE as int * SCALE as int)
                by (nonlinear_arith)
                requires
                    fallback@ == (V3 { x: SCALE as int, y: 0, z: 0 }),
                    SCALE == 1_000_000i64,
            ;
        }
        fallback
    }

    /// A unit-length sample on the hemisphere around `normal`.
    pub fn random_on_hemisphere(normal: Vec3) -> (r: Vec3)
        requires
            normal@.bounded(4 * COORD_MAX as int),
        ensures
            r@.near_unit(),
    {
        let on_unit_sphere = Vec3::random_unit_vector();
        proof {
            let v = on_unit_sphere@;
            assert(v.neg().dot_raw(v.neg()) == v.dot_raw(v)) by (nonlinear_arith);
        }
        if on_unit_sphere.dot(normal) > 0 {
            on_unit_sphere
        } else {
            on_unit_sphere.neg()
        }
    }
}

/// The raw inner product, in 128-bit arithmetic.
fn dot_raw_wide(u: Vec3, v: Vec3) -> (r: i128)
    requires
        u@.bounded(64_000_000_000_000),
        v@.bounded(64_000_000_000_000),
    ensures
        r == u@.dot_raw(v@),
{
    proof {
        assert(-4_096_000_000_000_000_000_000_000_000 <= (u.x as int) * (v.x as int)
            <= 4_096_000_000_000_000_000_000_000_000
            && -4_096_000_000_000_000_000_000_000_000 <= (u.y as int) * (v.y as int)
            <= 4_096_000_000_000_000_000_000_000_000
            && -4_096_000_000_000_000_000_000_000_000 <= (u.z as int) * (v.z as int)
            <= 4_096_000_000_000_000_000_000_000_000)
            by (nonlinear_arith)
            requires
                -64_000_000_000_000 <= u.x as int <= 64_000_000_000_000,
                -64_000_000_000_000 <= u.y as int <= 64_000_000_000_000,
                -64_000_000_000_000 <= u.z as int <= 64_000_000_000_000,
                -64_000_000_000_000 <= v.x as int <= 64_000_000_000_000,
                -64_000_000_000_000 <= v.y as int <= 64_000_000_000_000,
                -64_000_000_000_000 <= v.z as int <= 64_000_000_000_000,
        ;
    }
    (u.x as i128) * (v.x as i128) + (u.y as i128) * (v.y as i128) + (u.z as i128) * (v.z as i128)
}

/// A dot product of vectors bounded by `b` is bounded by `m / SCALE`
/// (plus one for flooring), where `m` is three times the square of `b`.
pub proof fn lemma_dot_bounded(a: V3, o: V3, b: int, m: int)
    requires
        b >= 0,
        m == 3 * b * b,
        a.bounded(b),
        o.bounded(b),
    ensures
        -m <= a.dot_raw(o) <= m,
        -(fdiv(m, SCALE as int) + 1) <= a.dot(o) <= fdiv(m, SCALE as int),
        fdiv(m, SCALE as int) >= 0,
{
    assert(-m <= a.dot_raw(o) <= m) by (nonlinear_arith)
        requires
            b >= 0,
            a.bounded(b),
            o.bounded(b),
            m == 3 * b * b,
    ;
    lemma_fdiv_mono(a.dot_raw(o), m, SCALE as int);
    lemma_fdiv_mono(-m, a.dot_raw(o), SCALE as int);
    lemma_fdiv_bounds(m, SCALE as int);
    lemma_fdiv_bounds(-m, SCALE as int);
    assert(m >= 0) by (nonlinear_arith)
        requires
            b >= 0,
            m == 3 * b * b,
    ;
    assert(fdiv(m, SCALE as int) >= 0 && fdiv(-m, SCALE as int) >= -(fdiv(m, SCALE as int)) - 1)
        by (nonlinear_arith)
        requires
            m >= 0,
            fdiv(m, SCALE as int) * SCALE as int <= m < (fdiv(m, SCALE as int) + 1) * SCALE as int,
            fdiv(-m, SCALE as int) * SCALE as int <= -m < (fdiv(-m, SCALE as int) + 1) * SCALE
                as int,
            SCALE == 1_000_000i64,
    ;
}

/// Scaling a vector bounded by `vb` by a factor bounded by `kb` keeps each
/// component within `m / SCALE + 1`, where `m` is the product of the two
/// bounds.
pub proof fn lemma_smul_bounded(v: V3, k: int, kb: int, vb: int, m: int)
    requires
        kb >= 0,
        vb >= 0,
        m == kb * vb,
        -kb <= k <= kb,
        v.bounded(vb),
    ensures
        v.smul(k).bounded(fdiv(m, SCALE as int) + 1),
{
    assert(-m <= k * v.x <= m && -m <= k * v.y <= m && -m <= k * v.z <= m) by (nonlinear_arith)
        requires
            kb >= 0,
            vb >= 0,
            -kb <= k <= kb,
            v.bounded(vb),
            m == kb * vb,
    ;
    lemma_smul_one(k * v.x, m);
    lemma_smul_one(k * v.y, m);
    lemma_smul_one(k * v.z, m);
}

/// One component of the scaling bound.
proof fn lemma_smul_one(p: int, m: int)
    requires
        m >= 0,
        -m <= p <= m,
    ensures
        -(fdiv(m, SCALE as int) + 1) <= fdiv(p, SCALE as int) <= fdiv(m, SCALE as int) + 1,
{
    lemma_fdiv_mono(p, m, SCALE as int);
    lemma_fdiv_mono(-m, p, SCALE as int);
    lemma_fdiv_bounds(m, SCALE as int);
    lemma_fdiv_bounds(-m, SCALE as int);
    assert(fdiv(-m, SCALE as int) >= -(fdiv(m, SCALE as int)) - 1) by (nonlinear_arith)
        requires
            m >= 0,
            fdiv(m, SCALE as int) * SCALE as int <= m < (fdiv(m, SCALE as int) + 1) * SCALE as int,
            fdiv(-m, SCALE as int) * SCALE as int <= -m < (fdiv(-m, SCALE as int) + 1) * SCALE
                as int,
            SCALE == 1_000_000i64,
    ;
}

/// Each component of a normalized vector lies in `[-SCALE, SCALE]`.
pub proof fn lemma_unit_component_bounded(v: V3)
    requires
        v.len() > 0,
    ensures
        v.unit() == v.sdiv(v.len()),
        v.unit().bounded(SCALE as int),
{
    let raw = v.dot_raw(v);
    assert(raw >= 0 && v.x * v.x <= raw && v.y * v.y <= raw && v.z * v.z <= raw)
        by (nonlinear_arith)
        requires
            raw == v.x * v.x + v.y * v.y + v.z * v.z,
    ;
    let l = v.len();
    lemma_sqrt_floor_bounds(raw as nat);
    lemma_unit_one_component(v.x, l, raw);
    lemma_unit_one_component(v.y, l, raw);
    lemma_unit_one_component(v.z, l, raw);
}

/// One component of the normalization bound: if `c^2 <= raw < (l + 1)^2`
/// then the floored quotient `c * SCALE / l` lies in `[-SCALE, SCALE]`.
proof fn lemma_unit_one_component(c: int, l: int, raw: int)
    requires
        l > 0,
        c * c <= raw,
        l * l <= raw < (l + 1) * (l + 1),
    ensures
        -SCALE as int <= fxdiv(c, l) <= SCALE as int,
{
    assert(-(l + 1) < c < l + 1) by (nonlinear_arith)
        requires
            l > 0,
            c * c <= raw,
            raw < (l + 1) * (l + 1),
    ;
    lemma_fdiv_bounds(c * SCALE as int, l);
    assert(-SCALE as int <= fdiv(c * SCALE as int, l) <= SCALE as int) by (nonlinear_arith)
        requires
            l > 0,
            -l <= c <= l,
            fdiv(c * SCALE as int, l) * l <= c * (SCALE as int) < (fdiv(c * SCALE as int, l) + 1) * l,
            SCALE == 1_000_000i64,
    ;
}

/// A positive fixed-point squared length implies a positive length.
pub proof fn lemma_len2_pos_implies_len_pos(v: V3)
    requires
        v.len2() > 0,
    ensures
        v.len() > 0,
{
    let raw = v.dot_raw(v);
    assert(raw >= 0) by (nonlinear_arith)
        requires
            raw == v.x * v.x + v.y * v.y + v.z * v.z,
    ;
    lemma_fdiv_ge(raw, SCALE as int, 1);
    lemma_sqrt_floor_bounds(raw as nat);
    assert(sqrt_floor(raw as nat) > 0) by (nonlinear_arith)
        requires
            raw >= SCALE as int,
            SCALE == 1_000_000i64,
            sqrt_floor(raw as nat) * sqrt_floor(raw as nat) <= (raw as nat) < (sqrt_floor(
                raw as nat,
            ) + 1) * (sqrt_floor(raw as nat) + 1),
    ;
}


/// A nonzero bounded vector has a positive length.
pub proof fn lemma_nonzero_len(v: V3)
    requires
        v != (V3 { x: 0, y: 0, z: 0 }),
    ensures
        v.len() > 0,
{
    let raw = v.dot_raw(v);
    assert(raw >= 1) by (nonlinear_arith)
        requires
            raw == v.x * v.x + v.y * v.y + v.z * v.z,
            !(v.x == 0 && v.y == 0 && v.z == 0),
    ;
    lemma_sqrt_floor_bounds(raw as nat);
    assert(sqrt_floor(raw as nat) > 0) by (nonlinear_arith)
        requires
            raw >= 1,
            sqrt_floor(raw as nat) * sqrt_floor(raw as nat) <= (raw as nat) < (sqrt_floor(
                raw as nat,
            ) + 1) * (sqrt_floor(raw as nat) + 1),
    ;
}

} // verus!
