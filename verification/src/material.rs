//! Scattering models: diffuse, reflective with fuzz, dielectric with
//! refraction, and a light-emitting surface that absorbs incoming rays.

use vstd::prelude::*;
use crate::fx::{
    fxmul, fxdiv, sqrt_floor_int, fx_mul, fx_div, isqrt_i128, lemma_fxmul_range, lemma_fdiv_bounds,
    SCALE,
};
use crate::hittable::{HitR, HitRecord};
use crate::ray::{Ray, R3};
use crate::rng::random_fraction;
use crate::texture::{SolidColor, Texture, spec_texture_value};
use crate::vec3::{Color, Vec3, V3, COORD_MAX, spec_refract};

verus! {

/// A scattering model.  Materials are immutable after construction and
/// addressed by index from the primitives.
pub enum Material {
    Lambertian(Lambertian),
    Metal(Metal),
    Dielectric(Dielectric),
    DiffuseLight(DiffuseLight),
}

/// Diffuse scattering: the new direction is the surface normal plus a
/// random unit vector, with the texture's color as attenuation.
pub struct Lambertian {
    pub albedo: Texture,
}

/// Mirror reflection with a fuzz perturbation; constant albedo.
pub struct Metal {
    pub albedo: Color,
    pub fuzz: i64,
}

/// Refraction with total internal reflection and Schlick reflectance.
pub struct Dielectric {
    pub ir: i64,
}

/// An emissive panel as scene data.  The estimator here carries no
/// emission term, so these surfaces absorb the rays that reach them; the
/// color is kept for renderers that add one.
pub struct DiffuseLight {
    pub emit: Color,
}

impl Material {
    /// Valid materials: textures well-formed, fuzz within a unit, the
    /// refractive index within the physically sensible band.
    pub open spec fn wf(self) -> bool {
        match self {
            Material::Lambertian(l) => l.albedo.wf(),
            Material::Metal(m) => 0 <= m.fuzz <= SCALE,
            Material::Dielectric(d) => SCALE as int / 4 <= d.ir <= 4 * SCALE as int,
            Material::DiffuseLight(dl) => true,
        }
    }

    /// Scatters an incoming ray at a hit: fills the attenuation and the
    /// scattered ray and reports whether the ray continues.  The exact
    /// outcome of the random perturbations is existentially quantified;
    /// everything else is pinned down.
    pub fn scatter(
        &self,
        r_in: &Ray,
        rec: &HitRecord,
        attenuation: &mut Color,
        scattered: &mut Ray,
    ) -> (b: bool)
        requires
            self.wf(),
            r_in@.dir.bounded(COORD_MAX as int),
            rec@.p.bounded(4 * COORD_MAX as int),
            rec@.normal.bounded(4 * SCALE as int),
        ensures
            spec_scatter_post(*self, r_in@, rec@, b, final(attenuation)@, final(scattered)@),
    {
        match self {
            Material::Lambertian(l) => {
                let rv = Vec3::random_unit_vector();
                let sum = rec.normal.add(rv);
                let scatter_direction = if sum.near_zero() {
                    rec.normal
                } else {
                    sum
                };
                *scattered = Ray::new_with_time(rec.p, scatter_direction, r_in.time());
                *attenuation = l.albedo.value(rec.u, rec.v, rec.p);
                true
            },
            Material::Metal(m) => {
                if r_in.direction().near_zero() {
                    return false;
                }
                proof {
                    lemma_dir_unit_ok(r_in@.dir);
                }
                let reflected = Vec3::reflect(r_in.direction().unit_vector(), rec.normal);
                let rv = Vec3::random_unit_vector();
                proof {
                    crate::vec3::lemma_smul_bounded(
                        rv@,
                        m.fuzz as int,
                        1_000_000,
                        1_000_000,
                        1_000_000_000_000,
                    );
                }
                let fuzzed = reflected.add(rv.scale(m.fuzz));
                *scattered = Ray::new_with_time(rec.p, fuzzed, r_in.time());
                *attenuation = m.albedo;
                true
            },
            Material::Dielectric(d) => {
                *attenuation = Vec3::new(SCALE, SCALE, SCALE);
                let refraction_ratio = if rec.front_face {
                    proof {
                        lemma_ratio_range(d.ir as int);
                    }
                    fx_div(SCALE, d.ir)
                } else {
                    d.ir
                };
                if r_in.direction().near_zero() {
                    return false;
                }
                proof {
                    lemma_dir_unit_ok(r_in@.dir);
                }
                let unit_direction = r_in.direction().unit_vector();
                let draw = random_fraction();
                let direction = dielectric_direction(
                    unit_direction,
                    rec.normal,
                    refraction_ratio,
                    draw,
                );
                proof {
                    assert(refraction_ratio as int == spec_dielectric_ratio(
                        *d,
                        rec@.front_face,
                    ));
                    assert(direction@ == spec_dielectric_dir(
                        r_in@.dir.unit(),
                        rec@.normal,
                        spec_dielectric_ratio(*d, rec@.front_face),
                        draw as int,
                    ));
                }
                *scattered = Ray::new_with_time(rec.p, direction, r_in.time());
                true
            },
            Material::DiffuseLight(dl) => false,
        }
    }
}

/// What `scatter` promises for each material, with the random draws
/// existentially quantified; stated over the mathematical views so the
/// radiance estimator can quote it for hits of the scene graph.
pub open spec fn spec_scatter_post(
    m: Material,
    r_in: R3,
    rec: HitR,
    b: bool,
    attenuation: V3,
    scattered: R3,
) -> bool {
    match m {
        Material::Lambertian(l) => {
            &&& b == true
            &&& attenuation == spec_texture_value(l.albedo, rec.u, rec.v, rec.p)
            &&& scattered.orig == rec.p
            &&& scattered.time == r_in.time
            &&& exists|rv: V3|
                rv.near_unit() && scattered.dir == spec_lambertian_dir(rec.normal, rv)
        },
        Material::Metal(mm) => {
            if r_in.dir == (V3 { x: 0, y: 0, z: 0 }) {
                b == false
            } else {
                &&& b == true
                &&& attenuation == mm.albedo@
                &&& scattered.orig == rec.p
                &&& scattered.time == r_in.time
                &&& exists|rv: V3|
                    rv.near_unit() && scattered.dir == r_in.dir.unit().reflect(rec.normal).add(
                        rv.smul(mm.fuzz as int),
                    )
            }
        },
        Material::Dielectric(d) => {
            &&& attenuation == (V3 { x: SCALE as int, y: SCALE as int, z: SCALE as int })
            &&& if r_in.dir == (V3 { x: 0, y: 0, z: 0 }) {
                b == false
            } else {
                &&& b == true
                &&& scattered.orig == rec.p
                &&& scattered.time == r_in.time
                &&& exists|draw: int|
                    0 <= draw < SCALE as int && scattered.dir == #[trigger] spec_dielectric_dir(
                        r_in.dir.unit(),
                        rec.normal,
                        spec_dielectric_ratio(d, rec.front_face),
                        draw,
                    )
            }
        },
        Material::DiffuseLight(dl) => b == false,
    }
}

/// The refraction ratio a dielectric uses: the reciprocal index from the
/// front face, the index itself from the back.
pub open spec fn spec_dielectric_ratio(d: Dielectric, front_face: bool) -> int {
    if front_face {
        fxdiv(SCALE as int, d.ir as int)
    } else {
        d.ir as int
    }
}

/// The diffuse scatter direction: normal plus a unit sample, with the
/// degenerate sum replaced by the normal itself.
pub open spec fn spec_lambertian_dir(normal: V3, rv: V3) -> V3 {
    let sum = normal.add(rv);
    if sum == (V3 { x: 0, y: 0, z: 0 }) {
        normal
    } else {
        sum
    }
}

/// Schlick's reflectance approximation.
pub open spec fn spec_reflectance(cosine: int, ref_idx: int) -> int
    recommends
        ref_idx > -SCALE,
{
    let r0 = fxdiv(SCALE - ref_idx, SCALE + ref_idx);
    let r0sq = fxmul(r0, r0);
    r0sq + fxmul(SCALE - r0sq, pow5(SCALE - cosine))
}

/// The fifth power of a fixed-point value.
pub open spec fn pow5(x: int) -> int {
    fxmul(fxmul(fxmul(fxmul(x, x), x), x), x)
}

/// The dielectric's outgoing direction: total internal reflection when the
/// scaled sine exceeds one; otherwise reflection or refraction, chosen by
/// comparing the Schlick reflectance to the uniform draw.
pub open spec fn spec_dielectric_dir(unit_dir: V3, normal: V3, ratio: int, draw: int) -> V3 {
    let d = unit_dir.dot(normal);
    let cos_theta = -(if d <= SCALE as int {
        d
    } else {
        SCALE as int
    });
    let c2 = SCALE - fxmul(cos_theta, cos_theta);
    let c2c = if c2 >= 0 {
        c2
    } else {
        0
    };
    let sin_theta = sqrt_floor_int(c2c * SCALE);
    let cannot_refract = fxmul(ratio, sin_theta) > SCALE;
    if cannot_refract || spec_reflectance(cos_theta, ratio) > draw {
        unit_dir.reflect(normal)
    } else {
        spec_refract(unit_dir, normal, ratio)
    }
}

/// A sphere or quad never reports a zero direction for its incoming ray;
/// a well-formed nonzero direction has a positive length.
proof fn lemma_dir_unit_ok(d: V3)
    requires
        d.bounded(COORD_MAX as int),
        d != (V3 { x: 0, y: 0, z: 0 }),
    ensures
        d.len() > 0,
        d.bounded(64_000_000_000_000),
{
    let raw = d.dot_raw(d);
    assert(raw >= 1) by (nonlinear_arith)
        requires
            raw == d.x * d.x + d.y * d.y + d.z * d.z,
            !(d.x == 0 && d.y == 0 && d.z == 0),
    ;
    crate::fx::lemma_sqrt_floor_bounds(raw as nat);
    assert(crate::fx::sqrt_floor(raw as nat) > 0) by (nonlinear_arith)
        requires
            raw >= 1,
            crate::fx::sqrt_floor(raw as nat) * crate::fx::sqrt_floor(raw as nat) <= (raw as nat) < (
            crate::fx::sqrt_floor(raw as nat) + 1) * (crate::fx::sqrt_floor(raw as nat) + 1),
    ;
}

/// The computed dielectric direction, mirrored by `spec_dielectric_dir`.
fn dielectric_direction(unit_direction: Vec3, normal: Vec3, ratio: i64, draw: i64) -> (r: Vec3)
    requires
        unit_direction@.bounded(SCALE as int),
        normal@.bounded(4 * SCALE as int),
        0 < ratio <= 4 * SCALE as int,
        0 <= draw < SCALE,
    ensures
        r@ == spec_dielectric_dir(unit_direction@, normal@, ratio as int, draw as int),
{
    proof {
        crate::vec3::lemma_dot_bounded(
            unit_direction@,
            normal@,
            4_000_000,
            48_000_000_000_000,
        );
    }
    let d = unit_direction.dot(normal);
    let cos_theta = -(if d <= SCALE {
        d
    } else {
        SCALE
    });
    proof {
        assert(0 <= (cos_theta as int) * (cos_theta as int) <= 2_310_400_000_000_000)
            by (nonlinear_arith)
            requires
                -48_000_001 <= cos_theta as int <= 48_000_001,
        ;
        lemma_fxmul_range(cos_theta as int, cos_theta as int, 0, 2_310_400_000_000_000);
        lemma_fdiv_bounds(2_310_400_000_000_000, SCALE as int);
        crate::fx::lemma_fdiv_ge(0, SCALE as int, 0);
    }
    let c2: i64 = SCALE - fx_mul(cos_theta, cos_theta);
    let c2c: i64 = if c2 >= 0 {
        c2
    } else {
        0
    };
    let sin128 = isqrt_i128((c2c as i128) * (SCALE as i128));
    proof {
        assert(sin128 <= 2_000_000) by (nonlinear_arith)
            requires
                sin128 >= 0,
                sin128 * sin128 <= (c2c as int) * (SCALE as int),
                0 <= c2c as int <= 1_000_000,
                SCALE == 1_000_000i64,
        ;
    }
    let sin_theta = sin128 as i64;
    proof {
        assert(0 <= (ratio as int) * (sin_theta as int) <= 8_000_000_000_000) by (nonlinear_arith)
            requires
                0 < ratio as int <= 4_000_000,
                0 <= sin_theta as int <= 2_000_000,
        ;
        lemma_fxmul_range(ratio as int, sin_theta as int, 0, 8_000_000_000_000);
        lemma_fdiv_bounds(8_000_000_000_000, SCALE as int);
        crate::fx::lemma_fdiv_ge(0, SCALE as int, 0);
    }
    let cannot_refract = fx_mul(ratio, sin_theta) > SCALE;
    if cannot_refract || reflectance(cos_theta, ratio) > draw {
        Vec3::reflect(unit_direction, normal)
    } else {
        Vec3::refract(unit_direction, normal, ratio)
    }
}

/// Schlick's reflectance approximation, computed.
fn reflectance(cosine: i64, ref_idx: i64) -> (r: i64)
    requires
        -50_000_000 <= cosine <= 50_000_000,
        0 < ref_idx <= 4 * SCALE as int,
    ensures
        r == spec_reflectance(cosine as int, ref_idx as int),
{
    proof {
        lemma_quotient_reflectance(ref_idx as int);
    }
    let r0 = fx_div(SCALE - ref_idx, SCALE + ref_idx);
    proof {
        assert(0 <= (r0 as int) * (r0 as int) <= 1_000_000_000_000) by (nonlinear_arith)
            requires
                -1_000_000 <= r0 as int <= 1_000_000,
        ;
        lemma_fxmul_range(r0 as int, r0 as int, 0, 1_000_000_000_000);
        lemma_fdiv_bounds(1_000_000_000_000, SCALE as int);
        crate::fx::lemma_fdiv_ge(0, SCALE as int, 0);
    }
    let r0sq = fx_mul(r0, r0);
    let p5 = pow5_exec(SCALE - cosine);
    proof {
        let pq = (SCALE as int - r0sq as int) * (p5 as int);
        assert(-430_000_000_000_000_000_000 <= pq <= 430_000_000_000_000_000_000)
            by (nonlinear_arith)
            requires
                0 <= r0sq as int <= 1_000_000,
                -420_000_000_000_001 <= p5 as int <= 420_000_000_000_000,
                SCALE == 1_000_000i64,
                pq == (SCALE as int - r0sq as int) * (p5 as int),
        ;
        lemma_fxmul_range(
            SCALE as int - r0sq as int,
            p5 as int,
            -430_000_000_000_000_000_000,
            430_000_000_000_000_000_000,
        );
        lemma_fdiv_bounds(430_000_000_000_000_000_000, SCALE as int);
        lemma_fdiv_bounds(-430_000_000_000_000_000_000, SCALE as int);
    }
    r0sq + fx_mul(SCALE - r0sq, p5)
}

/// The fifth power, computed.
fn pow5_exec(x: i64) -> (r: i64)
    requires
        -52_000_000 <= x <= 52_000_000,
    ensures
        r == pow5(x as int),
        -420_000_000_000_001 <= r <= 420_000_000_000_000,
{
    proof {
        assert(-2_704_000_000_000_000 <= (x as int) * (x as int) <= 2_704_000_000_000_000)
            by (nonlinear_arith)
            requires
                -52_000_000 <= x as int <= 52_000_000,
        ;
        lemma_fxmul_range(x as int, x as int, -2_704_000_000_000_000, 2_704_000_000_000_000);
        lemma_fdiv_bounds(2_704_000_000_000_000, SCALE as int);
        lemma_fdiv_bounds(-2_704_000_000_000_000, SCALE as int);
    }
    let x2 = fx_mul(x, x);
    proof {
        assert(-150_000_000_000_000_000 <= (x2 as int) * (x as int) <= 150_000_000_000_000_000)
            by (nonlinear_arith)
            requires
                -2_704_000_001 <= x2 as int <= 2_704_000_000,
                -52_000_000 <= x as int <= 52_000_000,
        ;
        lemma_fxmul_range(x2 as int, x as int, -150_000_000_000_000_000, 150_000_000_000_000_000);
        lemma_fdiv_bounds(150_000_000_000_000_000, SCALE as int);
        lemma_fdiv_bounds(-150_000_000_000_000_000, SCALE as int);
    }
    let x3 = fx_mul(x2, x);
    proof {
        assert(-7_900_000_000_000_000_000 <= (x3 as int) * (x as int) <= 7_900_000_000_000_000_000)
            by (nonlinear_arith)
            requires
                -150_000_000_001 <= x3 as int <= 150_000_000_000,
                -52_000_000 <= x as int <= 52_000_000,
        ;
        lemma_fxmul_range(
            x3 as int,
            x as int,
            -7_900_000_000_000_000_000,
            7_900_000_000_000_000_000,
        );
        lemma_fdiv_bounds(7_900_000_000_000_000_000, SCALE as int);
        lemma_fdiv_bounds(-7_900_000_000_000_000_000, SCALE as int);
    }
    let x4 = fx_mul(x3, x);
    proof {
        let pq = (x4 as int) * (x as int);
        assert(-420_000_000_000_000_000_000 <= pq <= 420_000_000_000_000_000_000)
            by (nonlinear_arith)
            requires
                -7_900_000_000_001 <= x4 as int <= 7_900_000_000_000,
                -52_000_000 <= x as int <= 52_000_000,
                pq == (x4 as int) * (x as int),
        ;
        lemma_fxmul_range(
            x4 as int,
            x as int,
            -420_000_000_000_000_000_000,
            420_000_000_000_000_000_000,
        );
        lemma_fdiv_bounds(420_000_000_000_000_000_000, SCALE as int);
        lemma_fdiv_bounds(-420_000_000_000_000_000_000, SCALE as int);
    }
    fx_mul(x4, x)
}

/// The refraction ratio of a valid dielectric stays within the band the
/// refraction routine accepts.
proof fn lemma_ratio_range(ir: int)
    requires
        SCALE as int / 4 <= ir <= 4 * SCALE as int,
    ensures
        0 < fxdiv(SCALE as int, ir) <= 4 * SCALE as int,
{
    crate::fx::lemma_fdiv_bounds(SCALE as int * SCALE as int, ir);
    assert(0 < crate::fx::fdiv(SCALE as int * SCALE as int, ir) <= 4 * SCALE as int)
        by (nonlinear_arith)
        requires
            250_000 <= ir <= 4_000_000,
            crate::fx::fdiv(SCALE as int * SCALE as int, ir) * ir <= (SCALE as int) * (SCALE
                as int) < (crate::fx::fdiv(SCALE as int * SCALE as int, ir) + 1) * ir,
            SCALE == 1_000_000i64,
    ;
}

/// The Schlick base term stays within a unit for a positive index.
proof fn lemma_quotient_reflectance(ref_idx: int)
    requires
        0 < ref_idx <= 4 * SCALE as int,
    ensures
        -SCALE as int <= fxdiv(SCALE - ref_idx, SCALE + ref_idx) <= SCALE as int,
        SCALE + ref_idx > 0,
{
    crate::fx::lemma_ratio_unit(SCALE - ref_idx, SCALE as int + ref_idx);
}

impl Lambertian {
    pub fn new(a: Texture) -> (r: Self)
        requires
            a.wf(),
        ensures
            Material::Lambertian(r).wf(),
            r.albedo == a,
    {
        Self { albedo: a }
    }

    /// A diffuse material with a constant color.
    pub fn new_from_color(c: Color) -> (r: Self)
        ensures
            Material::Lambertian(r).wf(),
            r.albedo == Texture::SolidColor(SolidColor { color_value: c }),
    {
        Self { albedo: Texture::SolidColor(SolidColor::new(c)) }
    }
}

impl Metal {
    pub fn new(a: Color, f: i64) -> (r: Self)
        requires
            0 <= f <= SCALE,
        ensures
            Material::Metal(r).wf(),
            r.albedo == a,
            r.fuzz == f,
    {
        Self { albedo: a, fuzz: f }
    }
}

impl Dielectric {
    pub fn new(index_of_refraction: i64) -> (r: Self)
        requires
            SCALE as int / 4 <= index_of_refraction <= 4 * SCALE as int,
        ensures
            Material::Dielectric(r).wf(),
            r.ir == index_of_refraction,
    {
        Self { ir: index_of_refraction }
    }
}

impl Default for Dielectric {
    /// Vacuum: a refractive index of one.
    fn default() -> (r: Self)
        ensures
            Material::Dielectric(r).wf(),
            r.ir == SCALE,
    {
        Self { ir: SCALE }
    }
}

impl DiffuseLight {
    pub fn new_with_color(c: Color) -> (r: Self)
        ensures
            Material::DiffuseLight(r).wf(),
            r.emit == c,
    {
        Self { emit: c }
    }
}


/// The total-internal-reflection condition: the refraction ratio times the
/// sine of the incidence angle exceeds one.
pub open spec fn spec_cannot_refract(unit_dir: V3, normal: V3, ratio: int) -> bool {
    let d = unit_dir.dot(normal);
    let cos_theta = -(if d <= SCALE as int {
        d
    } else {
        SCALE as int
    });
    let c2 = SCALE - fxmul(cos_theta, cos_theta);
    let c2c = if c2 >= 0 {
        c2
    } else {
        0
    };
    let sin_theta = sqrt_floor_int(c2c * SCALE);
    fxmul(ratio, sin_theta) > SCALE
}

/// Once the scaled sine crosses one, the dielectric reflects — for every
/// random draw alike, with no stochastic choice left; below the crossing
/// the outcome is reflection or refraction by the Schlick comparison.
pub proof fn lemma_dielectric_switch(
    unit_dir: V3,
    normal: V3,
    ratio: int,
    d1: int,
    d2: int,
)
    ensures
        spec_cannot_refract(unit_dir, normal, ratio) ==> spec_dielectric_dir(
            unit_dir,
            normal,
            ratio,
            d1,
        ) == unit_dir.reflect(normal),
        spec_cannot_refract(unit_dir, normal, ratio) ==> spec_dielectric_dir(
            unit_dir,
            normal,
            ratio,
            d1,
        ) == spec_dielectric_dir(unit_dir, normal, ratio, d2),
        !spec_cannot_refract(unit_dir, normal, ratio) ==> (spec_dielectric_dir(
            unit_dir,
            normal,
            ratio,
            d1,
        ) == unit_dir.reflect(normal) || spec_dielectric_dir(unit_dir, normal, ratio, d1)
            == spec_refract(unit_dir, normal, ratio)),
{
}

} // verus!
