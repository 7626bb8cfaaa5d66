//! The camera: viewport setup and ray generation (the sampling edge of the
//! core), and the recursive radiance estimator (the heart of it).
//!
//! Viewport setup and per-pixel sampling are collaborators of the core;
//! their contracts guarantee well-formed rays and bounded state.  The
//! estimator `ray_color` carries the exact termination and background
//! contract, and `ray_color_normal` — the deterministic normal-shading
//! pass — is mirrored exactly.

use vstd::prelude::*;
use crate::fx::{
    fdiv, fxmul, fxdiv, fx_mul, fx_sin, fx_cos, degrees_to_radians, floor_div_i128,
    lemma_fdiv_bounds, lemma_fxmul_range, INFINITY, SCALE,
};
use crate::hittable::{HitR, HitRecord, Hittable, lemma_hit_ok};
use crate::interval::Interval;
use crate::material::Material;
use crate::ray::{Ray, R3};
use crate::rng::{random_fraction, random_range_fx};
use crate::vec3::{Color, Point3, Vec3, V3, COORD_MAX};

verus! {

/// The bound every derived camera quantity is clamped into.
pub const CAM_MAX: i64 = 1_000_000_000_000;

pub struct Camera {
    pub aspect_ratio: i64,
    pub image_width: i32,
    pub samples_per_pixel: i32,
    pub max_depth: i32,
    pub vfov: i64,
    pub lookfrom: Point3,
    pub lookat: Point3,
    pub vup: Vec3,
    pub defocus_angle: i64,
    pub focus_dist: i64,
    pub background: Color,
    pub image_height: i32,
    pub center: Point3,
    pub pixel00_loc: Point3,
    pub pixel_delta_u: Vec3,
    pub pixel_delta_v: Vec3,
    pub u: Vec3,
    pub v: Vec3,
    pub w: Vec3,
    pub defocus_disk_u: Vec3,
    pub defocus_disk_v: Vec3,
}

impl Camera {
    /// The derived state every ray generator relies on: everything within
    /// the clamp bound, the centre inside the world.
    pub open spec fn wf_derived(self) -> bool {
        &&& self.center@.bounded(COORD_MAX as int)
        &&& self.pixel00_loc@.bounded(CAM_MAX as int)
        &&& self.pixel_delta_u@.bounded(CAM_MAX as int)
        &&& self.pixel_delta_v@.bounded(CAM_MAX as int)
        &&& self.defocus_disk_u@.bounded(CAM_MAX as int)
        &&& self.defocus_disk_v@.bounded(CAM_MAX as int)
        &&& 1 <= self.image_height
    }

    /// A camera with the basic image parameters; the view is configured on
    /// the public fields before `initialize`.
    pub fn new(aspect_ratio: i64, image_width: i32, samples_per_pixel: i32, max_depth: i32) -> (r:
        Camera)
        ensures
            r.aspect_ratio == aspect_ratio,
            r.image_width == image_width,
            r.samples_per_pixel == samples_per_pixel,
            r.max_depth == max_depth,
            r.vfov == 0,
            r.lookfrom@ == (V3 { x: 0, y: 0, z: 0 }),
            r.lookat@ == (V3 { x: 0, y: 0, z: 0 }),
            r.vup@ == (V3 { x: 0, y: 0, z: 0 }),
            r.defocus_angle == 0,
            r.focus_dist == 10 * SCALE as int,
            r.background@ == (V3 { x: 0, y: 0, z: 0 }),
    {
        Camera {
            aspect_ratio,
            image_width,
            samples_per_pixel,
            max_depth,
            vfov: 0,
            lookfrom: Vec3::new(0, 0, 0),
            lookat: Vec3::new(0, 0, 0),
            vup: Vec3::new(0, 0, 0),
            defocus_angle: 0,
            focus_dist: 10 * SCALE,
            background: Vec3::new(0, 0, 0),
            image_height: 0,
            center: Vec3::new(0, 0, 0),
            pixel00_loc: Vec3::new(0, 0, 0),
            pixel_delta_u: Vec3::new(0, 0, 0),
            pixel_delta_v: Vec3::new(0, 0, 0),
            u: Vec3::new(0, 0, 0),
            v: Vec3::new(0, 0, 0),
            w: Vec3::new(0, 0, 0),
            defocus_disk_u: Vec3::new(0, 0, 0),
            defocus_disk_v: Vec3::new(0, 0, 0),
        }
    }

    /// Computes the viewport geometry from the configured fields.
    /// Derived quantities are clamped into the camera bound; degenerate
    /// configurations (a vertical field of view at the poles, a view-up
    /// parallel to the view direction) fall back to axis directions
    /// instead of dividing by zero.
    #[verifier::rlimit(60)]
    pub fn initialize(&mut self)
        requires
            old(self).aspect_ratio >= 1_000,
            1 <= old(self).image_width <= 20_000,
            0 <= old(self).vfov <= 179 * SCALE as int,
            0 <= old(self).defocus_angle <= 179 * SCALE as int,
            0 < old(self).focus_dist <= COORD_MAX as int,
            old(self).lookfrom@.wf(),
            old(self).lookat@.wf(),
            old(self).vup@.wf(),
        ensures
            final(self).wf_derived(),
            final(self).aspect_ratio == old(self).aspect_ratio,
            final(self).image_width == old(self).image_width,
            final(self).samples_per_pixel == old(self).samples_per_pixel,
            final(self).max_depth == old(self).max_depth,
            final(self).background == old(self).background,
            final(self).center == old(self).lookfrom,
            1 <= final(self).image_height <= 20_000_000,
    {
        proof {
            lemma_fdiv_bounds((self.image_width as int) * (SCALE as int), self.aspect_ratio as int);
            crate::fx::lemma_fdiv_ge(
                (self.image_width as int) * (SCALE as int),
                self.aspect_ratio as int,
                0,
            );
            assert(fdiv((self.image_width as int) * (SCALE as int), self.aspect_ratio as int)
                <= 20_000_000_000) by (nonlinear_arith)
                requires
                    self.aspect_ratio as int >= 1_000,
                    1 <= self.image_width as int <= 20_000,
                    fdiv((self.image_width as int) * (SCALE as int), self.aspect_ratio as int) * (
                    self.aspect_ratio as int) <= (self.image_width as int) * (SCALE as int) < (fdiv(
                        (self.image_width as int) * (SCALE as int),
                        self.aspect_ratio as int,
                    ) + 1) * (self.aspect_ratio as int),
                    SCALE == 1_000_000i64,
            ;
        }
        let ih128 = floor_div_i128(
            (self.image_width as i128) * (SCALE as i128),
            self.aspect_ratio as i128,
        );
        let mut ih = if ih128 > 20_000_000 {
            20_000_000i64
        } else {
            ih128 as i64
        };
        if ih < 1 {
            ih = 1;
        }
        self.image_height = ih as i32;
        self.center = self.lookfrom;
        let theta = degrees_to_radians(self.vfov);
        let half_theta = theta.checked_div_euclid(2).unwrap();
        proof {
            crate::fx::lemma_fdiv_shrink(theta as int, 2);
        }
        let sh = fx_sin(half_theta);
        let ch = fx_cos(half_theta);
        let h: i64 = if ch >= 1_000 {
            proof {
                lemma_div_floor_small(sh as int, ch as int);
            }
            crate::fx::fx_tan(half_theta)
        } else {
            0
        };
        let viewport_height = clamp_cam128(2 * (mul_fx128(h, self.focus_dist)));
        let ratio = clamp_cam128(
            floor_div_i128((self.image_width as i128) * (SCALE as i128), ih as i128),
        );
        let viewport_width = clamp_cam128(mul_fx128(viewport_height, ratio));
        let wdir = self.lookfrom.sub(self.lookat);
        let w = if wdir.near_zero() {
            Vec3::new(0, 0, SCALE)
        } else {
            proof {
                crate::vec3::lemma_nonzero_len(wdir@);
            }
            wdir.unit_vector()
        };
        proof {
            crate::vec3::lemma_smul_bounded(
                w@,
                self.vup@.x,
                4_000_000_000,
                1_000_000,
                4_000_000_000_000_000,
            );
            crate::vec3::lemma_smul_bounded(
                w@,
                self.vup@.y,
                4_000_000_000,
                1_000_000,
                4_000_000_000_000_000,
            );
            crate::vec3::lemma_smul_bounded(
                w@,
                self.vup@.z,
                4_000_000_000,
                1_000_000,
                4_000_000_000_000_000,
            );
            crate::vec3::lemma_smul_bounded(
                self.vup@,
                w@.x,
                1_000_000,
                4_000_000_000,
                4_000_000_000_000_000,
            );
            crate::vec3::lemma_smul_bounded(
                self.vup@,
                w@.y,
                1_000_000,
                4_000_000_000,
                4_000_000_000_000_000,
            );
            crate::vec3::lemma_smul_bounded(
                self.vup@,
                w@.z,
                1_000_000,
                4_000_000_000,
                4_000_000_000_000_000,
            );
        }
        let ucross = self.vup.cross(w);
        let u = if ucross.near_zero() {
            Vec3::new(SCALE, 0, 0)
        } else {
            proof {
                crate::vec3::lemma_nonzero_len(ucross@);
            }
            ucross.unit_vector()
        };
        proof {
            crate::vec3::lemma_smul_bounded(u@, w@.x, 1_000_000, 1_000_000, 1_000_000_000_000);
            crate::vec3::lemma_smul_bounded(u@, w@.y, 1_000_000, 1_000_000, 1_000_000_000_000);
            crate::vec3::lemma_smul_bounded(u@, w@.z, 1_000_000, 1_000_000, 1_000_000_000_000);
            crate::vec3::lemma_smul_bounded(w@, u@.x, 1_000_000, 1_000_000, 1_000_000_000_000);
            crate::vec3::lemma_smul_bounded(w@, u@.y, 1_000_000, 1_000_000, 1_000_000_000_000);
            crate::vec3::lemma_smul_bounded(w@, u@.z, 1_000_000, 1_000_000, 1_000_000_000_000);
        }
        let v = w.cross(u);
        self.w = w;
        self.u = u;
        self.v = v;
        let vux = clamp_cam128(mul_fx128(u.x(), viewport_width));
        let vuy = clamp_cam128(mul_fx128(u.y(), viewport_width));
        let vuz = clamp_cam128(mul_fx128(u.z(), viewport_width));
        let vvx = clamp_cam128(-mul_fx128(v.x(), viewport_height));
        let vvy = clamp_cam128(-mul_fx128(v.y(), viewport_height));
        let vvz = clamp_cam128(-mul_fx128(v.z(), viewport_height));
        let iw_fx: i64 = (self.image_width as i64) * SCALE;
        let ih_fx: i64 = ih * SCALE;
        self.pixel_delta_u = Vec3::new(
            clamp_cam128(div_fx128(vux, iw_fx)),
            clamp_cam128(div_fx128(vuy, iw_fx)),
            clamp_cam128(div_fx128(vuz, iw_fx)),
        );
        self.pixel_delta_v = Vec3::new(
            clamp_cam128(div_fx128(vvx, ih_fx)),
            clamp_cam128(div_fx128(vvy, ih_fx)),
            clamp_cam128(div_fx128(vvz, ih_fx)),
        );
        let ulx = clamp_cam128(
            self.center.x() as i128 - mul_fx128(w.x(), self.focus_dist) - (vux
                as i128).checked_div_euclid(2).unwrap() - (vvx as i128).checked_div_euclid(
                2,
            ).unwrap(),
        );
        let uly = clamp_cam128(
            self.center.y() as i128 - mul_fx128(w.y(), self.focus_dist) - (vuy
                as i128).checked_div_euclid(2).unwrap() - (vvy as i128).checked_div_euclid(
                2,
            ).unwrap(),
        );
        let ulz = clamp_cam128(
            self.center.z() as i128 - mul_fx128(w.z(), self.focus_dist) - (vuz
                as i128).checked_div_euclid(2).unwrap() - (vvz as i128).checked_div_euclid(
                2,
            ).unwrap(),
        );
        self.pixel00_loc = Vec3::new(
            clamp_cam128(
                ulx as i128 + (self.pixel_delta_u.x() as i128 + self.pixel_delta_v.x()
                    as i128).checked_div_euclid(2).unwrap(),
            ),
            clamp_cam128(
                uly as i128 + (self.pixel_delta_u.y() as i128 + self.pixel_delta_v.y()
                    as i128).checked_div_euclid(2).unwrap(),
            ),
            clamp_cam128(
                ulz as i128 + (self.pixel_delta_u.z() as i128 + self.pixel_delta_v.z()
                    as i128).checked_div_euclid(2).unwrap(),
            ),
        );
        let half_defocus = self.defocus_angle.checked_div_euclid(2).unwrap();
        proof {
            crate::fx::lemma_fdiv_shrink(self.defocus_angle as int, 2);
        }
        let dtheta = degrees_to_radians(half_defocus);
        let ds = fx_sin(dtheta);
        let dc = fx_cos(dtheta);
        let dt: i64 = if dc >= 1_000 {
            proof {
                lemma_div_floor_small(ds as int, dc as int);
            }
            crate::fx::fx_tan(dtheta)
        } else {
            0
        };
        let defocus_radius = clamp_cam128(mul_fx128(self.focus_dist, dt));
        self.defocus_disk_u = Vec3::new(
            clamp_cam128(mul_fx128(u.x(), defocus_radius)),
            clamp_cam128(mul_fx128(u.y(), defocus_radius)),
            clamp_cam128(mul_fx128(u.z(), defocus_radius)),
        );
        self.defocus_disk_v = Vec3::new(
            clamp_cam128(mul_fx128(v.x(), defocus_radius)),
            clamp_cam128(mul_fx128(v.y(), defocus_radius)),
            clamp_cam128(mul_fx128(v.z(), defocus_radius)),
        );
    }

    /// A primary ray through pixel `(i, j)`, jittered inside the pixel and
    /// (with a positive defocus angle) across the aperture disk, at a
    /// random moment of the exposure.
    pub fn get_ray(&self, i: i32, j: i32) -> (r: Ray)
        requires
            self.wf_derived(),
            0 <= i <= 20_000,
            0 <= j <= 20_000_000,
        ensures
            r@.wf(),
    {
        let px = random_range_fx(-SCALE / 2, SCALE / 2);
        let py = random_range_fx(-SCALE / 2, SCALE / 2);
        let sx = clamp_world128(
            self.pixel00_loc.x() as i128 + sample_component(
                i,
                px,
                self.pixel_delta_u.x(),
            ) + sample_component(j, py, self.pixel_delta_v.x()),
        );
        let sy = clamp_world128(
            self.pixel00_loc.y() as i128 + sample_component(
                i,
                px,
                self.pixel_delta_u.y(),
            ) + sample_component(j, py, self.pixel_delta_v.y()),
        );
        let sz = clamp_world128(
            self.pixel00_loc.z() as i128 + sample_component(
                i,
                px,
                self.pixel_delta_u.z(),
            ) + sample_component(j, py, self.pixel_delta_v.z()),
        );
        let ray_origin = if self.defocus_angle <= 0 {
            self.center
        } else {
            self.defocus_disk_sample()
        };
        let dir = Vec3::new(
            clamp_dir(sx as i128 - ray_origin.x() as i128),
            clamp_dir(sy as i128 - ray_origin.y() as i128),
            clamp_dir(sz as i128 - ray_origin.z() as i128),
        );
        let ray_time = random_fraction();
        Ray::new_with_time(ray_origin, dir, ray_time)
    }

    /// A jittered origin on the aperture disk.
    fn defocus_disk_sample(&self) -> (r: Point3)
        requires
            self.wf_derived(),
        ensures
            r@.bounded(4 * COORD_MAX as int),
    {
        let p = random_in_unit_disk();
        let r0 = clamp_world128(
            self.center.x() as i128 + mul_fx128(p.x(), self.defocus_disk_u.x()) + mul_fx128(
                p.y(),
                self.defocus_disk_v.x(),
            ),
        );
        let r1 = clamp_world128(
            self.center.y() as i128 + mul_fx128(p.x(), self.defocus_disk_u.y()) + mul_fx128(
                p.y(),
                self.defocus_disk_v.y(),
            ),
        );
        let r2 = clamp_world128(
            self.center.z() as i128 + mul_fx128(p.x(), self.defocus_disk_u.z()) + mul_fx128(
                p.y(),
                self.defocus_disk_v.z(),
            ),
        );
        Vec3::new(r0, r1, r2)
    }

    /// The recursive radiance estimator.  At the depth budget the ray
    /// contributes black; a ray that misses the scene contributes exactly
    /// the background; a hit scatters by its material and attenuates the
    /// recursive estimate, or is absorbed to black.
    pub fn ray_color(
        r: Ray,
        depth: i32,
        world: &Hittable,
        materials: &Vec<Material>,
        background: Color,
    ) -> (c: Color)
        requires
            world.wf(),
            r@.wf(),
            background@.bounded(CAM_MAX as int),
            forall|i: int| 0 <= i < materials@.len() ==> (#[trigger] materials@[i]).wf(),
        ensures
            c@.bounded(CAM_MAX as int),
            spec_estimate(*world, materials@, background@, r@, depth as int, c@),
            depth <= 0 ==> c@ == (V3 { x: 0, y: 0, z: 0 }),
            depth > 0 && world.spec_hit(r@, 1_000, INFINITY as int) is None ==> c@ == background@,
        decreases depth,
    {
        if depth <= 0 {
            return Vec3::new(0, 0, 0);
        }
        let mut rec = HitRecord::default();
        if world.hit(r, Interval::positive(), &mut rec) {
            proof {
                lemma_hit_ok(*world, r@, 1_000, INFINITY as int);
            }
            if rec.mat as usize >= materials.len() {
                return Vec3::new(0, 0, 0);
            }
            let m = &materials[rec.mat as usize];
            let mut attenuation = Vec3::new(0, 0, 0);
            let mut scattered = Ray::new(Vec3::new(0, 0, 0), Vec3::new(0, 0, 0));
            let ghost mspec = materials@[rec@.mat as int];
            if m.scatter(&r, &rec, &mut attenuation, &mut scattered) {
                let cm = COORD_MAX;
                let so = scattered.origin();
                let sd = scattered.direction();
                if !(so.x() >= -4 * cm && so.x() <= 4 * cm && so.y() >= -4 * cm && so.y() <= 4 * cm
                    && so.z() >= -4 * cm && so.z() <= 4 * cm) {
                    proof {
                        lemma_estimate_hit(
                            *world,
                            materials@,
                            background@,
                            r@,
                            depth as int,
                            rec@,
                            true,
                            attenuation@,
                            scattered@,
                            V3 { x: 0, y: 0, z: 0 },
                            V3 { x: 0, y: 0, z: 0 },
                        );
                    }
                    return Vec3::new(0, 0, 0);
                }
                if !(sd.x() >= -cm && sd.x() <= cm && sd.y() >= -cm && sd.y() <= cm && sd.z() >= -cm
                    && sd.z() <= cm) {
                    proof {
                        lemma_estimate_hit(
                            *world,
                            materials@,
                            background@,
                            r@,
                            depth as int,
                            rec@,
                            true,
                            attenuation@,
                            scattered@,
                            V3 { x: 0, y: 0, z: 0 },
                            V3 { x: 0, y: 0, z: 0 },
                        );
                    }
                    return Vec3::new(0, 0, 0);
                }
                let rest = Self::ray_color(scattered, depth - 1, world, materials, background);
                let out = Vec3::new(
                    clamp_cam128(mul_fx128(attenuation.x(), rest.x())),
                    clamp_cam128(mul_fx128(attenuation.y(), rest.y())),
                    clamp_cam128(mul_fx128(attenuation.z(), rest.z())),
                );
                proof {
                    lemma_estimate_hit(
                        *world,
                        materials@,
                        background@,
                        r@,
                        depth as int,
                        rec@,
                        true,
                        attenuation@,
                        scattered@,
                        rest@,
                        out@,
                    );
                }
                return out;
            }
            proof {
                lemma_estimate_hit(
                    *world,
                    materials@,
                    background@,
                    r@,
                    depth as int,
                    rec@,
                    false,
                    attenuation@,
                    scattered@,
                    V3 { x: 0, y: 0, z: 0 },
                    V3 { x: 0, y: 0, z: 0 },
                );
            }
            return Vec3::new(0, 0, 0);
        }
        background
    }

    /// The deterministic normal-visualization pass: a hit shows the
    /// face normal shifted into the color cube, a miss shows the vertical
    /// background gradient.  No sampling, no materials; exact.
    pub fn ray_color_normal(r: Ray, world: &Hittable) -> (c: Color)
        requires
            world.wf(),
            r@.wf(),
            r@.dir != (V3 { x: 0, y: 0, z: 0 }),
        ensures
            c@ == spec_ray_color_normal(*world, r@),
    {
        let mut rec = HitRecord::default();
        if world.hit(r, Interval::positive(), &mut rec) {
            proof {
                lemma_hit_ok(*world, r@, 1_000, INFINITY as int);
                lemma_half_unit(rec@.normal.x);
                lemma_half_unit(rec@.normal.y);
                lemma_half_unit(rec@.normal.z);
            }
            Vec3::new(
                fx_mul(500_000, rec.normal.x() + SCALE),
                fx_mul(500_000, rec.normal.y() + SCALE),
                fx_mul(500_000, rec.normal.z() + SCALE),
            )
        } else {
            proof {
                crate::vec3::lemma_nonzero_len(r@.dir);
            }
            let unit_direction = r.direction().unit_vector();
            proof {
                lemma_half_unit(unit_direction@.y);
            }
            let a = fx_mul(500_000, unit_direction.y() + SCALE);
            proof {
                lemma_blend_bounds(a as int);
            }
            Vec3::new(
                (SCALE - a) + fx_mul(a, 500_000),
                (SCALE - a) + fx_mul(a, 700_000),
                (SCALE - a) + fx_mul(a, 1_000_000),
            )
        }
    }
}

/// The normal-visualization color: half the normal shifted by half a unit
/// on a hit, the blue-blended vertical gradient on a miss.
pub open spec fn spec_ray_color_normal(world: Hittable, r: R3) -> V3 {
    match world.spec_hit(r, 1_000, INFINITY as int) {
        Some(rec) => V3 {
            x: fxmul(500_000, rec.normal.x + SCALE),
            y: fxmul(500_000, rec.normal.y + SCALE),
            z: fxmul(500_000, rec.normal.z + SCALE),
        },
        None => {
            let a = fxmul(500_000, r.dir.unit().y + SCALE);
            V3 {
                x: (SCALE - a) + fxmul(a, 500_000),
                y: (SCALE - a) + fxmul(a, 700_000),
                z: (SCALE - a) + fxmul(a, 1_000_000),
            }
        },
    }
}

/// What the radiance estimator returns, as a relation with the random
/// draws existentially quantified.  At the depth budget the result is
/// black; a miss is exactly the background; a hit with an index outside
/// the material arena is black; otherwise some scatter outcome explains
/// the result.
pub open spec fn spec_estimate(
    world: Hittable,
    materials: Seq<Material>,
    background: V3,
    r: R3,
    depth: int,
    c: V3,
) -> bool
    decreases depth, 2int,
{
    if depth <= 0 {
        c == (V3 { x: 0, y: 0, z: 0 })
    } else {
        match world.spec_hit(r, 1_000, INFINITY as int) {
            None => c == background,
            Some(rec) => {
                if rec.mat as int >= materials.len() {
                    c == (V3 { x: 0, y: 0, z: 0 })
                } else {
                    spec_hit_outcome(world, materials, background, r, rec, depth, c)
                }
            },
        }
    }
}

/// Some scatter outcome of the hit material explains the result: a draw
/// outcome `(b, att, scat)` of the material's scattering, and — when the
/// ray continues — a witness `rest` for the deeper estimate.
pub open spec fn spec_hit_outcome(
    world: Hittable,
    materials: Seq<Material>,
    background: V3,
    r: R3,
    rec: HitR,
    depth: int,
    c: V3,
) -> bool
    decreases depth, 1int,
{
    depth > 0 && exists|b: bool, att: V3, scat: R3, rest: V3|
        #![trigger crate::material::spec_scatter_post(
            materials[rec.mat as int],
            r,
            rec,
            b,
            att,
            scat,
        ), spec_deeper_witness(rest)]
        crate::material::spec_scatter_post(materials[rec.mat as int], r, rec, b, att, scat)
            && spec_deeper_witness(rest) && spec_outcome_case(
            world,
            materials,
            background,
            b,
            att,
            scat,
            depth,
            c,
            rest,
        )
}

/// Marks the deeper-estimate witness of a scatter outcome, so the outcome
/// can be named without unfolding the recursion.
pub open spec fn spec_deeper_witness(rest: V3) -> bool {
    true
}

/// How one scatter outcome determines the result: black on absorption or
/// an out-of-world scattered ray, otherwise the clamped componentwise
/// product of the attenuation with the witnessed estimate one level
/// deeper.
pub open spec fn spec_outcome_case(
    world: Hittable,
    materials: Seq<Material>,
    background: V3,
    b: bool,
    att: V3,
    scat: R3,
    depth: int,
    c: V3,
    rest: V3,
) -> bool
    decreases depth, 0int,
{
    if !b {
        c == (V3 { x: 0, y: 0, z: 0 })
    } else if !(scat.orig.bounded(4 * COORD_MAX as int) && scat.dir.bounded(COORD_MAX as int)) {
        c == (V3 { x: 0, y: 0, z: 0 })
    } else {
        depth > 0 && spec_estimate(world, materials, background, scat, depth - 1, rest) && c == (V3 {
            x: spec_clamp_cam(fxmul(att.x, rest.x)),
            y: spec_clamp_cam(fxmul(att.y, rest.y)),
            z: spec_clamp_cam(fxmul(att.z, rest.z)),
        })
    }
}

/// Introduces the hit outcome from explicit witnesses.
proof fn lemma_outcome_intro(
    world: Hittable,
    materials: Seq<Material>,
    background: V3,
    r: R3,
    rec: HitR,
    depth: int,
    c: V3,
    b: bool,
    att: V3,
    scat: R3,
    rest: V3,
)
    requires
        depth > 0,
        0 <= rec.mat < materials.len(),
        crate::material::spec_scatter_post(materials[rec.mat as int], r, rec, b, att, scat),
        spec_outcome_case(world, materials, background, b, att, scat, depth, c, rest),
    ensures
        spec_hit_outcome(world, materials, background, r, rec, depth, c),
{
    assert(spec_deeper_witness(rest));
    assert(exists|b2: bool, att2: V3, scat2: R3, rest2: V3|
        #![trigger crate::material::spec_scatter_post(
            materials[rec.mat as int],
            r,
            rec,
            b2,
            att2,
            scat2,
        ), spec_deeper_witness(rest2)]
        crate::material::spec_scatter_post(materials[rec.mat as int], r, rec, b2, att2, scat2)
            && spec_deeper_witness(rest2) && spec_outcome_case(
            world,
            materials,
            background,
            b2,
            att2,
            scat2,
            depth,
            c,
            rest2,
        ));
}

/// Introduces the estimator relation at a hit from explicit witnesses for
/// the scatter outcome and the deeper estimate.
proof fn lemma_estimate_hit(
    world: Hittable,
    materials: Seq<Material>,
    background: V3,
    r: R3,
    depth: int,
    rec: HitR,
    b: bool,
    att: V3,
    scat: R3,
    rest: V3,
    c: V3,
)
    requires
        depth > 0,
        world.spec_hit(r, 1_000, INFINITY as int) == Some(rec),
        0 <= rec.mat < materials.len(),
        crate::material::spec_scatter_post(materials[rec.mat as int], r, rec, b, att, scat),
        !b ==> c == (V3 { x: 0, y: 0, z: 0 }),
        b && !(scat.orig.bounded(4 * COORD_MAX as int) && scat.dir.bounded(COORD_MAX as int))
            ==> c == (V3 { x: 0, y: 0, z: 0 }),
        b && scat.orig.bounded(4 * COORD_MAX as int) && scat.dir.bounded(COORD_MAX as int) ==> (
        spec_estimate(world, materials, background, scat, depth - 1, rest) && c == (V3 {
            x: spec_clamp_cam(fxmul(att.x, rest.x)),
            y: spec_clamp_cam(fxmul(att.y, rest.y)),
            z: spec_clamp_cam(fxmul(att.z, rest.z)),
        })),
    ensures
        spec_estimate(world, materials, background, r, depth, c),
{
    assert(spec_outcome_case(world, materials, background, b, att, scat, depth, c, rest));
    lemma_outcome_intro(world, materials, background, r, rec, depth, c, b, att, scat, rest);
}

/// Rejection-samples a point strictly inside the unit disk in the plane of
/// the aperture.
pub fn random_in_unit_disk() -> (r: Vec3)
    ensures
        r@.bounded(SCALE as int),
        r@.z == 0,
{
    let mut tries: u32 = 0;
    while tries < 1024
        invariant
            true,
        decreases 1024 - tries,
    {
        let p = Vec3::new(
            random_range_fx(-SCALE, SCALE),
            random_range_fx(-SCALE, SCALE),
            0,
        );
        proof {
            crate::vec3::lemma_dot_bounded(p@, p@, 1_000_000, 3_000_000_000_000);
        }
        let ls = p.length_squared();
        if 0 < ls && ls < SCALE {
            return p;
        }
        tries = tries + 1;
    }
    Vec3::new(SCALE / 2, 0, 0)
}

/// One jitter term of the pixel sample: `(index + offset) * delta`.
fn sample_component(index: i32, offset: i64, delta: i64) -> (r: i128)
    requires
        0 <= index <= 20_000_000,
        -SCALE as int <= offset <= SCALE as int,
        -CAM_MAX as int <= delta <= CAM_MAX as int,
    ensures
        r == fxmul(index * SCALE + offset, delta as int),
        -30_000_000_000_000_000_000_000 <= r <= 30_000_000_000_000_000_000_000,
{
    let k: i64 = (index as i64) * SCALE + offset;
    proof {
        assert(-21_000_000_000_000_000_000_000_000_000 <= (k as int) * (delta as int)
            <= 21_000_000_000_000_000_000_000_000_000) by (nonlinear_arith)
            requires
                -1_000_000 <= k as int <= 20_000_001_000_000,
                -1_000_000_000_000 <= delta as int <= 1_000_000_000_000,
        ;
        lemma_fdiv_bounds(21_000_000_000_000_000_000_000_000_000, SCALE as int);
        lemma_fdiv_bounds(-21_000_000_000_000_000_000_000_000_000, SCALE as int);
        crate::fx::lemma_fdiv_mono(
            (k as int) * (delta as int),
            21_000_000_000_000_000_000_000_000_000,
            SCALE as int,
        );
        crate::fx::lemma_fdiv_mono(
            -21_000_000_000_000_000_000_000_000_000,
            (k as int) * (delta as int),
            SCALE as int,
        );
    }
    floor_div_i128((k as i128) * (delta as i128), SCALE as i128)
}

/// A scaled fixed-point product in wide arithmetic.
fn mul_fx128(a: i64, b: i64) -> (r: i128)
    ensures
        r == fxmul(a as int, b as int),
        -0x1_0000_0000_0000_0000_0000_0000_0000 <= r <= 0x1_0000_0000_0000_0000_0000_0000_0000,
{
    proof {
        assert(-0x4000_0000_0000_0000_0000_0000_0000_0000 <= (a as i128) * (b as i128)
            <= 0x4000_0000_0000_0000_0000_0000_0000_0000) by (nonlinear_arith)
            requires
                i64::MIN <= a <= i64::MAX,
                i64::MIN <= b <= i64::MAX,
        ;
        lemma_fdiv_bounds(0x4000_0000_0000_0000_0000_0000_0000_0000, SCALE as int);
        lemma_fdiv_bounds(-0x4000_0000_0000_0000_0000_0000_0000_0000, SCALE as int);
        crate::fx::lemma_fdiv_mono(
            (a as int) * (b as int),
            0x4000_0000_0000_0000_0000_0000_0000_0000,
            SCALE as int,
        );
        crate::fx::lemma_fdiv_mono(
            -0x4000_0000_0000_0000_0000_0000_0000_0000,
            (a as int) * (b as int),
            SCALE as int,
        );
    }
    floor_div_i128((a as i128) * (b as i128), SCALE as i128)
}

/// A scaled fixed-point quotient in wide arithmetic; the divisor must be
/// at least one unit.
fn div_fx128(a: i64, b: i64) -> (r: i128)
    requires
        b >= SCALE,
    ensures
        r == fxdiv(a as int, b as int),
{
    proof {
        assert(i128::MIN < (a as i128) * (SCALE as i128) < i128::MAX) by (nonlinear_arith)
            requires
                i64::MIN <= a <= i64::MAX,
                SCALE == 1_000_000i64,
        ;
    }
    floor_div_i128((a as i128) * (SCALE as i128), b as i128)
}

/// Saturation into the camera bound.
pub open spec fn spec_clamp_cam(x: int) -> int {
    if x > CAM_MAX {
        CAM_MAX as int
    } else if x < -CAM_MAX {
        -(CAM_MAX as int)
    } else {
        x
    }
}

/// Saturates a wide value into the camera bound.
fn clamp_cam128(x: i128) -> (r: i64)
    ensures
        r == spec_clamp_cam(x as int),
        -CAM_MAX as int <= r <= CAM_MAX as int,
{
    if x > CAM_MAX as i128 {
        CAM_MAX
    } else if x < -(CAM_MAX as i128) {
        -CAM_MAX
    } else {
        x as i64
    }
}

/// Saturates a wide value into the world bound for ray origins.
fn clamp_world128(x: i128) -> (r: i64)
    ensures
        -4 * COORD_MAX as int <= r <= 4 * COORD_MAX as int,
        -4 * COORD_MAX as int <= x <= 4 * COORD_MAX as int ==> r == x,
{
    let b: i128 = 4 * (COORD_MAX as i128);
    if x > b {
        4 * COORD_MAX
    } else if x < -b {
        -4 * COORD_MAX
    } else {
        x as i64
    }
}

/// Saturates a wide value into the world bound for ray directions.
fn clamp_dir(x: i128) -> (r: i64)
    ensures
        -COORD_MAX as int <= r <= COORD_MAX as int,
        -COORD_MAX as int <= x <= COORD_MAX as int ==> r == x,
{
    let b: i128 = COORD_MAX as i128;
    if x > b {
        COORD_MAX
    } else if x < -b {
        -COORD_MAX
    } else {
        x as i64
    }
}

/// The fixed-point tangent of a small-cosine-guarded angle stays bounded.
proof fn lemma_div_floor_small(s: int, c: int)
    requires
        c >= 1_000,
        -2_400_000 <= s <= 2_400_000,
    ensures
        -2_400_000_000 <= fxdiv(s, c) <= 2_400_000_000,
{
    lemma_fdiv_bounds(s * SCALE as int, c);
    assert(-2_400_000_000 <= fdiv(s * SCALE as int, c) <= 2_400_000_000) by (nonlinear_arith)
        requires
            c >= 1_000,
            -2_400_000 <= s <= 2_400_000,
            fdiv(s * SCALE as int, c) * c <= s * (SCALE as int) < (fdiv(s * SCALE as int, c) + 1)
                * c,
            SCALE == 1_000_000i64,
    ;
}

/// Half of a shifted unit-bounded value stays within a few units.
proof fn lemma_half_unit(n: int)
    requires
        -4 * SCALE as int <= n <= 4 * SCALE as int,
    ensures
        -2 * SCALE as int <= fxmul(500_000, n + SCALE) <= 3 * SCALE as int,
        i64::MIN <= fxmul(500_000, n + SCALE) <= i64::MAX,
{
    assert(-1_500_000_000_000 <= 500_000 * (n + SCALE as int) <= 2_500_000_000_000)
        by (nonlinear_arith)
        requires
            -4_000_000 <= n <= 4_000_000,
            SCALE == 1_000_000i64,
    ;
    lemma_fxmul_range(500_000, n + SCALE as int, -1_500_000_000_000, 2_500_000_000_000);
    lemma_fdiv_bounds(2_500_000_000_000, SCALE as int);
    lemma_fdiv_bounds(-1_500_000_000_000, SCALE as int);
}

/// The gradient blend coefficient keeps every term within range.
proof fn lemma_blend_bounds(a: int)
    requires
        -2 * SCALE as int <= a <= 3 * SCALE as int,
    ensures
        -2 * SCALE as int - 1 <= fxmul(a, 1_000_000) <= 3 * SCALE as int,
        -2 * SCALE as int - 1 <= fxmul(a, 700_000) <= 3 * SCALE as int,
        -2 * SCALE as int - 1 <= fxmul(a, 500_000) <= 3 * SCALE as int,
{
    assert(-3_000_000_000_000 <= a * 1_000_000 <= 3_000_000_000_000 && -2_100_000_000_000 <= a
        * 700_000 <= 2_100_000_000_000 && -1_500_000_000_000 <= a * 500_000 <= 1_500_000_000_000)
        by (nonlinear_arith)
        requires
            -2_000_000 <= a <= 3_000_000,
    ;
    lemma_fxmul_range(a, 1_000_000, -3_000_000_000_000, 3_000_000_000_000);
    lemma_fxmul_range(a, 700_000, -2_100_000_000_000, 2_100_000_000_000);
    lemma_fxmul_range(a, 500_000, -1_500_000_000_000, 1_500_000_000_000);
    lemma_fdiv_bounds(3_000_000_000_000, SCALE as int);
    lemma_fdiv_bounds(-3_000_000_000_000, SCALE as int);
    lemma_fdiv_bounds(2_100_000_000_000, SCALE as int);
    lemma_fdiv_bounds(-2_100_000_000_000, SCALE as int);
    lemma_fdiv_bounds(1_500_000_000_000, SCALE as int);
    lemma_fdiv_bounds(-1_500_000_000_000, SCALE as int);
}

} // verus!
