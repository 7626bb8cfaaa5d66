//! Spheres, static or linearly moving, with the standard quadratic
//! intersection.

use vstd::prelude::*;
use crate::aabb::Aabb;
use crate::fx::{
    fdiv, fxmul, fxdiv, sqrt_floor_int, fx_mul, fx_div, floor_div_i128, isqrt_i128,
    lemma_fxmul_range, lemma_fdiv_bounds, lemma_interp_bound, lemma_ratio_unit, lemma_fxdiv_bound,
    SCALE, PI, TWO_PI,
};
use crate::hittable::{HitR, HitRecord, spec_face_normal};
use crate::interval::Interval;
use crate::ray::{Ray, R3};
use crate::vec3::{Point3, Vec3, V3, COORD_MAX};

verus! {

pub struct Sphere {
    pub center1: Point3,
    pub radius: i64,
    pub mat: u32,
    pub is_moving: bool,
    pub center_vec: Vec3,
    pub bbox: Aabb,
}

impl Sphere {
    /// Geometric validity: a nonzero radius within the world bound, and
    /// both endpoints of the centre's path inside the world.
    pub open spec fn wf(self) -> bool {
        &&& self.center1@.wf()
        &&& self.center1@.add(self.center_vec@).wf()
        &&& self.radius != 0
        &&& -COORD_MAX as int <= self.radius <= COORD_MAX as int
    }

    /// The centre at a moment of the exposure: linearly interpolated for a
    /// moving sphere.
    pub open spec fn spec_center(self, time: int) -> V3 {
        if self.is_moving {
            self.center1@.add(self.center_vec@.smul(time))
        } else {
            self.center1@
        }
    }

    /// A sphere at rest.  A negative radius gives an inward-facing surface
    /// (used for hollow glass); zero is rejected.
    pub fn new(center: Point3, radius: i64, mat: u32) -> (r: Self)
        requires
            center@.wf(),
            radius != 0,
            -COORD_MAX as int <= radius <= COORD_MAX as int,
        ensures
            r.wf(),
            r.center1 == center,
            r.radius == radius,
            r.mat == mat,
            r.is_moving == false,
            r.center_vec@ == V3::zero(),
            r.bbox == spec_center_box(center@, radius as int),
    {
        let rvec = Vec3::new(radius, radius, radius);
        let bbox = Aabb::new_from_points(center.sub(rvec), center.add(rvec));
        Self { center1: center, radius, mat, is_moving: false, center_vec: Vec3::new(0, 0, 0), bbox }
    }

    /// A sphere whose centre moves linearly from `center` to `center2`
    /// over the exposure.
    pub fn new_moving(center: Point3, center2: Point3, radius: i64, mat: u32) -> (r: Self)
        requires
            center@.wf(),
            center2@.wf(),
            radius != 0,
            -COORD_MAX as int <= radius <= COORD_MAX as int,
        ensures
            r.wf(),
            r.center1 == center,
            r.radius == radius,
            r.mat == mat,
            r.is_moving == true,
            r.center_vec@ == center2@.sub(center@),
            r.bbox == Aabb::spec_union(
                spec_center_box(center@, radius as int),
                spec_center_box(center2@, radius as int),
            ),
    {
        let rvec = Vec3::new(radius, radius, radius);
        let box1 = Aabb::new_from_points(center.sub(rvec), center.add(rvec));
        let box2 = Aabb::new_from_points(center2.sub(rvec), center2.add(rvec));
        let bbox = Aabb::aabb(box1, box2);
        Self {
            center1: center,
            radius,
            mat,
            is_moving: true,
            center_vec: center2.sub(center),
            bbox,
        }
    }

    /// The centre at a moment of the exposure.
    pub fn center(&self, time: i64) -> (r: Point3)
        requires
            self.wf(),
            0 <= time <= SCALE,
        ensures
            r@ == self.spec_center(time as int),
            r@.bounded(COORD_MAX as int),
    {
        if self.is_moving {
            proof {
                lemma_center_interp(self.center1@, self.center_vec@, time as int);
            }
            self.center1.add(self.center_vec.scale(time))
        } else {
            self.center1
        }
    }

    /// Texture coordinates from the spherical polar angles of a point on
    /// the unit sphere, written into the record.
    pub fn get_sphere_uv(p: Point3, rec: &mut HitRecord)
        requires
            p@.bounded(2 * SCALE as int),
        ensures
            final(rec).u == spec_sphere_uv(p@).0,
            final(rec).v == spec_sphere_uv(p@).1,
            final(rec).p == old(rec).p,
            final(rec).normal == old(rec).normal,
            final(rec).mat == old(rec).mat,
            final(rec).t == old(rec).t,
            final(rec).front_face == old(rec).front_face,
    {
        let w: i64 = if -p.y() > SCALE {
            SCALE
        } else if -p.y() < -SCALE {
            -SCALE
        } else {
            -p.y()
        };
        proof {
            assert(0 <= (w as int) * (w as int) <= 1_000_000_000_000int) by (nonlinear_arith)
                requires
                    -1_000_000 <= w as int <= 1_000_000,
            ;
            lemma_fxmul_range(w as int, w as int, 0, 1_000_000_000_000int);
            crate::fx::lemma_fdiv_ge(0, SCALE as int, 0);
        }
        let ww = fx_mul(w, w);
        let s2: i64 = SCALE - ww;
        proof {
            assert(0 <= s2 as int * (SCALE as int) <= 1_000_000_000_000int + 1) by (nonlinear_arith)
                requires
                    0 <= s2 as int <= 1_000_000,
                    SCALE == 1_000_000i64,
            ;
        }
        let sq128 = isqrt_i128((s2 as i128) * (SCALE as i128));
        proof {
            assert(sq128 <= 2_000_000) by (nonlinear_arith)
                requires
                    sq128 >= 0,
                    sq128 * sq128 <= (s2 as int) * (SCALE as int),
                    0 <= s2 as int <= 1_000_000,
                    SCALE == 1_000_000i64,
            ;
        }
        let sq = sq128 as i64;
        let theta = crate::fx::fx_atan2(sq, w);
        let phi0 = crate::fx::fx_atan2(-p.z(), p.x());
        let phi = phi0 + PI;
        proof {
            lemma_fxdiv_bound(phi as int, TWO_PI as int, 7_000_000);
            lemma_fxdiv_bound(theta as int, PI as int, 7_000_000);
        }
        rec.u = fx_div(phi, TWO_PI);
        rec.v = fx_div(theta, PI);
    }

    /// The quadratic intersection: the nearer root first, then the farther
    /// one, each accepted only strictly inside the search interval.
    pub fn hit(&self, r: Ray, ray_t: Interval, rec: &mut HitRecord) -> (b: bool)
        requires
            self.wf(),
            r@.wf(),
        ensures
            crate::hittable::hit_post(
                spec_sphere_hit(*self, r@, ray_t.min as int, ray_t.max as int),
                b,
                *old(rec),
                *final(rec),
            ),
    {
        let center = self.center(r.time());
        let oc = r.origin().sub(center);
        let a = r.direction().dot(r.direction());
        let half_b = oc.dot(r.direction());
        proof {
            crate::vec3::lemma_dot_bounded(r@.dir, r@.dir, 32_000_000_000, 3_072_000_000_000_000_000_000);
            crate::vec3::lemma_dot_bounded(oc@, r@.dir, 32_000_000_000, 3_072_000_000_000_000_000_000);
            crate::vec3::lemma_dot_bounded(oc@, oc@, 32_000_000_000, 3_072_000_000_000_000_000_000);
            assert(0 <= self.radius as int * (self.radius as int) <= 16_000_000_000_000_000_000int)
                by (nonlinear_arith)
                requires
                    -4_000_000_000 <= self.radius as int <= 4_000_000_000,
            ;
            lemma_fxmul_range(self.radius as int, self.radius as int, 0, 16_000_000_000_000_000_000int);
        }
        let rr = fx_mul(self.radius, self.radius);
        let c = oc.dot(oc) - rr;
        if a <= 0 {
            return false;
        }
        proof {
            let p1 = (half_b as int) * (half_b as int);
            let p2 = (a as int) * (c as int);
            assert(0 <= p1 <= 16_000_000_000_000_000_000_000_000_000_000
                && -16_000_000_000_000_000_000_000_000_000_000 <= p2
                    <= 16_000_000_000_000_000_000_000_000_000_000) by (nonlinear_arith)
                requires
                    -4_000_000_000_000_000 <= half_b as int <= 4_000_000_000_000_000,
                    0 < a as int <= 4_000_000_000_000_000,
                    -4_000_000_000_000_000 <= c as int <= 4_000_000_000_000_000,
                    p1 == (half_b as int) * (half_b as int),
                    p2 == (a as int) * (c as int),
            ;
            crate::fx::lemma_fdiv_mono(p1, 16_000_000_000_000_000_000_000_000_000_000, SCALE as int);
            crate::fx::lemma_fdiv_mono(
                -16_000_000_000_000_000_000_000_000_000_000,
                p2,
                SCALE as int,
            );
            crate::fx::lemma_fdiv_mono(p2, 16_000_000_000_000_000_000_000_000_000_000, SCALE as int);
            crate::fx::lemma_fdiv_mono(0, p1, SCALE as int);
            lemma_fdiv_bounds(16_000_000_000_000_000_000_000_000_000_000, SCALE as int);
            lemma_fdiv_bounds(-16_000_000_000_000_000_000_000_000_000_000, SCALE as int);
            assert(fdiv(0int, SCALE as int) == 0);
        }
        let hb2 = floor_div_i128((half_b as i128) * (half_b as i128), SCALE as i128);
        let ac = floor_div_i128((a as i128) * (c as i128), SCALE as i128);
        let disc: i128 = hb2 - ac;
        if disc < 0 {
            return false;
        }
        let sqrtd = isqrt_i128(disc * (SCALE as i128));
        proof {
            assert(sqrtd <= 6_000_000_000_000_000) by (nonlinear_arith)
                requires
                    sqrtd >= 0,
                    sqrtd * sqrtd <= disc * (SCALE as i128),
                    0 <= disc <= 32_000_000_000_000_000_000_000_000,
                    SCALE == 1_000_000i64,
            ;
        }
        let num1: i128 = -(half_b as i128) - sqrtd;
        let root1 = floor_div_i128(num1 * (SCALE as i128), a as i128);
        if (ray_t.min as i128) < root1 && root1 < (ray_t.max as i128) {
            self.finish(r, root1 as i64, center, rec)
        } else {
            let num2: i128 = -(half_b as i128) + sqrtd;
            let root2 = floor_div_i128(num2 * (SCALE as i128), a as i128);
            if (ray_t.min as i128) < root2 && root2 < (ray_t.max as i128) {
                self.finish(r, root2 as i64, center, rec)
            } else {
                false
            }
        }
    }

    /// Builds the record for an accepted root: the reached point must stay
    /// in the world and inside the sphere's bounds (a rounding guard), the
    /// outward normal is the offset from the centre over the radius.
    ///
    /// The guard pins the point componentwise within the radius of the
    /// centre — the circumscribed box — which is what the traversal
    /// equivalence needs.  How far the point sits off the exact sphere
    /// surface is not bounded by the contract: the root of the quadratic
    /// carries the floor errors of the discriminant divided by the squared
    /// direction length, so a direction near the grid's resolution can
    /// amplify them.
    fn finish(&self, r: Ray, root: i64, center: Point3, rec: &mut HitRecord) -> (b: bool)
        requires
            self.wf(),
            r@.wf(),
            center@ == self.spec_center(r@.time),
            center@.bounded(COORD_MAX as int),
        ensures
            crate::hittable::hit_post(
                spec_sphere_finish(*self, r@, root as int),
                b,
                *old(rec),
                *final(rec),
            ),
    {
        let p_opt = r.at_bounded(root);
        let p = match p_opt {
            None => {
                return false;
            },
            Some(p) => p,
        };
        let ra: i64 = if self.radius >= 0 {
            self.radius
        } else {
            -self.radius
        };
        let dx = p.x() - center.x();
        let dy = p.y() - center.y();
        let dz = p.z() - center.z();
        if !(-ra <= dx && dx <= ra && -ra <= dy && dy <= ra && -ra <= dz && dz <= ra) {
            return false;
        }
        if !self.bbox.contains_point(p) {
            return false;
        }
        proof {
            lemma_ratio_unit(dx as int, self.radius as int);
            lemma_ratio_unit(dy as int, self.radius as int);
            lemma_ratio_unit(dz as int, self.radius as int);
        }
        let outward_normal = p.sub(center).div(self.radius);
        rec.t = root;
        rec.p = p;
        rec.set_face_normal(r, outward_normal);
        Self::get_sphere_uv(outward_normal, rec);
        rec.mat = self.mat;
        true
    }

    /// The conservative bound: the union of the boxes around both
    /// endpoints of the centre's path.
    pub fn bounding_box(&self) -> (r: Aabb)
        ensures
            r == self.bbox,
    {
        self.bbox
    }
}

/// The axis-aligned box around a centre with a (possibly negative) radius.
pub open spec fn spec_center_box(c: V3, radius: int) -> Aabb {
    let ra = if radius >= 0 {
        radius
    } else {
        -radius
    };
    Aabb {
        x: Interval { min: (c.x - ra) as i64, max: (c.x + ra) as i64 },
        y: Interval { min: (c.y - ra) as i64, max: (c.y + ra) as i64 },
        z: Interval { min: (c.z - ra) as i64, max: (c.z + ra) as i64 },
    }
}

/// Texture coordinates from the spherical polar angles: `u` from the
/// azimuth, `v` from the inclination.
pub open spec fn spec_sphere_uv(p: V3) -> (int, int) {
    let w = if -p.y > SCALE as int {
        SCALE as int
    } else if -p.y < -SCALE as int {
        -SCALE as int
    } else {
        -p.y
    };
    let s2 = SCALE as int - fxmul(w, w);
    let sq = sqrt_floor_int(s2 * SCALE as int);
    let theta = crate::fx::spec_atan2(sq, w);
    let phi = crate::fx::spec_atan2(-p.z, p.x) + PI;
    (fxdiv(phi, TWO_PI as int), fxdiv(theta, PI as int))
}

/// What a hit record holds once a root is accepted; `None` when the
/// reached point fails the rounding guards.
pub open spec fn spec_sphere_finish(s: Sphere, r: R3, root: int) -> Option<HitR> {
    let center = s.spec_center(r.time);
    let p = r.at(root);
    let ra = if s.radius >= 0 {
        s.radius as int
    } else {
        -s.radius as int
    };
    if !p.bounded(4 * COORD_MAX as int) {
        None
    } else if !(center.x - ra <= p.x <= center.x + ra && center.y - ra <= p.y <= center.y + ra
        && center.z - ra <= p.z <= center.z + ra) {
        None
    } else if !s.bbox.spec_contains_point(p) {
        None
    } else {
        let outward_normal = p.sub(center).sdiv(s.radius as int);
        let fr = spec_face_normal(r, outward_normal);
        let uv = spec_sphere_uv(outward_normal);
        Some(
            HitR {
                p,
                normal: fr.1,
                mat: s.mat,
                t: root,
                u: uv.0,
                v: uv.1,
                front_face: fr.0,
            },
        )
    }
}

/// The quadratic intersection, exactly as the executable code computes it.
pub open spec fn spec_sphere_hit(s: Sphere, r: R3, lo: int, hi: int) -> Option<HitR> {
    let center = s.spec_center(r.time);
    let oc = r.orig.sub(center);
    let a = r.dir.dot(r.dir);
    let half_b = oc.dot(r.dir);
    let c = oc.dot(oc) - fxmul(s.radius as int, s.radius as int);
    if a <= 0 {
        None
    } else {
        let disc = fxmul(half_b, half_b) - fxmul(a, c);
        if disc < 0 {
            None
        } else {
            let sqrtd = sqrt_floor_int(disc * SCALE as int);
            let root1 = fxdiv(-half_b - sqrtd, a);
            if lo < root1 < hi {
                spec_sphere_finish(s, r, root1)
            } else {
                let root2 = fxdiv(-half_b + sqrtd, a);
                if lo < root2 < hi {
                    spec_sphere_finish(s, r, root2)
                } else {
                    None
                }
            }
        }
    }
}

/// The interpolated centre keeps every component between the path's
/// endpoints, so it stays inside the world bound.
proof fn lemma_center_interp(c1: V3, cv: V3, time: int)
    requires
        c1.wf(),
        c1.add(cv).wf(),
        0 <= time <= SCALE as int,
    ensures
        c1.add(cv.smul(time)).bounded(COORD_MAX as int),
        i64::MIN <= fxmul(time, cv.x) <= i64::MAX,
        i64::MIN <= fxmul(time, cv.y) <= i64::MAX,
        i64::MIN <= fxmul(time, cv.z) <= i64::MAX,
        i64::MIN <= c1.x + fxmul(time, cv.x) <= i64::MAX,
        i64::MIN <= c1.y + fxmul(time, cv.y) <= i64::MAX,
        i64::MIN <= c1.z + fxmul(time, cv.z) <= i64::MAX,
{
    lemma_interp_bound(time, cv.x);
    lemma_interp_bound(time, cv.y);
    lemma_interp_bound(time, cv.z);
}


/// A ray from outside a resting sphere, aimed straight through its centre
/// along an axis with a unit direction, hits at exactly the distance to
/// the centre minus the radius — the nearer root — whenever the search
/// interval surrounds that value.  Stated on the millesimal grid, where
/// the fixed-point quadratic is exact.
pub proof fn lemma_axial_sphere_hit(s: Sphere, r: R3, lo: int, hi: int, k: int, q: int)
    requires
        s.wf(),
        !s.is_moving,
        s.radius == 1000 * q,
        q >= 1,
        k > q,
        s.bbox == spec_center_box(s.center1@, s.radius as int),
        r.orig == (V3 { x: s.center1@.x - 1000 * k, y: s.center1@.y, z: s.center1@.z }),
        r.dir == (V3 { x: SCALE as int, y: 0, z: 0 }),
        r.orig.bounded(4 * COORD_MAX as int),
        lo < 1000 * k - 1000 * q < hi,
    ensures
        spec_sphere_hit(s, r, lo, hi) matches Some(rec) && rec.t == 1000 * k - 1000 * q,
{
    let sc = SCALE as int;
    let dist = 1000 * k;
    let rad = 1000 * q;
    let kk = k * k;
    let qq = q * q;
    let center = s.spec_center(r.time);
    assert(center == s.center1@);
    let oc = r.orig.sub(center);
    assert(oc == (V3 { x: -dist, y: 0, z: 0 }));
    assert(r.dir.dot_raw(r.dir) == sc * sc && oc.dot_raw(r.dir) == -dist * sc && oc.dot_raw(oc)
        == kk * sc && rad * rad == qq * sc && s.radius as int * (s.radius as int) == qq * sc)
        by (nonlinear_arith)
        requires
            oc == (V3 { x: -(1000 * k), y: 0, z: 0 }),
            r.dir == (V3 { x: sc, y: 0, z: 0 }),
            dist == 1000 * k,
            rad == 1000 * q,
            s.radius == 1000 * q,
            kk == k * k,
            qq == q * q,
            sc == 1_000_000,
    ;
    crate::fx::lemma_fdiv_multiple(sc, sc);
    let a = r.dir.dot(r.dir);
    assert(a == sc);
    crate::fx::lemma_fdiv_multiple(-dist, sc);
    let half_b = oc.dot(r.dir);
    assert(half_b == -dist);
    crate::fx::lemma_fdiv_multiple(kk, sc);
    assert(oc.dot(oc) == kk);
    crate::fx::lemma_fdiv_multiple(qq, sc);
    assert(fxmul(s.radius as int, s.radius as int) == qq);
    let c = oc.dot(oc) - fxmul(s.radius as int, s.radius as int);
    assert(c == kk - qq);
    assert(half_b * half_b == kk * sc && a * c == (kk - qq) * sc) by (nonlinear_arith)
        requires
            half_b == -(1000 * k),
            kk == k * k,
            a == sc,
            c == kk - qq,
            sc == 1_000_000,
    ;
    crate::fx::lemma_fdiv_multiple(kk - qq, sc);
    let disc = fxmul(half_b, half_b) - fxmul(a, c);
    assert(disc == qq);
    assert(disc * sc == rad * rad && rad >= 1 && (rad as nat) * (rad as nat) <= ((rad * rad) as nat)
        < ((rad + 1) as nat) * (((rad + 1)) as nat)) by (nonlinear_arith)
        requires
            disc == qq,
            rad * rad == qq * 1_000_000,
            rad == 1000 * q,
            q >= 1,
            qq == q * q,
            sc == 1_000_000,
    ;
    crate::fx::lemma_sqrt_floor_unique((disc * sc) as nat, rad as nat);
    let sqrtd = sqrt_floor_int(disc * sc);
    assert(sqrtd == rad);
    assert((-half_b - sqrtd) * sc == (dist - rad) * sc) by (nonlinear_arith)
        requires
            half_b == -dist,
            sqrtd == rad,
    ;
    crate::fx::lemma_fdiv_multiple(dist - rad, sc);
    let root1 = fxdiv(-half_b - sqrtd, a);
    assert(root1 == dist - rad);
    lemma_axial_finish(s, r, k, q);
}

/// The record the axial hit builds: the reached point is exactly on the
/// near face of the sphere's box, so every guard passes.
proof fn lemma_axial_finish(s: Sphere, r: R3, k: int, q: int)
    requires
        s.wf(),
        !s.is_moving,
        s.radius == 1000 * q,
        q >= 1,
        k > q,
        s.bbox == spec_center_box(s.center1@, s.radius as int),
        r.orig == (V3 { x: s.center1@.x - 1000 * k, y: s.center1@.y, z: s.center1@.z }),
        r.dir == (V3 { x: SCALE as int, y: 0, z: 0 }),
        r.orig.bounded(4 * COORD_MAX as int),
    ensures
        spec_sphere_finish(s, r, 1000 * k - 1000 * q) matches Some(rec) && rec.t == 1000 * k - 1000
            * q,
{
    let sc = SCALE as int;
    let root = 1000 * k - 1000 * q;
    let center = s.spec_center(r.time);
    crate::fx::lemma_fdiv_multiple(root, sc);
    assert(fxmul(root, sc) == root);
    crate::fx::lemma_fdiv_multiple(0, sc);
    assert(root * 0 == 0 && 0 * sc == 0) by (nonlinear_arith);
    assert(fxmul(root, 0) == 0);
    let p = r.at(root);
    assert(p == (V3 {
        x: s.center1@.x - 1000 * q,
        y: s.center1@.y,
        z: s.center1@.z,
    }));
    assert(p.bounded(4 * COORD_MAX as int));
}


/// The narrowing law for the sphere: shrinking the top of the interval
/// keeps exactly the hits whose parameter clears the new top.  Rests on
/// the nearer root never exceeding the farther one.
pub proof fn lemma_sphere_narrow(s: Sphere, r: R3, lo: int, hi: int, hi2: int)
    requires
        s.wf(),
        hi2 <= hi,
    ensures
        spec_sphere_hit(s, r, lo, hi2) == crate::hittable::spec_narrow(
            spec_sphere_hit(s, r, lo, hi),
            hi2,
        ),
{
    let center = s.spec_center(r.time);
    let oc = r.orig.sub(center);
    let a = r.dir.dot(r.dir);
    let half_b = oc.dot(r.dir);
    let c = oc.dot(oc) - fxmul(s.radius as int, s.radius as int);
    if a <= 0 {
    } else {
        let disc = fxmul(half_b, half_b) - fxmul(a, c);
        if disc < 0 {
        } else {
            let sqrtd = sqrt_floor_int(disc * SCALE);
            assert(sqrtd >= 0) by {
                if disc * SCALE > 0 {
                    crate::fx::lemma_sqrt_floor_bounds((disc * SCALE) as nat);
                }
            }
            let root1 = fxdiv(-half_b - sqrtd, a);
            let root2 = fxdiv(-half_b + sqrtd, a);
            assert(root1 <= root2) by {
                crate::fx::lemma_fdiv_mono(
                    (-half_b - sqrtd) * SCALE,
                    (-half_b + sqrtd) * SCALE,
                    a,
                );
                assert((-half_b - sqrtd) * SCALE <= (-half_b + sqrtd) * SCALE)
                    by (nonlinear_arith)
                    requires
                        sqrtd >= 0,
                        SCALE == 1_000_000i64,
                ;
            }
            match spec_sphere_finish(s, r, root1) {
                Some(rec1) => {
                    assert(rec1.t == root1);
                },
                None => {},
            }
            match spec_sphere_finish(s, r, root2) {
                Some(rec2) => {
                    assert(rec2.t == root2);
                },
                None => {},
            }
        }
    }
}

} // verus!
