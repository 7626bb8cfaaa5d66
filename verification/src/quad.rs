//! Planar quadrilaterals, and box solids assembled from six of them.

use vstd::prelude::*;
use crate::aabb::Aabb;
use crate::fx::{
    fdiv, fxmul, fxdiv, floor_div_i128, lemma_fdiv_bounds, lemma_fdiv_mono, SCALE,
};
use crate::hittable::{HitR, HitRecord, Hittable, spec_face_normal, hit_post};
use crate::hittable_list::HittableList;
use crate::interval::Interval;
use crate::ray::{Ray, R3};
use crate::vec3::{Point3, Vec3, V3, COORD_MAX};

verus! {

pub struct Quad {
    pub q: Point3,
    pub u: Vec3,
    pub v: Vec3,
    pub w: Vec3,
    pub normal: Vec3,
    pub d: i64,
    pub mat: u32,
    pub bbox: Aabb,
}

impl Quad {
    /// Geometric validity: corner and edges inside the world, the cached
    /// plane data within the bounds the intersection arithmetic needs.
    pub open spec fn wf(self) -> bool {
        &&& self.q@.wf()
        &&& self.u@.wf()
        &&& self.v@.wf()
        &&& self.normal@.bounded(SCALE as int)
        &&& self.w@.bounded(40_000_000_000_000)
        &&& -1_000_000_000_000_000 <= self.d <= 1_000_000_000_000_000
    }

    /// A quadrilateral from a corner point and two edge vectors.  The
    /// edges must span at least a unit of area: below that, the
    /// fixed-point plane basis `w = n / (n . n)` loses all precision, a
    /// machine limit of the millionth-scale grid rather than a geometric
    /// restriction.
    pub fn new(q: Point3, u: Vec3, v: Vec3, mat: u32) -> (r: Self)
        requires
            q@.wf(),
            u@.wf(),
            v@.wf(),
            V3::dot(u@.cross(v@), u@.cross(v@)) >= SCALE as int,
        ensures
            r.wf(),
            r.q == q,
            r.u == u,
            r.v == v,
            r.mat == mat,
            r.normal@ == u@.cross(v@).unit(),
            r.d == r.normal@.dot(q@),
            r.w@.x == fxdiv(u@.cross(v@).x, V3::dot(u@.cross(v@), u@.cross(v@))),
            r.w@.y == fxdiv(u@.cross(v@).y, V3::dot(u@.cross(v@), u@.cross(v@))),
            r.w@.z == fxdiv(u@.cross(v@).z, V3::dot(u@.cross(v@), u@.cross(v@))),
            r.bbox == spec_quad_bbox(q@, u@, v@),
    {
        proof {
            crate::vec3::lemma_smul_bounded(v@, u@.x, 4_000_000_000, 4_000_000_000, 16_000_000_000_000_000_000);
            crate::vec3::lemma_smul_bounded(v@, u@.y, 4_000_000_000, 4_000_000_000, 16_000_000_000_000_000_000);
            crate::vec3::lemma_smul_bounded(v@, u@.z, 4_000_000_000, 4_000_000_000, 16_000_000_000_000_000_000);
            crate::vec3::lemma_smul_bounded(u@, v@.x, 4_000_000_000, 4_000_000_000, 16_000_000_000_000_000_000);
            crate::vec3::lemma_smul_bounded(u@, v@.y, 4_000_000_000, 4_000_000_000, 16_000_000_000_000_000_000);
            crate::vec3::lemma_smul_bounded(u@, v@.z, 4_000_000_000, 4_000_000_000, 16_000_000_000_000_000_000);
        }
        let n = u.cross(v);
        proof {
            let raw = n@.dot_raw(n@);
            crate::fx::lemma_fdiv_ge(raw, SCALE as int, SCALE as int);
            assert(raw >= SCALE as int * SCALE as int);
            crate::vec3::lemma_len2_pos_implies_len_pos(n@);
            crate::fx::lemma_fdiv_ge(raw, SCALE as int, 1);
        }
        let normal = n.unit_vector();
        proof {
            crate::vec3::lemma_dot_bounded(normal@, q@, 16_000_000_000, 768_000_000_000_000_000_000);
        }
        let d = normal.dot(q);
        proof {
            crate::vec3::lemma_dot_bounded(n@, n@, 40_000_000_000_000, 4_800_000_000_000_000_000_000_000_000);
        }
        let nn_raw = dot_wide(n, n);
        let nn = floor_div_i128(nn_raw, SCALE as i128);
        proof {
            assert(nn >= SCALE as int) by {
                crate::fx::lemma_fdiv_ge(n@.dot_raw(n@), SCALE as int, SCALE as int);
            }
            lemma_w_component(n@.x, nn as int);
            lemma_w_component(n@.y, nn as int);
            lemma_w_component(n@.z, nn as int);
        }
        let wx = floor_div_i128((n.x() as i128) * (SCALE as i128), nn);
        let wy = floor_div_i128((n.y() as i128) * (SCALE as i128), nn);
        let wz = floor_div_i128((n.z() as i128) * (SCALE as i128), nn);
        let w = Vec3::new(wx as i64, wy as i64, wz as i64);
        let mut quad = Self {
            q,
            u,
            v,
            w,
            normal,
            d,
            mat,
            bbox: Aabb::new(
                Interval::new(0, 0),
                Interval::new(0, 0),
                Interval::new(0, 0),
            ),
        };
        quad.set_bounding_box();
        quad
    }

    /// Recomputes the cached bound from the corner and edges: the padded
    /// box spanned by the corner and the far corner.
    pub fn set_bounding_box(&mut self)
        requires
            old(self).q@.wf(),
            old(self).u@.wf(),
            old(self).v@.wf(),
        ensures
            final(self).bbox == spec_quad_bbox(old(self).q@, old(self).u@, old(self).v@),
            final(self).q == old(self).q,
            final(self).u == old(self).u,
            final(self).v == old(self).v,
            final(self).w == old(self).w,
            final(self).normal == old(self).normal,
            final(self).d == old(self).d,
            final(self).mat == old(self).mat,
    {
        let far = self.q.add(self.u).add(self.v);
        self.bbox = Aabb::new_from_points(self.q, far).pad();
    }

    /// The plane test and the interior test, exactly as specified by
    /// `spec_quad_hit`.  The parameter must lie strictly inside the search
    /// interval — the same exclusive test every other primitive uses.  On
    /// the integer grid that uniformity is load-bearing: the narrowed
    /// traversal of the hierarchy agrees with the exhaustive scan only
    /// when no primitive accepts a parameter exactly at an interval
    /// endpoint.  (It differs from an inclusive test only when a hit falls
    /// exactly on an endpoint, which over the reals has measure zero.)
    pub fn hit(&self, r: Ray, ray_t: Interval, rec: &mut HitRecord) -> (b: bool)
        requires
            self.wf(),
            r@.wf(),
        ensures
            hit_post(
                spec_quad_hit(*self, r@, ray_t.min as int, ray_t.max as int),
                b,
                *old(rec),
                *final(rec),
            ),
    {
        proof {
            crate::vec3::lemma_dot_bounded(
                self.normal@,
                r@.dir,
                16_000_000_000,
                768_000_000_000_000_000_000,
            );
            crate::vec3::lemma_dot_bounded(
                self.normal@,
                r@.orig,
                16_000_000_000,
                768_000_000_000_000_000_000,
            );
        }
        let denom = self.normal.dot(r.direction());
        if denom == 0 {
            return false;
        }
        let num: i64 = self.d - self.normal.dot(r.origin());
        let t128 = if denom > 0 {
            floor_div_i128((num as i128) * (SCALE as i128), denom as i128)
        } else {
            floor_div_i128(-((num as i128) * (SCALE as i128)), -(denom as i128))
        };
        if !((ray_t.min as i128) < t128 && t128 < (ray_t.max as i128)) {
            return false;
        }
        let t = t128 as i64;
        let intersection = match r.at_bounded(t) {
            None => {
                return false;
            },
            Some(p) => p,
        };
        let planar_hitpt_vector = intersection.sub(self.q);
        proof {
            crate::vec3::lemma_smul_bounded(
                self.v@,
                planar_hitpt_vector@.x,
                32_000_000_000,
                32_000_000_000,
                1_024_000_000_000_000_000_000,
            );
            crate::vec3::lemma_smul_bounded(
                self.v@,
                planar_hitpt_vector@.y,
                32_000_000_000,
                32_000_000_000,
                1_024_000_000_000_000_000_000,
            );
            crate::vec3::lemma_smul_bounded(
                self.v@,
                planar_hitpt_vector@.z,
                32_000_000_000,
                32_000_000_000,
                1_024_000_000_000_000_000_000,
            );
            crate::vec3::lemma_smul_bounded(
                planar_hitpt_vector@,
                self.u@.x,
                32_000_000_000,
                32_000_000_000,
                1_024_000_000_000_000_000_000,
            );
            crate::vec3::lemma_smul_bounded(
                planar_hitpt_vector@,
                self.u@.y,
                32_000_000_000,
                32_000_000_000,
                1_024_000_000_000_000_000_000,
            );
            crate::vec3::lemma_smul_bounded(
                planar_hitpt_vector@,
                self.u@.z,
                32_000_000_000,
                32_000_000_000,
                1_024_000_000_000_000_000_000,
            );
        }
        let pc = planar_hitpt_vector.cross(self.v);
        let cp = self.u.cross(planar_hitpt_vector);
        let alpha = floor_div_i128(dot_wide(self.w, pc), SCALE as i128);
        let beta = floor_div_i128(dot_wide(self.w, cp), SCALE as i128);
        if !(0 <= alpha && alpha <= SCALE as i128 && 0 <= beta && beta <= SCALE as i128) {
            return false;
        }
        if !self.bbox.contains_point(intersection) {
            return false;
        }
        rec.u = alpha as i64;
        rec.v = beta as i64;
        rec.t = t;
        rec.p = intersection;
        rec.mat = self.mat;
        rec.set_face_normal(r, self.normal);
        true
    }

    /// The conservative bound.
    pub fn bounding_box(&self) -> (r: Aabb)
        ensures
            r == self.bbox,
    {
        self.bbox
    }
}

/// The padded box spanned by the corner and the far corner.
pub open spec fn spec_quad_bbox(q: V3, u: V3, v: V3) -> Aabb {
    let far = q.add(u).add(v);
    let unpadded = Aabb {
        x: Interval {
            min: (if q.x <= far.x {
                q.x
            } else {
                far.x
            }) as i64,
            max: (if q.x >= far.x {
                q.x
            } else {
                far.x
            }) as i64,
        },
        y: Interval {
            min: (if q.y <= far.y {
                q.y
            } else {
                far.y
            }) as i64,
            max: (if q.y >= far.y {
                q.y
            } else {
                far.y
            }) as i64,
        },
        z: Interval {
            min: (if q.z <= far.z {
                q.z
            } else {
                far.z
            }) as i64,
            max: (if q.z >= far.z {
                q.z
            } else {
                far.z
            }) as i64,
        },
    };
    Aabb {
        x: crate::aabb::spec_pad_axis(unpadded.x),
        y: crate::aabb::spec_pad_axis(unpadded.y),
        z: crate::aabb::spec_pad_axis(unpadded.z),
    }
}

/// The plane hit and interior test, exactly as the executable code
/// computes them: reject parallel rays, solve for the plane parameter,
/// test the planar coordinates against `[0, 1]`, and guard the reached
/// point against the cached bound.
pub open spec fn spec_quad_hit(quad: Quad, r: R3, lo: int, hi: int) -> Option<HitR> {
    let denom = quad.normal@.dot(r.dir);
    if denom == 0 {
        None
    } else {
        let t = fxdiv(quad.d - quad.normal@.dot(r.orig), denom);
        if !(lo < t < hi) {
            None
        } else {
            let p = r.at(t);
            if !p.bounded(4 * COORD_MAX as int) {
                None
            } else {
                let planar = p.sub(quad.q@);
                let alpha = quad.w@.dot(planar.cross(quad.v@));
                let beta = quad.w@.dot(quad.u@.cross(planar));
                if !(0 <= alpha <= SCALE as int && 0 <= beta <= SCALE as int) {
                    None
                } else if !quad.bbox.spec_contains_point(p) {
                    None
                } else {
                    let fr = spec_face_normal(r, quad.normal@);
                    Some(
                        HitR {
                            p,
                            normal: fr.1,
                            mat: quad.mat,
                            t,
                            u: alpha,
                            v: beta,
                            front_face: fr.0,
                        },
                    )
                }
            }
        }
    }
}

/// The raw inner product with one very wide operand, in 128-bit
/// arithmetic.
fn dot_wide(a: Vec3, b: Vec3) -> (r: i128)
    requires
        a@.bounded(0x4000_0000_0000_0000),
        b@.bounded(0x10_0000_0000_0000),
    ensures
        r == a@.dot_raw(b@),
{
    proof {
        assert(-0x4_0000_0000_0000_0000_0000_0000_0000 <= (a.x as int) * (b.x as int)
            <= 0x4_0000_0000_0000_0000_0000_0000_0000
            && -0x4_0000_0000_0000_0000_0000_0000_0000 <= (a.y as int) * (b.y as int)
            <= 0x4_0000_0000_0000_0000_0000_0000_0000
            && -0x4_0000_0000_0000_0000_0000_0000_0000 <= (a.z as int) * (b.z as int)
            <= 0x4_0000_0000_0000_0000_0000_0000_0000) by (nonlinear_arith)
            requires
                -0x4000_0000_0000_0000 <= a.x as int <= 0x4000_0000_0000_0000,
                -0x4000_0000_0000_0000 <= a.y as int <= 0x4000_0000_0000_0000,
                -0x4000_0000_0000_0000 <= a.z as int <= 0x4000_0000_0000_0000,
                -0x10_0000_0000_0000 <= b.x as int <= 0x10_0000_0000_0000,
                -0x10_0000_0000_0000 <= b.y as int <= 0x10_0000_0000_0000,
                -0x10_0000_0000_0000 <= b.z as int <= 0x10_0000_0000_0000,
        ;
    }
    (a.x() as i128) * (b.x() as i128) + (a.y() as i128) * (b.y() as i128) + (a.z() as i128) * (
    b.z() as i128)
}

/// A plane-basis component `n_i / (n . n)` keeps the magnitude of the
/// cross product when the squared length is at least one.
proof fn lemma_w_component(c: int, nn: int)
    requires
        nn >= SCALE as int,
        -40_000_000_000_000 <= c <= 40_000_000_000_000,
    ensures
        -40_000_000_000_000 <= fdiv(c * SCALE as int, nn) <= 40_000_000_000_000,
{
    lemma_fdiv_bounds(c * SCALE as int, nn);
    assert(-40_000_000_000_000 <= fdiv(c * SCALE as int, nn) <= 40_000_000_000_000)
        by (nonlinear_arith)
        requires
            nn >= 1_000_000,
            -40_000_000_000_000 <= c <= 40_000_000_000_000,
            fdiv(c * SCALE as int, nn) * nn <= c * (SCALE as int) < (fdiv(c * SCALE as int, nn) + 1)
                * nn,
            SCALE == 1_000_000i64,
    ;
}

/// The lower corner of the axis-aligned box spanned by two points.
pub open spec fn spec_box_corner_min(a: V3, b: V3) -> V3 {
    V3 {
        x: if a.x <= b.x { a.x } else { b.x },
        y: if a.y <= b.y { a.y } else { b.y },
        z: if a.z <= b.z { a.z } else { b.z },
    }
}

/// The upper corner of the axis-aligned box spanned by two points.
pub open spec fn spec_box_corner_max(a: V3, b: V3) -> V3 {
    V3 {
        x: if a.x >= b.x { a.x } else { b.x },
        y: if a.y >= b.y { a.y } else { b.y },
        z: if a.z >= b.z { a.z } else { b.z },
    }
}

/// The corner and edge pair of one face of a box solid, in the order the
/// builder lays them out: front, right, back, left, top, bottom.
pub open spec fn spec_box_face(i: int, a: V3, b: V3) -> (V3, V3, V3) {
    let mn = spec_box_corner_min(a, b);
    let mx = spec_box_corner_max(a, b);
    let dx = V3 { x: mx.x - mn.x, y: 0, z: 0 };
    let dy = V3 { x: 0, y: mx.y - mn.y, z: 0 };
    let dz = V3 { x: 0, y: 0, z: mx.z - mn.z };
    if i == 0 {
        (V3 { x: mn.x, y: mn.y, z: mx.z }, dx, dy)
    } else if i == 1 {
        (V3 { x: mx.x, y: mn.y, z: mx.z }, dz.neg(), dy)
    } else if i == 2 {
        (V3 { x: mx.x, y: mn.y, z: mn.z }, dx.neg(), dy)
    } else if i == 3 {
        (V3 { x: mn.x, y: mn.y, z: mn.z }, dz, dy)
    } else if i == 4 {
        (V3 { x: mn.x, y: mx.y, z: mx.z }, dx, dz.neg())
    } else {
        (V3 { x: mn.x, y: mn.y, z: mn.z }, dx, dz)
    }
}

/// A box solid: a list of exactly six quadrilaterals on the faces of the
/// axis-aligned box between two opposite corners, all sharing one
/// material, with a cached bound that contains both corners.  Each pair of
/// extents must span at least a unit of area so that every face is a valid
/// quadrilateral.
pub fn box_solid(a: Point3, b: Point3, mat: u32) -> (r: Hittable)
    requires
        a@.wf(),
        b@.wf(),
        spec_box_faces_valid(a@, b@),
    ensures
        r.wf(),
        r matches Hittable::List(l) && {
            &&& l.objects@.len() == 6
            &&& forall|i: int|
                0 <= i < 6 ==> ((#[trigger] l.objects@[i]) matches Hittable::Quad(face)
                    && face.q@ == spec_box_face(i, a@, b@).0 && face.u@ == spec_box_face(
                    i,
                    a@,
                    b@,
                ).1 && face.v@ == spec_box_face(i, a@, b@).2 && face.mat == mat)
            &&& l.bbox.spec_contains_point(a@)
            &&& l.bbox.spec_contains_point(b@)
        },
{
    let min = Vec3::new(
        crate::fx::imin(a.x(), b.x()),
        crate::fx::imin(a.y(), b.y()),
        crate::fx::imin(a.z(), b.z()),
    );
    let max = Vec3::new(
        crate::fx::imax(a.x(), b.x()),
        crate::fx::imax(a.y(), b.y()),
        crate::fx::imax(a.z(), b.z()),
    );
    let dx = Vec3::new(max.x() - min.x(), 0, 0);
    let dy = Vec3::new(0, max.y() - min.y(), 0);
    let dz = Vec3::new(0, 0, max.z() - min.z());
    let mut sides = HittableList::default();
    let front = Quad::new(Vec3::new(min.x(), min.y(), max.z()), dx, dy, mat);
    sides.add(Hittable::Quad(front));
    let right = Quad::new(Vec3::new(max.x(), min.y(), max.z()), dz.neg(), dy, mat);
    sides.add(Hittable::Quad(right));
    let back = Quad::new(Vec3::new(max.x(), min.y(), min.z()), dx.neg(), dy, mat);
    sides.add(Hittable::Quad(back));
    let left = Quad::new(Vec3::new(min.x(), min.y(), min.z()), dz, dy, mat);
    sides.add(Hittable::Quad(left));
    let top = Quad::new(Vec3::new(min.x(), max.y(), max.z()), dx, dz.neg(), mat);
    sides.add(Hittable::Quad(top));
    let bottom = Quad::new(Vec3::new(min.x(), min.y(), min.z()), dx, dz, mat);
    sides.add(Hittable::Quad(bottom));
    proof {
        let objs = sides.objects@;
        assert(objs[0] == Hittable::Quad(front));
        assert(objs[1] == Hittable::Quad(right));
        assert(objs[2] == Hittable::Quad(back));
        assert(objs[3] == Hittable::Quad(left));
        assert(objs[4] == Hittable::Quad(top));
        assert(objs[5] == Hittable::Quad(bottom));
        assert(sides.wf());
        assert(sides.bbox.spec_contains_box(front.bbox));
        assert(sides.bbox.spec_contains_box(bottom.bbox));
        lemma_pad_axis_widens(
            Interval {
                min: spec_box_corner_min(a@, b@).x as i64,
                max: spec_box_corner_max(a@, b@).x as i64,
            },
        );
        lemma_pad_axis_widens(
            Interval {
                min: spec_box_corner_min(a@, b@).y as i64,
                max: spec_box_corner_max(a@, b@).y as i64,
            },
        );
        lemma_pad_axis_widens(
            Interval {
                min: spec_box_corner_min(a@, b@).z as i64,
                max: spec_box_corner_max(a@, b@).z as i64,
            },
        );
    }
    Hittable::List(sides)
}

/// A padded axis contains the axis it padded.
pub proof fn lemma_pad_axis_widens(iv: Interval)
    requires
        -0x1000_0000_0000_0000 <= iv.min <= 0x1000_0000_0000_0000,
        -0x1000_0000_0000_0000 <= iv.max <= 0x1000_0000_0000_0000,
    ensures
        crate::aabb::spec_pad_axis(iv).min <= iv.min,
        crate::aabb::spec_pad_axis(iv).max >= iv.max,
{
}

/// Each face of a box solid spans at least a unit of area: the squared
/// cross product of its edge pair clears one.
pub open spec fn spec_box_faces_valid(a: V3, b: V3) -> bool {
    let wx = if a.x >= b.x {
        a.x - b.x
    } else {
        b.x - a.x
    };
    let wy = if a.y >= b.y {
        a.y - b.y
    } else {
        b.y - a.y
    };
    let wz = if a.z >= b.z {
        a.z - b.z
    } else {
        b.z - a.z
    };
    let dx = V3 { x: wx, y: 0, z: 0 };
    let dy = V3 { x: 0, y: wy, z: 0 };
    let dz = V3 { x: 0, y: 0, z: wz };
    &&& wx <= COORD_MAX as int
    &&& wy <= COORD_MAX as int
    &&& wz <= COORD_MAX as int
    &&& V3::dot(dx.cross(dy), dx.cross(dy)) >= SCALE as int
    &&& V3::dot(dz.neg().cross(dy), dz.neg().cross(dy)) >= SCALE as int
    &&& V3::dot(dx.neg().cross(dy), dx.neg().cross(dy)) >= SCALE as int
    &&& V3::dot(dz.cross(dy), dz.cross(dy)) >= SCALE as int
    &&& V3::dot(dx.cross(dz.neg()), dx.cross(dz.neg())) >= SCALE as int
    &&& V3::dot(dx.cross(dz), dx.cross(dz)) >= SCALE as int
}


/// The product with a zero factor is zero.
pub proof fn lemma_fxmul_zero(x: int)
    ensures
        fxmul(0, x) == 0,
        fxmul(x, 0) == 0,
{
    crate::fx::lemma_fdiv_multiple(0, SCALE as int);
    assert(0 * x == 0) by (nonlinear_arith);
    assert(x * 0 == 0) by (nonlinear_arith);
    assert(0 * (SCALE as int) == 0) by (nonlinear_arith);
}

/// A scaled product of magnitude at least one square unit clears one unit.
pub proof fn lemma_fxmul_unit(a: int, b: int)
    ensures
        a * b >= 1_000_000_000_000 ==> fxmul(a, b) >= SCALE as int,
        a * b <= -1_000_000_000_000 ==> fxmul(a, b) <= -(SCALE as int),
{
    if a * b >= 1_000_000_000_000 {
        crate::fx::lemma_fdiv_ge(a * b, SCALE as int, SCALE as int);
    } else if a * b <= -1_000_000_000_000 {
        crate::fx::lemma_fdiv_mono(a * b, -1_000_000_000_000, SCALE as int);
        crate::fx::lemma_fdiv_multiple(-(SCALE as int), SCALE as int);
        assert(-(SCALE as int) * (SCALE as int) == -1_000_000_000_000) by (nonlinear_arith)
            requires
                SCALE == 1_000_000i64,
        ;
    }
}

/// A vector with one component of magnitude at least one unit and zeros
/// elsewhere has a squared length of at least one unit.
pub proof fn lemma_axis_normal_area(n: V3)
    requires
        (n.y == 0 && n.z == 0 && (n.x >= SCALE as int || n.x <= -(SCALE as int))) || (n.x == 0
            && n.z == 0 && (n.y >= SCALE as int || n.y <= -(SCALE as int))) || (n.x == 0 && n.y == 0
            && (n.z >= SCALE as int || n.z <= -(SCALE as int))),
    ensures
        V3::dot(n, n) >= SCALE as int,
{
    let raw = n.dot_raw(n);
    assert(raw >= 1_000_000_000_000) by (nonlinear_arith)
        requires
            raw == n.x * n.x + n.y * n.y + n.z * n.z,
            (n.y == 0 && n.z == 0 && (n.x >= 1_000_000 || n.x <= -1_000_000)) || (n.x == 0 && n.z
                == 0 && (n.y >= 1_000_000 || n.y <= -1_000_000)) || (n.x == 0 && n.y == 0 && (n.z
                >= 1_000_000 || n.z <= -1_000_000)),
    ;
    crate::fx::lemma_fdiv_ge(raw, SCALE as int, SCALE as int);
    assert(raw >= SCALE as int * (SCALE as int)) by (nonlinear_arith)
        requires
            raw >= 1_000_000_000_000,
            SCALE == 1_000_000i64,
    ;
}

/// The area requirement for a quadrilateral whose edges lie on two
/// distinct coordinate axes, each spanning at least one unit.
pub proof fn lemma_axis_quad_area(u: V3, v: V3)
    requires
        ({
            ||| (u.x == 0 && v.x == 0 && ((u.y != 0 && u.z == 0 && v.y == 0 && v.z != 0 && (u.y
                * v.z >= 1_000_000_000_000 || u.y * v.z <= -1_000_000_000_000)) || (u.y == 0 && u.z
                != 0 && v.z == 0 && v.y != 0 && (u.z * v.y >= 1_000_000_000_000 || u.z * v.y
                <= -1_000_000_000_000))))
            ||| (u.y == 0 && v.y == 0 && ((u.z != 0 && u.x == 0 && v.z == 0 && v.x != 0 && (u.z
                * v.x >= 1_000_000_000_000 || u.z * v.x <= -1_000_000_000_000)) || (u.z == 0 && u.x
                != 0 && v.x == 0 && v.z != 0 && (u.x * v.z >= 1_000_000_000_000 || u.x * v.z
                <= -1_000_000_000_000))))
            ||| (u.z == 0 && v.z == 0 && ((u.x != 0 && u.y == 0 && v.x == 0 && v.y != 0 && (u.x
                * v.y >= 1_000_000_000_000 || u.x * v.y <= -1_000_000_000_000)) || (u.x == 0 && u.y
                != 0 && v.y == 0 && v.x != 0 && (u.y * v.x >= 1_000_000_000_000 || u.y * v.x
                <= -1_000_000_000_000))))
        }),
    ensures
        V3::dot(u.cross(v), u.cross(v)) >= SCALE as int,
{
    lemma_fxmul_zero(u.x);
    lemma_fxmul_zero(u.y);
    lemma_fxmul_zero(u.z);
    lemma_fxmul_zero(v.x);
    lemma_fxmul_zero(v.y);
    lemma_fxmul_zero(v.z);
    lemma_fxmul_unit(u.y, v.z);
    lemma_fxmul_unit(u.z, v.y);
    lemma_fxmul_unit(u.z, v.x);
    lemma_fxmul_unit(u.x, v.z);
    lemma_fxmul_unit(u.x, v.y);
    lemma_fxmul_unit(u.y, v.x);
    lemma_axis_normal_area(u.cross(v));
}


/// The face-validity requirement of a box solid, from per-axis extents of
/// at least one unit.
pub proof fn lemma_box_faces_valid(a: V3, b: V3)
    requires
        ({
            let wx = if a.x >= b.x { a.x - b.x } else { b.x - a.x };
            let wy = if a.y >= b.y { a.y - b.y } else { b.y - a.y };
            let wz = if a.z >= b.z { a.z - b.z } else { b.z - a.z };
            SCALE as int <= wx <= COORD_MAX as int && SCALE as int <= wy <= COORD_MAX as int
                && SCALE as int <= wz <= COORD_MAX as int
        }),
    ensures
        spec_box_faces_valid(a, b),
{
    let wx = if a.x >= b.x { a.x - b.x } else { b.x - a.x };
    let wy = if a.y >= b.y { a.y - b.y } else { b.y - a.y };
    let wz = if a.z >= b.z { a.z - b.z } else { b.z - a.z };
    let dx = V3 { x: wx, y: 0, z: 0 };
    let dy = V3 { x: 0, y: wy, z: 0 };
    let dz = V3 { x: 0, y: 0, z: wz };
    assert(wx * wy >= 1_000_000_000_000 && wz * wy >= 1_000_000_000_000 && wx * wz
        >= 1_000_000_000_000 && (-wz) * wy <= -1_000_000_000_000 && (-wx) * wy
        <= -1_000_000_000_000 && wx * (-wz) <= -1_000_000_000_000) by (nonlinear_arith)
        requires
            wx >= 1_000_000,
            wy >= 1_000_000,
            wz >= 1_000_000,
    ;
    lemma_axis_quad_area(dx, dy);
    lemma_axis_quad_area(dz.neg(), dy);
    lemma_axis_quad_area(dx.neg(), dy);
    lemma_axis_quad_area(dz, dy);
    lemma_axis_quad_area(dx, dz.neg());
    lemma_axis_quad_area(dx, dz);
}

} // verus!
