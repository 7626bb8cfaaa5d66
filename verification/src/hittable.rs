//! The hittable capability: everything a ray can strike.
//!
//! A closed sum type stands in for dynamic dispatch; every variant's
//! intersection routine is mirrored exactly by [`Hittable::spec_hit`], so
//! facts about the whole scene graph (such as the equivalence of the
//! bounding-volume hierarchy with the exhaustive scan) can be stated and
//! proved over one recursive specification.

use vstd::prelude::*;
use crate::aabb::Aabb;
use crate::fx::{fxmul, SCALE};
use crate::interval::Interval;
use crate::ray::{Ray, R3};
use crate::vec3::{Point3, Vec3, V3, COORD_MAX};
use crate::sphere::Sphere;
use crate::quad::Quad;
use crate::hittable_list::HittableList;
use crate::bvh::BvhNode;

verus! {

broadcast use vstd::seq::axiom_seq_index_decreases;

/// The mathematical value of a hit record.
pub ghost struct HitR {
    pub p: V3,
    pub normal: V3,
    pub mat: u32,
    pub t: int,
    pub u: int,
    pub v: int,
    pub front_face: bool,
}

/// The output payload of a successful intersection.  The material is an
/// index into the scene's material arena.
#[derive(Clone, Copy, PartialEq, Eq, Structural, Debug)]
pub struct HitRecord {
    pub p: Point3,
    pub normal: Vec3,
    pub mat: u32,
    pub t: i64,
    pub u: i64,
    pub v: i64,
    pub front_face: bool,
}

impl View for HitRecord {
    type V = HitR;

    open spec fn view(&self) -> HitR {
        HitR {
            p: self.p@,
            normal: self.normal@,
            mat: self.mat,
            t: self.t as int,
            u: self.u as int,
            v: self.v as int,
            front_face: self.front_face,
        }
    }
}

/// How `set_face_normal` orients a normal against the incoming ray.
pub open spec fn spec_face_normal(r: R3, outward_normal: V3) -> (bool, V3) {
    let front = r.dir.dot(outward_normal) < 0;
    (front, if front {
        outward_normal
    } else {
        outward_normal.neg()
    })
}

impl HitRecord {
    pub fn new(p: Point3, normal: Vec3, mat: u32, t: i64, front_face: bool) -> (r: Self)
        ensures
            r@ == (HitR {
                p: p@,
                normal: normal@,
                mat,
                t: t as int,
                u: 0int,
                v: 0int,
                front_face,
            }),
    {
        HitRecord { p, normal, mat, t, u: 0, v: 0, front_face }
    }

    /// Sets the stored normal to face the incoming ray: the outward normal
    /// when the ray arrives from outside, its negation otherwise.
    pub fn set_face_normal(&mut self, r: Ray, outward_normal: Vec3)
        requires
            r@.dir.bounded(4 * COORD_MAX as int),
            outward_normal@.bounded(4 * COORD_MAX as int),
            outward_normal@.x > i64::MIN,
            outward_normal@.y > i64::MIN,
            outward_normal@.z > i64::MIN,
        ensures
            final(self).front_face == spec_face_normal(r@, outward_normal@).0,
            final(self).normal@ == spec_face_normal(r@, outward_normal@).1,
            final(self).p == old(self).p,
            final(self).mat == old(self).mat,
            final(self).t == old(self).t,
            final(self).u == old(self).u,
            final(self).v == old(self).v,
    {
        let d = r.direction().dot(outward_normal);
        self.front_face = d < 0;
        if self.front_face {
            self.normal = outward_normal;
        } else {
            self.normal = outward_normal.neg();
        }
    }
}

impl Default for HitRecord {
    /// A blank record for closest-hit accumulation.
    fn default() -> (r: Self)
        ensures
            r@ == (HitR {
                p: V3 { x: 0, y: 0, z: 0 },
                normal: V3 { x: 0, y: 0, z: 0 },
                mat: 0u32,
                t: 0int,
                u: 0int,
                v: 0int,
                front_face: false,
            }),
    {
        HitRecord {
            p: Vec3::new(0, 0, 0),
            normal: Vec3::new(0, 0, 0),
            mat: 0,
            t: 0,
            u: 0,
            v: 0,
            front_face: false,
        }
    }
}

/// A primitive or aggregate the ray tracer can intersect.
pub enum Hittable {
    Sphere(Sphere),
    Quad(Quad),
    List(HittableList),
    Bvh(Box<BvhNode>),
    Translate(Box<Translate>),
    RotateY(Box<RotateY>),
}

/// An instance transform: the wrapped object displaced by an offset.
pub struct Translate {
    pub object: Hittable,
    pub offset: Vec3,
    pub bbox: Aabb,
}

/// An instance transform: the wrapped object rotated about the y axis.
pub struct RotateY {
    pub object: Hittable,
    pub sin_theta: i64,
    pub cos_theta: i64,
    pub bbox: Aabb,
}

/// The rotation taking world coordinates to object coordinates.
pub open spec fn spec_rot_to_object(v: V3, sin_theta: int, cos_theta: int) -> V3 {
    V3 {
        x: fxmul(cos_theta, v.x) - fxmul(sin_theta, v.z),
        y: v.y,
        z: fxmul(sin_theta, v.x) + fxmul(cos_theta, v.z),
    }
}

/// The rotation taking object coordinates back to world coordinates.
pub open spec fn spec_rot_to_world(v: V3, sin_theta: int, cos_theta: int) -> V3 {
    V3 {
        x: fxmul(cos_theta, v.x) + fxmul(sin_theta, v.z),
        y: v.y,
        z: -fxmul(sin_theta, v.x) + fxmul(cos_theta, v.z),
    }
}

/// Saturation into one fixed-point unit of zero.
pub open spec fn spec_saturate_unit(x: int) -> int {
    if x > SCALE {
        SCALE as int
    } else if x < -SCALE {
        -(SCALE as int)
    } else {
        x
    }
}

/// The smaller of two model values.
pub open spec fn spec_min2(a: int, b: int) -> int {
    if a <= b {
        a
    } else {
        b
    }
}

/// The larger of two model values.
pub open spec fn spec_max2(a: int, b: int) -> int {
    if a >= b {
        a
    } else {
        b
    }
}

/// The box a rotation constructor caches: the enclosing box of the four
/// rotated images of the inner box's corners in the rotation plane, with
/// the vertical extent unchanged.
pub open spec fn spec_rotate_bbox(inner: Aabb, sin_theta: int, cos_theta: int) -> Aabb {
    let x00 = fxmul(cos_theta, inner.x.min as int) + fxmul(sin_theta, inner.z.min as int);
    let x01 = fxmul(cos_theta, inner.x.min as int) + fxmul(sin_theta, inner.z.max as int);
    let x10 = fxmul(cos_theta, inner.x.max as int) + fxmul(sin_theta, inner.z.min as int);
    let x11 = fxmul(cos_theta, inner.x.max as int) + fxmul(sin_theta, inner.z.max as int);
    let z00 = -fxmul(sin_theta, inner.x.min as int) + fxmul(cos_theta, inner.z.min as int);
    let z01 = -fxmul(sin_theta, inner.x.min as int) + fxmul(cos_theta, inner.z.max as int);
    let z10 = -fxmul(sin_theta, inner.x.max as int) + fxmul(cos_theta, inner.z.min as int);
    let z11 = -fxmul(sin_theta, inner.x.max as int) + fxmul(cos_theta, inner.z.max as int);
    Aabb {
        x: Interval {
            min: spec_min2(spec_min2(x00, x01), spec_min2(x10, x11)) as i64,
            max: spec_max2(spec_max2(x00, x01), spec_max2(x10, x11)) as i64,
        },
        y: inner.y,
        z: Interval {
            min: spec_min2(spec_min2(z00, z01), spec_min2(z10, z11)) as i64,
            max: spec_max2(spec_max2(z00, z01), spec_max2(z10, z11)) as i64,
        },
    }
}

impl Hittable {
    /// The conservative bound each variant carries.
    pub open spec fn spec_bbox(self) -> Aabb
        decreases self,
    {
        match self {
            Hittable::Sphere(s) => s.bbox,
            Hittable::Quad(q) => q.bbox,
            Hittable::List(l) => l.bbox,
            Hittable::Bvh(b) => b.bbox,
            Hittable::Translate(t) => t.bbox,
            Hittable::RotateY(ro) => ro.bbox,
        }
    }

    /// Well-formed scene graphs: every aggregate's box encloses its
    /// children's boxes, and every primitive is geometrically valid.
    pub open spec fn wf(self) -> bool
        decreases self, 1int,
    {
        match self {
            Hittable::Sphere(s) => s.wf(),
            Hittable::Quad(q) => q.wf(),
            Hittable::List(l) => l.wf(),
            Hittable::Bvh(b) => spec_bvh_wf(*b),
            Hittable::Translate(t) => spec_translate_wf(*t),
            Hittable::RotateY(ro) => spec_rotate_wf(*ro),
        }
    }

    /// No rotation instance anywhere inside: on the fixed-point grid a
    /// rotation does not reproduce ray points exactly, so laws that relate
    /// a hit parameter to the world ray exclude it.
    pub open spec fn rot_free(self) -> bool
        decreases self, 1int,
    {
        match self {
            Hittable::Sphere(s) => true,
            Hittable::Quad(q) => true,
            Hittable::List(l) => forall|i: int|
                0 <= i < l.objects@.len() ==> (#[trigger] l.objects@[i]).rot_free(),
            Hittable::Bvh(b) => b.left.rot_free() && b.right.rot_free(),
            Hittable::Translate(t) => t.object.rot_free(),
            Hittable::RotateY(ro) => false,
        }
    }

    /// The closest hit of the ray strictly inside `(lo, hi)`, as every
    /// executable `hit` computes it.
    pub open spec fn spec_hit(self, r: R3, lo: int, hi: int) -> Option<HitR>
        decreases self, 3int,
    {
        match self {
            Hittable::Sphere(s) => crate::sphere::spec_sphere_hit(s, r, lo, hi),
            Hittable::Quad(q) => crate::quad::spec_quad_hit(q, r, lo, hi),
            Hittable::List(l) => spec_scan(l.objects@, r, lo, hi, l.objects@.len() as int),
            Hittable::Bvh(b) => spec_bvh_hit(*b, r, lo, hi),
            Hittable::Translate(t) => spec_translate_hit(*t, r, lo, hi),
            Hittable::RotateY(ro) => spec_rotate_hit(*ro, r, lo, hi),
        }
    }
}

/// Well-formed tree nodes: the box is exactly the union of the two
/// children's boxes (so in particular it encloses both).
pub open spec fn spec_bvh_wf(b: BvhNode) -> bool
    decreases b, 0int,
{
    &&& b.left.wf()
    &&& b.right.wf()
    &&& b.bbox == Aabb::spec_union(b.left.spec_bbox(), b.right.spec_bbox())
}

/// Well-formed displaced instances: the cached box is the child's box
/// shifted by the offset.
pub open spec fn spec_translate_wf(t: Translate) -> bool
    decreases t, 0int,
{
    &&& t.object.wf()
    &&& t.offset@.wf()
    &&& t.bbox.x.min == t.object.spec_bbox().x.min + t.offset@.x
    &&& t.bbox.x.max == t.object.spec_bbox().x.max + t.offset@.x
    &&& t.bbox.y.min == t.object.spec_bbox().y.min + t.offset@.y
    &&& t.bbox.y.max == t.object.spec_bbox().y.max + t.offset@.y
    &&& t.bbox.z.min == t.object.spec_bbox().z.min + t.offset@.z
    &&& t.bbox.z.max == t.object.spec_bbox().z.max + t.offset@.z
}

/// Well-formed rotated instances: unit-bounded rotation coefficients.
pub open spec fn spec_rotate_wf(ro: RotateY) -> bool
    decreases ro, 0int,
{
    &&& ro.object.wf()
    &&& -SCALE as int <= ro.sin_theta <= SCALE as int
    &&& -SCALE as int <= ro.cos_theta <= SCALE as int
}

/// The tree-node intersection: prune against the node's box, try the left
/// child, then the right child against the interval narrowed to the left
/// hit.
pub open spec fn spec_bvh_hit(b: BvhNode, r: R3, lo: int, hi: int) -> Option<HitR>
    decreases b, 2int,
{
    if !b.bbox.spec_hit(r, lo, hi) {
        None
    } else {
        let lh = b.left.spec_hit(r, lo, hi);
        let nhi = match lh {
            Some(rec) => rec.t,
            None => hi,
        };
        let rh = b.right.spec_hit(r, lo, nhi);
        match rh {
            Some(rec) => Some(rec),
            None => lh,
        }
    }
}

/// The displaced-instance intersection: shift the ray into object space,
/// delegate, shift the hit point back; reject anything that leaves the
/// world bound.
pub open spec fn spec_translate_hit(t: Translate, r: R3, lo: int, hi: int) -> Option<HitR>
    decreases t, 2int,
{
    let io = r.orig.sub(t.offset@);
    if !io.bounded(4 * COORD_MAX as int) {
        None
    } else {
        match t.object.spec_hit(R3 { orig: io, dir: r.dir, time: r.time }, lo, hi) {
            None => None,
            Some(h0) => {
                let p = h0.p.add(t.offset@);
                if p.bounded(4 * COORD_MAX as int) {
                    Some(HitR { p, ..h0 })
                } else {
                    None
                }
            },
        }
    }
}

/// The rotated-instance intersection: rotate the ray into object space,
/// delegate, rotate the hit point and normal back out; reject anything the
/// rounding guards cannot vouch for.
pub open spec fn spec_rotate_hit(ro: RotateY, r: R3, lo: int, hi: int) -> Option<HitR>
    decreases ro, 2int,
{
    let o2 = spec_rot_to_object(r.orig, ro.sin_theta as int, ro.cos_theta as int);
    let d2 = spec_rot_to_object(r.dir, ro.sin_theta as int, ro.cos_theta as int);
    if !o2.bounded(4 * COORD_MAX as int) || !d2.wf() {
        None
    } else {
        match ro.object.spec_hit(R3 { orig: o2, dir: d2, time: r.time }, lo, hi) {
            None => None,
            Some(h0) => {
                if !(h0.p.bounded(0x1000_0000_0000_0000) && h0.normal.bounded(
                    0x1000_0000_0000_0000,
                )) {
                    None
                } else {
                    let p = spec_rot_to_world(h0.p, ro.sin_theta as int, ro.cos_theta as int);
                    let nm = spec_rot_to_world(
                        h0.normal,
                        ro.sin_theta as int,
                        ro.cos_theta as int,
                    );
                    if p.bounded(4 * COORD_MAX as int) && nm.bounded(4 * SCALE as int)
                        && ro.bbox.spec_contains_point(p) {
                        Some(HitR { p, normal: nm, ..h0 })
                    } else {
                        None
                    }
                }
            },
        }
    }
}

/// The closest-hit scan over the first `n` objects, each tested against
/// the interval narrowed to the closest hit found so far.
pub open spec fn spec_scan(objs: Seq<Hittable>, r: R3, lo: int, hi: int, n: int) -> Option<HitR>
    decreases objs, n, 4int,
{
    if n <= 0 || n > objs.len() {
        None
    } else {
        let prev = spec_scan(objs, r, lo, hi, n - 1);
        let cur_hi = match prev {
            Some(rec) => rec.t,
            None => hi,
        };
        match objs[n - 1].spec_hit(r, lo, cur_hi) {
            Some(rec) => Some(rec),
            None => prev,
        }
    }
}

/// The relation every executable `hit` establishes between its boolean
/// result, the record it filled, and the mirror specification.
pub open spec fn hit_post(
    spec: Option<HitR>,
    b: bool,
    rec_old: HitRecord,
    rec_new: HitRecord,
) -> bool {
    match spec {
        Some(h) => b == true && rec_new@ == h,
        None => b == false && rec_new == rec_old,
    }
}

impl Hittable {
    /// The closest intersection with parameter strictly inside `ray_t`;
    /// fills `rec` and reports whether anything was hit.
    pub fn hit(&self, r: Ray, ray_t: Interval, rec: &mut HitRecord) -> (b: bool)
        requires
            self.wf(),
            r@.wf(),
        ensures
            hit_post(
                self.spec_hit(r@, ray_t.min as int, ray_t.max as int),
                b,
                *old(rec),
                *final(rec),
            ),
        decreases *self, 3int,
    {
        match self {
            Hittable::Sphere(s) => s.hit(r, ray_t, rec),
            Hittable::Quad(q) => q.hit(r, ray_t, rec),
            Hittable::List(l) => l.hit(r, ray_t, rec),
            Hittable::Bvh(b) => b.hit(r, ray_t, rec),
            Hittable::Translate(t) => t.hit(r, ray_t, rec),
            Hittable::RotateY(ro) => ro.hit(r, ray_t, rec),
        }
    }

    /// The conservative bound of this object.
    pub fn bounding_box(&self) -> (r: Aabb)
        ensures
            r == self.spec_bbox(),
    {
        match self {
            Hittable::Sphere(s) => s.bounding_box(),
            Hittable::Quad(q) => q.bounding_box(),
            Hittable::List(l) => l.bounding_box(),
            Hittable::Bvh(b) => b.bounding_box(),
            Hittable::Translate(t) => t.bbox,
            Hittable::RotateY(ro) => ro.bbox,
        }
    }
}

impl Translate {
    /// Wraps an object so that it appears displaced by `displacement`.
    pub fn new(p: Hittable, displacement: Vec3) -> (r: Self)
        requires
            p.wf(),
            displacement@.wf(),
            p.spec_bbox().spec_bounded(0x1000_0000_0000_0000),
        ensures
            spec_translate_wf(r),
            r.object == p,
            r.offset == displacement,
    {
        let bbox = Aabb::new(
            p.bounding_box().x.add(displacement.x()),
            p.bounding_box().y.add(displacement.y()),
            p.bounding_box().z.add(displacement.z()),
        );
        Self { object: p, offset: displacement, bbox }
    }

    /// Intersects by shifting the ray into object space and the hit point
    /// back out.
    pub fn hit(&self, r: Ray, ray_t: Interval, rec: &mut HitRecord) -> (b: bool)
        requires
            spec_translate_wf(*self),
            r@.wf(),
        ensures
            hit_post(
                spec_translate_hit(*self, r@, ray_t.min as int, ray_t.max as int),
                b,
                *old(rec),
                *final(rec),
            ),
        decreases *self, 2int,
    {
        let ox = r.origin().x() - self.offset.x();
        let oy = r.origin().y() - self.offset.y();
        let oz = r.origin().z() - self.offset.z();
        let cm = crate::vec3::COORD_MAX;
        if !(-4 * cm <= ox && ox <= 4 * cm && -4 * cm <= oy && oy <= 4 * cm && -4 * cm <= oz && oz
            <= 4 * cm) {
            return false;
        }
        let offset_r = Ray::new_with_time(Vec3::new(ox, oy, oz), r.direction(), r.time());
        let mut tmp = HitRecord::default();
        if !self.object.hit(offset_r, ray_t, &mut tmp) {
            return false;
        }
        let px = tmp.p.x() as i128 + self.offset.x() as i128;
        let py = tmp.p.y() as i128 + self.offset.y() as i128;
        let pz = tmp.p.z() as i128 + self.offset.z() as i128;
        let bound: i128 = 4 * (cm as i128);
        if !(-bound <= px && px <= bound && -bound <= py && py <= bound && -bound <= pz && pz
            <= bound) {
            return false;
        }
        tmp.p = Vec3::new(px as i64, py as i64, pz as i64);
        *rec = tmp;
        true
    }
}

impl RotateY {
    /// Wraps an object so that it appears rotated about the y axis by the
    /// given angle in degrees.  The rotation coefficients are the library's
    /// sine and cosine, saturated into the unit range; the cached box
    /// encloses the rotated images of the inner box's corners.
    pub fn new(p: Hittable, angle: i64) -> (r: Self)
        requires
            p.wf(),
            -1_000_000_000_000 <= angle <= 1_000_000_000_000,
            p.spec_bbox().spec_bounded(0x1000_0000_0000_0000),
        ensures
            spec_rotate_wf(r),
            r.object == p,
            r.sin_theta == spec_saturate_unit(
                crate::fx::spec_sin(crate::fx::spec_degrees_to_radians(angle as int)),
            ),
            r.cos_theta == spec_saturate_unit(
                crate::fx::spec_cos(crate::fx::spec_degrees_to_radians(angle as int)),
            ),
            r.bbox == spec_rotate_bbox(p.spec_bbox(), r.sin_theta as int, r.cos_theta as int),
    {
        let radians = crate::fx::degrees_to_radians(angle);
        let s0 = crate::fx::fx_sin(radians);
        let c0 = crate::fx::fx_cos(radians);
        let sin_theta = if s0 > SCALE {
            SCALE
        } else if s0 < -SCALE {
            -SCALE
        } else {
            s0
        };
        let cos_theta = if c0 > SCALE {
            SCALE
        } else if c0 < -SCALE {
            -SCALE
        } else {
            c0
        };
        let bbox = p.bounding_box();
        let new_bbox = rotated_bbox(bbox, sin_theta, cos_theta);
        Self { object: p, sin_theta, cos_theta, bbox: new_bbox }
    }

    /// Intersects by rotating the ray into object space and the hit point
    /// and normal back out.
    pub fn hit(&self, r: Ray, ray_t: Interval, rec: &mut HitRecord) -> (b: bool)
        requires
            spec_rotate_wf(*self),
            r@.wf(),
        ensures
            hit_post(
                spec_rotate_hit(*self, r@, ray_t.min as int, ray_t.max as int),
                b,
                *old(rec),
                *final(rec),
            ),
        decreases *self, 2int,
    {
        let cm = crate::vec3::COORD_MAX;
        let o2 = rot_to_object(r.origin(), self.sin_theta, self.cos_theta);
        let d2 = rot_to_object(r.direction(), self.sin_theta, self.cos_theta);
        if !(o2.x() >= -4 * cm && o2.x() <= 4 * cm && o2.y() >= -4 * cm && o2.y() <= 4 * cm
            && o2.z() >= -4 * cm && o2.z() <= 4 * cm) {
            return false;
        }
        if !(d2.x() >= -cm && d2.x() <= cm && d2.y() >= -cm && d2.y() <= cm && d2.z() >= -cm
            && d2.z() <= cm) {
            return false;
        }
        let rotated_r = Ray::new_with_time(o2, d2, r.time());
        let mut tmp = HitRecord::default();
        if !self.object.hit(rotated_r, ray_t, &mut tmp) {
            return false;
        }
        let big: i64 = 0x1000_0000_0000_0000;
        if !(tmp.p.x() >= -big && tmp.p.x() <= big && tmp.p.y() >= -big && tmp.p.y() <= big
            && tmp.p.z() >= -big && tmp.p.z() <= big) {
            return false;
        }
        if !(tmp.normal.x() >= -big && tmp.normal.x() <= big && tmp.normal.y() >= -big
            && tmp.normal.y() <= big && tmp.normal.z() >= -big && tmp.normal.z() <= big) {
            return false;
        }
        let p = rot_to_world(tmp.p, self.sin_theta, self.cos_theta);
        let nm = rot_to_world(tmp.normal, self.sin_theta, self.cos_theta);
        let ns = 4 * crate::fx::SCALE;
        if !(p.x() >= -4 * cm && p.x() <= 4 * cm && p.y() >= -4 * cm && p.y() <= 4 * cm && p.z()
            >= -4 * cm && p.z() <= 4 * cm) {
            return false;
        }
        if !(nm.x() >= -ns && nm.x() <= ns && nm.y() >= -ns && nm.y() <= ns && nm.z() >= -ns
            && nm.z() <= ns) {
            return false;
        }
        if !self.bbox.contains_point(p) {
            return false;
        }
        tmp.p = p;
        tmp.normal = nm;
        *rec = tmp;
        true
    }
}

/// The world-to-object rotation.
fn rot_to_object(v: Vec3, sin_theta: i64, cos_theta: i64) -> (r: Vec3)
    requires
        -SCALE as int <= sin_theta <= SCALE as int,
        -SCALE as int <= cos_theta <= SCALE as int,
        v@.bounded(0x1000_0000_0000_0000),
    ensures
        r@ == spec_rot_to_object(v@, sin_theta as int, cos_theta as int),
{
    proof {
        lemma_rot_one(v@.x, sin_theta as int);
        lemma_rot_one(v@.x, cos_theta as int);
        lemma_rot_one(v@.z, sin_theta as int);
        lemma_rot_one(v@.z, cos_theta as int);
    }
    Vec3::new(
        crate::fx::fx_mul(cos_theta, v.x()) - crate::fx::fx_mul(sin_theta, v.z()),
        v.y(),
        crate::fx::fx_mul(sin_theta, v.x()) + crate::fx::fx_mul(cos_theta, v.z()),
    )
}

/// The object-to-world rotation.
fn rot_to_world(v: Vec3, sin_theta: i64, cos_theta: i64) -> (r: Vec3)
    requires
        -SCALE as int <= sin_theta <= SCALE as int,
        -SCALE as int <= cos_theta <= SCALE as int,
        v@.bounded(0x1000_0000_0000_0000),
    ensures
        r@ == spec_rot_to_world(v@, sin_theta as int, cos_theta as int),
{
    proof {
        lemma_rot_one(v@.x, sin_theta as int);
        lemma_rot_one(v@.x, cos_theta as int);
        lemma_rot_one(v@.z, sin_theta as int);
        lemma_rot_one(v@.z, cos_theta as int);
    }
    Vec3::new(
        crate::fx::fx_mul(cos_theta, v.x()) + crate::fx::fx_mul(sin_theta, v.z()),
        v.y(),
        -crate::fx::fx_mul(sin_theta, v.x()) + crate::fx::fx_mul(cos_theta, v.z()),
    )
}

/// The enclosing box of the four rotated corner images, computed.
#[verifier::rlimit(50)]
fn rotated_bbox(inner: Aabb, sin_theta: i64, cos_theta: i64) -> (r: Aabb)
    requires
        -SCALE as int <= sin_theta <= SCALE as int,
        -SCALE as int <= cos_theta <= SCALE as int,
        inner.x.min > i64::MIN && inner.x.max > i64::MIN,
        inner.z.min > i64::MIN && inner.z.max > i64::MIN,
        -0x1000_0000_0000_0000 <= inner.x.min <= 0x1000_0000_0000_0000,
        -0x1000_0000_0000_0000 <= inner.x.max <= 0x1000_0000_0000_0000,
        -0x1000_0000_0000_0000 <= inner.z.min <= 0x1000_0000_0000_0000,
        -0x1000_0000_0000_0000 <= inner.z.max <= 0x1000_0000_0000_0000,
    ensures
        r == spec_rotate_bbox(inner, sin_theta as int, cos_theta as int),
{
    proof {
        lemma_rot_one(inner.x.min as int, sin_theta as int);
        lemma_rot_one(inner.x.min as int, cos_theta as int);
        lemma_rot_one(inner.x.max as int, sin_theta as int);
        lemma_rot_one(inner.x.max as int, cos_theta as int);
        lemma_rot_one(inner.z.min as int, sin_theta as int);
        lemma_rot_one(inner.z.min as int, cos_theta as int);
        lemma_rot_one(inner.z.max as int, sin_theta as int);
        lemma_rot_one(inner.z.max as int, cos_theta as int);
    }
    let cxmin = crate::fx::fx_mul(cos_theta, inner.x.min);
    let cxmax = crate::fx::fx_mul(cos_theta, inner.x.max);
    let szmin = crate::fx::fx_mul(sin_theta, inner.z.min);
    let szmax = crate::fx::fx_mul(sin_theta, inner.z.max);
    let sxmin = crate::fx::fx_mul(sin_theta, inner.x.min);
    let sxmax = crate::fx::fx_mul(sin_theta, inner.x.max);
    let czmin = crate::fx::fx_mul(cos_theta, inner.z.min);
    let czmax = crate::fx::fx_mul(cos_theta, inner.z.max);
    let x00 = cxmin + szmin;
    let x01 = cxmin + szmax;
    let x10 = cxmax + szmin;
    let x11 = cxmax + szmax;
    let z00 = -sxmin + czmin;
    let z01 = -sxmin + czmax;
    let z10 = -sxmax + czmin;
    let z11 = -sxmax + czmax;
    let new_x = Interval::new(
        crate::fx::imin(crate::fx::imin(x00, x01), crate::fx::imin(x10, x11)),
        crate::fx::imax(crate::fx::imax(x00, x01), crate::fx::imax(x10, x11)),
    );
    let new_z = Interval::new(
        crate::fx::imin(crate::fx::imin(z00, z01), crate::fx::imin(z10, z11)),
        crate::fx::imax(crate::fx::imax(z00, z01), crate::fx::imax(z10, z11)),
    );
    Aabb::new(new_x, inner.y, new_z)
}

/// The scaled product of a unit-bounded factor and a bounded component
/// stays within the component bound.
proof fn lemma_rot_one(c: int, k: int)
    requires
        -SCALE as int <= k <= SCALE as int,
        -0x1000_0000_0000_0000 <= c <= 0x1000_0000_0000_0000,
    ensures
        -0x1000_0000_0000_0000 <= fxmul(k, c) <= 0x1000_0000_0000_0000,
{
    let m = 0x1000_0000_0000_0000int * 1_000_000;
    assert(-m <= k * c <= m) by (nonlinear_arith)
        requires
            -1_000_000 <= k <= 1_000_000,
            -0x1000_0000_0000_0000 <= c <= 0x1000_0000_0000_0000,
            m == 0x1000_0000_0000_0000int * 1_000_000,
    ;
    crate::fx::lemma_fdiv_mono(k * c, m, SCALE as int);
    crate::fx::lemma_fdiv_mono(-m, k * c, SCALE as int);
    crate::fx::lemma_fdiv_multiple(0x1000_0000_0000_0000int, SCALE as int);
    crate::fx::lemma_fdiv_multiple(-0x1000_0000_0000_0000int, SCALE as int);
    assert(m == 0x1000_0000_0000_0000int * (SCALE as int));
    assert(-m == (-0x1000_0000_0000_0000int) * (SCALE as int)) by (nonlinear_arith)
        requires
            m == 0x1000_0000_0000_0000int * (SCALE as int),
    ;
}


/// Everything a successful hit guarantees: the parameter lies strictly
/// inside the search interval, the point and normal are bounded, the point
/// lies inside the reporting object's box, and — for scene graphs without
/// rotation instances — the point is exactly the ray's point at the
/// reported parameter.
pub open spec fn hit_guarantees(h: Hittable, r: R3, lo: int, hi: int) -> bool {
    match h.spec_hit(r, lo, hi) {
        None => true,
        Some(rec) => {
            &&& lo < rec.t < hi
            &&& rec.p.bounded(4 * COORD_MAX as int)
            &&& rec.normal.bounded(4 * SCALE as int)
            &&& h.spec_bbox().spec_contains_point(rec.p)
            &&& (h.rot_free() ==> rec.p == r.at(rec.t))
        },
    }
}

/// Proof of the hit guarantees, by structural induction over the scene
/// graph.
pub proof fn lemma_hit_ok(h: Hittable, r: R3, lo: int, hi: int)
    requires
        h.wf(),
    ensures
        hit_guarantees(h, r, lo, hi),
    decreases h, 4int,
{
    match h {
        Hittable::Sphere(s) => {
            lemma_sphere_hit_ok(s, r, lo, hi);
        },
        Hittable::Quad(q) => {
            if crate::quad::spec_quad_hit(q, r, lo, hi) is Some {
                let rec = crate::quad::spec_quad_hit(q, r, lo, hi)->Some_0;
            }
        },
        Hittable::List(l) => {
            lemma_scan_ok(l.objects@, r, lo, hi, l.objects@.len() as int, l.bbox);
        },
        Hittable::Bvh(b) => {
            if b.bbox.spec_hit(r, lo, hi) {
                lemma_hit_ok(b.left, r, lo, hi);
                let lh = b.left.spec_hit(r, lo, hi);
                let nhi = match lh {
                    Some(rec) => rec.t,
                    None => hi,
                };
                lemma_hit_ok(b.right, r, lo, nhi);
            }
        },
        Hittable::Translate(t) => {
            let io = r.orig.sub(t.offset@);
            if io.bounded(4 * COORD_MAX as int) {
                lemma_hit_ok(t.object, R3 { orig: io, dir: r.dir, time: r.time }, lo, hi);
            }
        },
        Hittable::RotateY(ro) => {
            let o2 = spec_rot_to_object(r.orig, ro.sin_theta as int, ro.cos_theta as int);
            let d2 = spec_rot_to_object(r.dir, ro.sin_theta as int, ro.cos_theta as int);
            if o2.bounded(4 * COORD_MAX as int) && d2.wf() {
                lemma_hit_ok(ro.object, R3 { orig: o2, dir: d2, time: r.time }, lo, hi);
            }
        },
    }
}

/// The hit guarantees for a sphere, from the guards its mirror performs.
proof fn lemma_sphere_hit_ok(s: Sphere, r: R3, lo: int, hi: int)
    requires
        s.wf(),
    ensures
        hit_guarantees(Hittable::Sphere(s), r, lo, hi),
{
    let h = Hittable::Sphere(s);
    if h.spec_hit(r, lo, hi) is Some {
        let center = s.spec_center(r.time);
        let ra: int = if s.radius >= 0 {
            s.radius as int
        } else {
            -s.radius as int
        };
        let rec = h.spec_hit(r, lo, hi)->Some_0;
        let outward = rec.p.sub(center).sdiv(s.radius as int);
        crate::fx::lemma_ratio_unit(rec.p.x - center.x, s.radius as int);
        crate::fx::lemma_ratio_unit(rec.p.y - center.y, s.radius as int);
        crate::fx::lemma_ratio_unit(rec.p.z - center.z, s.radius as int);
    }
}

/// The hit guarantees for a scan over the first `n` objects of a
/// well-formed list whose box encloses every object's box.
pub proof fn lemma_scan_ok(objs: Seq<Hittable>, r: R3, lo: int, hi: int, n: int, bbox: Aabb)
    requires
        forall|i: int| 0 <= i < objs.len() ==> (#[trigger] objs[i]).wf(),
        forall|i: int|
            0 <= i < objs.len() ==> bbox.spec_contains_box((#[trigger] objs[i]).spec_bbox()),
    ensures
        match spec_scan(objs, r, lo, hi, n) {
            None => true,
            Some(rec) => {
                &&& lo < rec.t < hi
                &&& rec.p.bounded(4 * COORD_MAX as int)
                &&& rec.normal.bounded(4 * SCALE as int)
                &&& bbox.spec_contains_point(rec.p)
                &&& ((forall|i: int|
                    0 <= i < objs.len() ==> (#[trigger] objs[i]).rot_free()) ==> rec.p == r.at(
                    rec.t,
                ))
            },
        },
    decreases objs, n, 5int,
{
    if n <= 0 || n > objs.len() {
    } else {
        lemma_scan_ok(objs, r, lo, hi, n - 1, bbox);
        let prev = spec_scan(objs, r, lo, hi, n - 1);
        let cur_hi = match prev {
            Some(rec) => rec.t,
            None => hi,
        };
        lemma_hit_ok(objs[n - 1], r, lo, cur_hi);
        match objs[n - 1].spec_hit(r, lo, cur_hi) {
            Some(rec) => {
                crate::aabb::lemma_contains_box_point(bbox, objs[n - 1].spec_bbox(), rec.p);
            },
            None => {},
        }
    }
}


/// The hit an interval shrunk at the top still reports: the same record
/// when its parameter clears the new top, nothing otherwise.
pub open spec fn spec_narrow(o: Option<HitR>, hi2: int) -> Option<HitR> {
    match o {
        Some(rec) => if rec.t < hi2 {
            Some(rec)
        } else {
            None
        },
        None => None,
    }
}

/// Shrinking the top of the search interval narrows the reported hit and
/// changes nothing else: the interval plays no part in which record a
/// given parameter produces.  Holds for rotation-free graphs, where the
/// box pruning is exact.
pub proof fn lemma_hit_narrow(h: Hittable, r: R3, lo: int, hi: int, hi2: int)
    requires
        h.wf(),
        h.rot_free(),
        hi2 <= hi,
    ensures
        h.spec_hit(r, lo, hi2) == spec_narrow(h.spec_hit(r, lo, hi), hi2),
    decreases h, 6int,
{
    match h {
        Hittable::Sphere(s) => {
            crate::sphere::lemma_sphere_narrow(s, r, lo, hi, hi2);
        },
        Hittable::Quad(q) => {},
        Hittable::List(l) => {
            lemma_scan_narrow(l.objects@, r, lo, hi, hi2, l.objects@.len() as int);
        },
        Hittable::Bvh(b) => {
            let lh = b.left.spec_hit(r, lo, hi);
            let nhi = match lh {
                Some(rec) => rec.t,
                None => hi,
            };
            let rh = b.right.spec_hit(r, lo, nhi);
            lemma_hit_ok(b.left, r, lo, hi);
            lemma_hit_ok(b.right, r, lo, nhi);
            lemma_hit_narrow(b.left, r, lo, hi, hi2);
            if !b.bbox.spec_hit(r, lo, hi) {
                assert(!b.bbox.spec_hit(r, lo, hi2)) by {
                    if b.bbox.spec_hit(r, lo, hi2) {
                        let t = choose|t: int|
                            lo < t < hi2 && #[trigger] b.bbox.spec_contains_point(r.at(t));
                        assert(lo < t < hi && b.bbox.spec_contains_point(r.at(t)));
                    }
                }
            } else if !b.bbox.spec_hit(r, lo, hi2) {
                match h.spec_hit(r, lo, hi) {
                    Some(rec) => {
                        if rec.t < hi2 {
                            assert(b.bbox.spec_contains_point(r.at(rec.t)));
                            assert(b.bbox.spec_hit(r, lo, hi2));
                        }
                    },
                    None => {},
                }
            } else {
                match lh {
                    None => {
                        lemma_hit_narrow(b.right, r, lo, hi, hi2);
                    },
                    Some(p) => {
                        if p.t < hi2 {
                            match rh {
                                Some(q) => {},
                                None => {},
                            }
                        } else {
                            lemma_hit_narrow(b.right, r, lo, p.t, hi2);
                        }
                    },
                }
            }
        },
        Hittable::Translate(t) => {
            let io = r.orig.sub(t.offset@);
            if io.bounded(4 * COORD_MAX as int) {
                lemma_hit_narrow(
                    t.object,
                    R3 { orig: io, dir: r.dir, time: r.time },
                    lo,
                    hi,
                    hi2,
                );
            }
        },
        Hittable::RotateY(ro) => {
            // Excluded by the rotation-free hypothesis.
        },
    }
}

/// The scan analogue of the narrowing law.
pub proof fn lemma_scan_narrow(
    objs: Seq<Hittable>,
    r: R3,
    lo: int,
    hi: int,
    hi2: int,
    n: int,
)
    requires
        forall|i: int| 0 <= i < objs.len() ==> (#[trigger] objs[i]).wf(),
        forall|i: int| 0 <= i < objs.len() ==> (#[trigger] objs[i]).rot_free(),
        hi2 <= hi,
        n <= objs.len(),
    ensures
        spec_scan(objs, r, lo, hi2, n) == spec_narrow(spec_scan(objs, r, lo, hi, n), hi2),
    decreases objs, n, 7int,
{
    if n <= 0 {
    } else {
        lemma_scan_narrow(objs, r, lo, hi, hi2, n - 1);
        let prev = spec_scan(objs, r, lo, hi, n - 1);
        let prev2 = spec_scan(objs, r, lo, hi2, n - 1);
        let child = objs[n - 1];
        match prev {
            Some(p) => {
                lemma_scan_bounds(objs, r, lo, hi, n - 1);
                lemma_hit_ok(child, r, lo, p.t);
                if p.t < hi2 {
                    assert(prev2 == Some(p));
                } else {
                    assert(prev2 is None);
                    lemma_hit_narrow(child, r, lo, p.t, hi2);
                }
            },
            None => {
                assert(prev2 is None);
                lemma_hit_narrow(child, r, lo, hi, hi2);
            },
        }
    }
}

/// Every hit a scan reports lies strictly inside the searched interval.
pub proof fn lemma_scan_bounds(objs: Seq<Hittable>, r: R3, lo: int, hi: int, n: int)
    requires
        forall|i: int| 0 <= i < objs.len() ==> (#[trigger] objs[i]).wf(),
        n <= objs.len(),
    ensures
        match spec_scan(objs, r, lo, hi, n) {
            Some(rec) => lo < rec.t < hi,
            None => true,
        },
    decreases objs, n, 6int,
{
    if n <= 0 {
    } else {
        lemma_scan_bounds(objs, r, lo, hi, n - 1);
        let prev = spec_scan(objs, r, lo, hi, n - 1);
        let cur_hi = match prev {
            Some(rec) => rec.t,
            None => hi,
        };
        lemma_hit_ok(objs[n - 1], r, lo, cur_hi);
    }
}

} // verus!
