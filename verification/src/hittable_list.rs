//! An ordered aggregate of hittables, intersected by scanning every child
//! and keeping the closest hit.

use vstd::prelude::*;
use crate::aabb::Aabb;
use crate::hittable::{HitRecord, Hittable, hit_post, spec_scan};
use crate::interval::Interval;
use crate::ray::Ray;

verus! {

pub struct HittableList {
    pub objects: Vec<Hittable>,
    pub bbox: Aabb,
}

impl HittableList {
    /// Well-formed lists: every child is well-formed and the cached box
    /// encloses every child's box.
    pub open spec fn wf(self) -> bool
        decreases self,
    {
        &&& forall|i: int| 0 <= i < self.objects@.len() ==> (#[trigger] self.objects@[i]).wf()
        &&& forall|i: int|
            0 <= i < self.objects@.len() ==> self.bbox.spec_contains_box(
                (#[trigger] self.objects@[i]).spec_bbox(),
            )
    }

    /// A list holding one object.
    pub fn new(object: Hittable) -> (r: Self)
        requires
            object.wf(),
        ensures
            r.wf(),
            r.objects@.len() == 1,
            r.objects@[0] == object,
    {
        let mut list = HittableList::default();
        list.add(object);
        list
    }

    /// Drops every object; the cached box is left as it was.
    pub fn clear(&mut self)
        ensures
            final(self).objects@.len() == 0,
            final(self).bbox == old(self).bbox,
            final(self).wf(),
    {
        self.objects.clear()
    }

    /// Appends an object, growing the cached box to enclose it.
    pub fn add(&mut self, object: Hittable)
        requires
            old(self).wf(),
            object.wf(),
        ensures
            final(self).wf(),
            final(self).objects@ == old(self).objects@.push(object),
            final(self).bbox == Aabb::spec_union(old(self).bbox, object.spec_bbox()),
    {
        let object_bbox = object.bounding_box();
        self.objects.push(object);
        self.bbox = Aabb::aabb(self.bbox, object_bbox);
        proof {
            let new_box = self.bbox;
            let objs = self.objects@;
            crate::aabb::lemma_union_contains_box(old(self).bbox, object_bbox);
            assert forall|i: int| 0 <= i < objs.len() implies new_box.spec_contains_box(
                (#[trigger] objs[i]).spec_bbox(),
            ) by {
                if i < objs.len() - 1 {
                    crate::aabb::lemma_contains_box_trans(
                        new_box,
                        old(self).bbox,
                        objs[i].spec_bbox(),
                    );
                }
            }
        }
    }

    /// Scans every child, narrowing the search interval to the closest hit
    /// found so far.
    pub fn hit(&self, r: Ray, ray_t: Interval, rec: &mut HitRecord) -> (b: bool)
        requires
            self.wf(),
            r@.wf(),
        ensures
            hit_post(
                spec_scan(
                    self.objects@,
                    r@,
                    ray_t.min as int,
                    ray_t.max as int,
                    self.objects@.len() as int,
                ),
                b,
                *old(rec),
                *final(rec),
            ),
        decreases *self, 0int,
    {
        let mut temp_rec = HitRecord::default();
        let mut hit_anything = false;
        let mut closest_so_far = ray_t.max;
        let ghost lo = ray_t.min as int;
        let ghost hi = ray_t.max as int;
        let n = self.objects.len();
        let mut i: usize = 0;
        while i < n
            invariant
                n == self.objects@.len(),
                0 <= i <= n,
                self.wf(),
                r@.wf(),
                lo == ray_t.min as int,
                hi == ray_t.max as int,
                match spec_scan(self.objects@, r@, lo, hi, i as int) {
                    Some(h) => hit_anything && closest_so_far == h.t && temp_rec@ == h && *rec
                        == temp_rec,
                    None => !hit_anything && closest_so_far == ray_t.max && *rec == *old(rec),
                },
            decreases n - i,
        {
            let obj = &self.objects[i];
            proof {
                assert(self.objects@[i as int].wf());
            }
            if obj.hit(r, Interval::new(ray_t.min, closest_so_far), &mut temp_rec) {
                hit_anything = true;
                closest_so_far = temp_rec.t;
                *rec = temp_rec;
            }
            i = i + 1;
        }
        hit_anything
    }

    /// The cached bound enclosing every child.
    pub fn bounding_box(&self) -> (r: Aabb)
        ensures
            r == self.bbox,
    {
        self.bbox
    }
}

impl Default for HittableList {
    /// The empty list, with a degenerate box at the origin.
    fn default() -> (r: Self)
        ensures
            r.wf(),
            r.objects@.len() == 0,
            r.bbox == (Aabb {
                x: Interval { min: 0i64, max: 0i64 },
                y: Interval { min: 0i64, max: 0i64 },
                z: Interval { min: 0i64, max: 0i64 },
            }),
    {
        HittableList {
            objects: Vec::new(),
            bbox: Aabb::new(Interval::new(0, 0), Interval::new(0, 0), Interval::new(0, 0)),
        }
    }
}

} // verus!
