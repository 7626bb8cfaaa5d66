//! A ray: origin, direction and a time in `[0, 1)` for motion blur.

use vstd::prelude::*;
use crate::fx::{fxmul, SCALE};
use crate::vec3::{Point3, Vec3, V3, COORD_MAX};

verus! {

/// The mathematical value of a ray.
pub ghost struct R3 {
    pub orig: V3,
    pub dir: V3,
    pub time: int,
}

impl R3 {
    /// The point reached at parameter `t`: `origin + t * direction`.
    pub open spec fn at(self, t: int) -> V3 {
        self.orig.add(self.dir.smul(t))
    }

    /// Well-formed rays: the origin anywhere a hit point can lie, the
    /// direction within the world bound, the time in `[0, 1]`.
    pub open spec fn wf(self) -> bool {
        self.orig.bounded(4 * COORD_MAX as int) && self.dir.wf() && 0 <= self.time <= SCALE as int
    }
}

#[derive(Clone, Copy, PartialEq, Eq, Structural, Debug)]
pub struct Ray {
    pub orig: Point3,
    pub dir: Vec3,
    pub tm: i64,
}

impl View for Ray {
    type V = R3;

    open spec fn view(&self) -> R3 {
        R3 { orig: self.orig@, dir: self.dir@, time: self.tm as int }
    }
}

impl Ray {
    pub fn new(orig: Point3, dir: Vec3) -> (r: Self)
        ensures
            r@ == (R3 { orig: orig@, dir: dir@, time: 0int }),
    {
        Self { orig, dir, tm: 0 }
    }

    pub fn new_with_time(orig: Point3, dir: Vec3, time: i64) -> (r: Self)
        ensures
            r@ == (R3 { orig: orig@, dir: dir@, time: time as int }),
    {
        Self { orig, dir, tm: time }
    }

    /// The point reached at parameter `t`.
    pub fn at(self, t: i64) -> (r: Point3)
        requires
            i64::MIN <= fxmul(t as int, self@.dir.x) <= i64::MAX,
            i64::MIN <= fxmul(t as int, self@.dir.y) <= i64::MAX,
            i64::MIN <= fxmul(t as int, self@.dir.z) <= i64::MAX,
            i64::MIN <= self@.orig.x + fxmul(t as int, self@.dir.x) <= i64::MAX,
            i64::MIN <= self@.orig.y + fxmul(t as int, self@.dir.y) <= i64::MAX,
            i64::MIN <= self@.orig.z + fxmul(t as int, self@.dir.z) <= i64::MAX,
        ensures
            r@ == self@.at(t as int),
    {
        self.orig.add(self.dir.scale(t))
    }

    /// The point reached at parameter `t`, computed with wide intermediates
    /// and returned only when it stays inside the world bound; a hit whose
    /// point leaves the world is rejected as degenerate.
    pub fn at_bounded(self, t: i64) -> (r: Option<Point3>)
        ensures
            self@.at(t as int).bounded(4 * COORD_MAX as int) ==> (r matches Some(p) && p@
                == self@.at(t as int)),
            !self@.at(t as int).bounded(4 * COORD_MAX as int) ==> r is None,
    {
        let px = at_component(self.orig.x(), self.dir.x(), t);
        let py = at_component(self.orig.y(), self.dir.y(), t);
        let pz = at_component(self.orig.z(), self.dir.z(), t);
        let bound: i128 = 4 * (COORD_MAX as i128);
        if -bound <= px && px <= bound && -bound <= py && py <= bound && -bound <= pz && pz
            <= bound {
            Some(Vec3::new(px as i64, py as i64, pz as i64))
        } else {
            None
        }
    }

    pub fn origin(self) -> (r: Point3)
        ensures
            r@ == self@.orig,
    {
        self.orig
    }

    pub fn direction(self) -> (r: Vec3)
        ensures
            r@ == self@.dir,
    {
        self.dir
    }

    pub fn time(self) -> (r: i64)
        ensures
            r == self@.time,
    {
        self.tm
    }
}

/// One component of `at`, in 128-bit arithmetic.
fn at_component(o: i64, d: i64, t: i64) -> (r: i128)
    ensures
        r == o + fxmul(t as int, d as int),
{
    proof {
        assert(i128::MIN < (t as i128) * (d as i128) < i128::MAX) by (nonlinear_arith)
            requires
                i64::MIN <= t <= i64::MAX,
                i64::MIN <= d <= i64::MAX,
        ;
    }
    let p: i128 = (t as i128) * (d as i128);
    let q = crate::fx::floor_div_i128(p, SCALE as i128);
    (o as i128) + q
}

} // verus!
