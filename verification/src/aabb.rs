//! Axis-aligned bounding boxes: three intervals, one per axis.
//!
//! On the fixed-point grid the slab test is exact: `hit` returns true
//! precisely when some integer parameter strictly inside the search
//! interval reaches a point of the box.  That exactness is what makes the
//! bounding-volume hierarchy provably equivalent to the exhaustive scan.

use vstd::prelude::*;
use crate::fx::{
    fdiv, cdiv, fxmul, floor_div_i128, ceil_div_i128, imin, imax, lemma_fdiv_ge, lemma_fdiv_le,
    lemma_mul_le_iff, lemma_mul_ge_iff, SCALE,
};
use crate::interval::Interval;
use crate::ray::{Ray, R3};
use crate::vec3::{Point3, V3};

verus! {

/// Every integer ray parameter that a search interval can mention lies
/// well inside this window; the per-axis slab bounds are stated over it.
pub const T_WINDOW: i128 = 0x1_0000_0000_0000_0000_0000_0000;

#[derive(Clone, Copy, PartialEq, Eq, Structural, Debug, Default)]
pub struct Aabb {
    pub x: Interval,
    pub y: Interval,
    pub z: Interval,
}

impl Aabb {
    /// Pointwise membership, inclusive on all faces.
    pub open spec fn spec_contains_point(self, p: V3) -> bool {
        self.x.spec_contains(p.x) && self.y.spec_contains(p.y) && self.z.spec_contains(p.z)
    }

    /// `o` fits inside `self`, axis by axis.
    pub open spec fn spec_contains_box(self, o: Aabb) -> bool {
        self.x.min <= o.x.min && o.x.max <= self.x.max && self.y.min <= o.y.min && o.y.max
            <= self.y.max && self.z.min <= o.z.min && o.z.max <= self.z.max
    }

    /// The smallest box enclosing both arguments.
    pub open spec fn spec_union(a: Aabb, b: Aabb) -> Aabb {
        Aabb {
            x: Interval::spec_union(a.x, b.x),
            y: Interval::spec_union(a.y, b.y),
            z: Interval::spec_union(a.z, b.z),
        }
    }

    /// The exact meaning of the slab test: some integer parameter strictly
    /// inside `(lo, hi)` reaches a point of the box.
    pub open spec fn spec_hit(self, r: R3, lo: int, hi: int) -> bool {
        exists|t: int| lo < t < hi && #[trigger] self.spec_contains_point(r.at(t))
    }

    pub fn new(ix: Interval, iy: Interval, iz: Interval) -> (r: Self)
        ensures
            r == (Aabb { x: ix, y: iy, z: iz }),
    {
        Self { x: ix, y: iy, z: iz }
    }

    /// The box spanned by two corner points, in any order.
    pub fn new_from_points(a: Point3, b: Point3) -> (r: Self)
        ensures
            r.x.min == if a@.x <= b@.x { a@.x } else { b@.x },
            r.x.max == if a@.x >= b@.x { a@.x } else { b@.x },
            r.y.min == if a@.y <= b@.y { a@.y } else { b@.y },
            r.y.max == if a@.y >= b@.y { a@.y } else { b@.y },
            r.z.min == if a@.z <= b@.z { a@.z } else { b@.z },
            r.z.max == if a@.z >= b@.z { a@.z } else { b@.z },
    {
        Self {
            x: Interval::new(imin(a.x(), b.x()), imax(a.x(), b.x())),
            y: Interval::new(imin(a.y(), b.y()), imax(a.y(), b.y())),
            z: Interval::new(imin(a.z(), b.z()), imax(a.z(), b.z())),
        }
    }

    /// All six bounds within `b` of zero.
    pub open spec fn spec_bounded(self, b: int) -> bool {
        -b <= self.x.min <= b && -b <= self.x.max <= b && -b <= self.y.min <= b && -b <= self.y.max
            <= b && -b <= self.z.min <= b && -b <= self.z.max <= b
    }

    /// Widens any axis thinner than the minimum thickness, so coplanar
    /// geometry still registers in the slab test.
    pub fn pad(&self) -> (r: Self)
        requires
            self.spec_bounded(1_000_000_000_000),
        ensures
            r.x == spec_pad_axis(self.x),
            r.y == spec_pad_axis(self.y),
            r.z == spec_pad_axis(self.z),
            r.spec_contains_box(*self),
    {
        let delta: i64 = 100;
        let new_x = if self.x.size() >= delta {
            self.x
        } else {
            self.x.expand(delta)
        };
        let new_y = if self.y.size() >= delta {
            self.y
        } else {
            self.y.expand(delta)
        };
        let new_z = if self.z.size() >= delta {
            self.z
        } else {
            self.z.expand(delta)
        };
        Self::new(new_x, new_y, new_z)
    }

    /// The interval of one axis: 1 is y, 2 is z, anything else x.
    pub fn axis(self, n: i32) -> (r: Interval)
        ensures
            r == self.spec_axis(n as int),
    {
        if n == 1 {
            self.y
        } else if n == 2 {
            self.z
        } else {
            self.x
        }
    }

    /// The interval of one axis, as `axis` selects it.
    pub open spec fn spec_axis(self, n: int) -> Interval {
        if n == 1 {
            self.y
        } else if n == 2 {
            self.z
        } else {
            self.x
        }
    }

    /// The slab test, exact on the fixed-point grid.
    pub fn hit(self, r: Ray, ray_t: Interval) -> (b: bool)
        ensures
            b == self.spec_hit(r@, ray_t.min as int, ray_t.max as int),
    {
        let o = r.origin();
        let d = r.direction();
        let (okx, lx, ux) = slab_axis(o.x(), d.x(), self.x.min, self.x.max);
        let (oky, ly, uy) = slab_axis(o.y(), d.y(), self.y.min, self.y.max);
        let (okz, lz, uz) = slab_axis(o.z(), d.z(), self.z.min, self.z.max);
        let ghost lo = ray_t.min as int;
        let ghost hi = ray_t.max as int;
        if !(okx && oky && okz) {
            proof {
                assert forall|t: int| lo < t < hi implies !self.spec_contains_point(
                    r@.at(t),
                ) by {
                    assert(-T_WINDOW < t < T_WINDOW);
                }
            }
            return false;
        }
        let mut t0: i128 = (ray_t.min as i128) + 1;
        let mut t1: i128 = (ray_t.max as i128) - 1;
        if lx > t0 {
            t0 = lx;
        }
        if ly > t0 {
            t0 = ly;
        }
        if lz > t0 {
            t0 = lz;
        }
        if ux < t1 {
            t1 = ux;
        }
        if uy < t1 {
            t1 = uy;
        }
        if uz < t1 {
            t1 = uz;
        }
        if t0 <= t1 {
            proof {
                assert(-T_WINDOW < (t0 as int) < T_WINDOW);
                assert(self.spec_contains_point(r@.at(t0 as int)));
                assert(lo < (t0 as int) < hi);
            }
            true
        } else {
            proof {
                assert forall|t: int| lo < t < hi implies !self.spec_contains_point(
                    r@.at(t),
                ) by {
                    assert(-T_WINDOW < t < T_WINDOW);
                }
            }
            false
        }
    }

    /// The union of two boxes.
    pub fn aabb(box0: Aabb, box1: Aabb) -> (r: Aabb)
        ensures
            r == Aabb::spec_union(box0, box1),
    {
        Self {
            x: Interval::new_from_intervals(box0.x, box1.x),
            y: Interval::new_from_intervals(box0.y, box1.y),
            z: Interval::new_from_intervals(box0.z, box1.z),
        }
    }

    /// Pointwise membership test.
    pub fn contains_point(self, p: Point3) -> (b: bool)
        ensures
            b == self.spec_contains_point(p@),
    {
        self.x.contains(p.x()) && self.y.contains(p.y()) && self.z.contains(p.z())
    }
}

/// How `pad` treats one axis.
pub open spec fn spec_pad_axis(iv: Interval) -> Interval {
    if iv.max - iv.min >= 100 {
        iv
    } else {
        Interval { min: (iv.min - 50) as i64, max: (iv.max + 50) as i64 }
    }
}

/// One axis of the slab test.  When the flag is false no parameter in the
/// window satisfies the axis constraint; when true, the constraint holds
/// exactly for parameters between the two returned bounds.
fn slab_axis(o: i64, d: i64, bmin: i64, bmax: i64) -> (r: (bool, i128, i128))
    ensures
        !r.0 ==> forall|t: int|
            -T_WINDOW < t < T_WINDOW ==> !(bmin <= o + #[trigger] fxmul(t, d as int) <= bmax),
        r.0 ==> forall|t: int|
            -T_WINDOW < t < T_WINDOW ==> ((bmin <= o + #[trigger] fxmul(t, d as int) <= bmax)
                <==> r.1 <= t <= r.2),
        r.0 ==> -T_WINDOW < r.1 && r.2 < T_WINDOW,
{
    if d == 0 {
        proof {
            assert forall|t: int| -T_WINDOW < t < T_WINDOW implies #[trigger] fxmul(t, 0int)
                == 0int by {
                assert(t * 0 == 0);
                assert(fdiv(0int, SCALE as int) == 0);
            }
        }
        if bmin <= o && o <= bmax {
            (true, -T_WINDOW + 1, T_WINDOW - 1)
        } else {
            (false, 0, 0)
        }
    } else {
        let m: i128 = (bmin as i128) - (o as i128);
        let mm: i128 = (bmax as i128) - (o as i128);
        proof {
            assert(-0x3000_0000_0000_0000_0000_0000 < m * (SCALE as i128) < 0x3000_0000_0000_0000_0000_0000
                && -0x3000_0000_0000_0000_0000_0000 < mm * (SCALE as i128) < 0x3000_0000_0000_0000_0000_0000)
                by (nonlinear_arith)
                requires
                    -0x2_0000_0000_0000_0000 <= m <= 0x2_0000_0000_0000_0000,
                    -0x2_0000_0000_0000_0000 <= mm <= 0x2_0000_0000_0000_0000,
                    SCALE == 1_000_000i64,
            ;
        }
        let ms: i128 = m * (SCALE as i128);
        let mms: i128 = mm * (SCALE as i128) + (SCALE as i128) - 1;
        let (l, u) = if d > 0 {
            (ceil_div_i128(ms, d as i128), floor_div_i128(mms, d as i128))
        } else {
            (ceil_div_i128(-mms, -(d as i128)), floor_div_i128(-ms, -(d as i128)))
        };
        proof {
            lemma_slab_axis_range(o as int, d as int, bmin as int, bmax as int, l as int, u as int);
            lemma_slab_bounds_in_window(ms as int, mms as int, d as int, l as int, u as int);
        }
        (true, l, u)
    }
}

/// The heart of the exact slab test: for a nonzero direction component the
/// axis constraint on the reached point is equivalent to a closed interval
/// of integer parameters.
proof fn lemma_slab_axis_range(o: int, d: int, bmin: int, bmax: int, l: int, u: int)
    requires
        d != 0,
        d > 0 ==> l == cdiv((bmin - o) * SCALE, d) && u == fdiv((bmax - o) * SCALE + SCALE - 1, d),
        d < 0 ==> l == cdiv(-((bmax - o) * SCALE + SCALE - 1), -d) && u == fdiv(
            -((bmin - o) * SCALE),
            -d,
        ),
    ensures
        forall|t: int| (bmin <= o + #[trigger] fxmul(t, d) <= bmax) <==> l <= t <= u,
{
    let s = SCALE as int;
    let ms = (bmin - o) * s;
    let mms = (bmax - o) * s + s - 1;
    assert forall|t: int| (bmin <= o + #[trigger] fxmul(t, d) <= bmax) <==> l <= t <= u by {
        lemma_fdiv_ge(t * d, s, bmin - o);
        lemma_fdiv_le(t * d, s, bmax - o);
        assert((bmin <= o + fxmul(t, d) <= bmax) <==> (ms <= t * d && t * d <= mms))
            by (nonlinear_arith)
            requires
                s == 1_000_000,
                ms == (bmin - o) * s,
                mms == (bmax - o) * s + s - 1,
                fxmul(t, d) == fdiv(t * d, s),
                (fdiv(t * d, s) >= bmin - o <==> t * d >= (bmin - o) * s),
                (fdiv(t * d, s) <= bmax - o <==> t * d < ((bmax - o) + 1) * s),
        ;
        if d > 0 {
            lemma_mul_ge_iff(t, d, ms);
            lemma_mul_le_iff(t, d, mms);
        } else {
            lemma_mul_le_iff(t, -d, -ms);
            lemma_mul_ge_iff(t, -d, -mms);
            assert((ms <= t * d <==> t * (-d) <= -ms) && (t * d <= mms <==> t * (-d) >= -mms))
                by (nonlinear_arith);
        }
    }
}

/// The slab bounds computed from 64-bit box and ray data stay inside the
/// window.
proof fn lemma_slab_bounds_in_window(ms: int, mms: int, d: int, l: int, u: int)
    requires
        d != 0,
        -0x4000_0000_0000_0000_0000_0000 <= ms <= 0x4000_0000_0000_0000_0000_0000,
        -0x4000_0000_0000_0000_0000_0000 <= mms <= 0x4000_0000_0000_0000_0000_0000,
        d > 0 ==> l == cdiv(ms, d) && u == fdiv(mms, d),
        d < 0 ==> l == cdiv(-mms, -d) && u == fdiv(-ms, -d),
    ensures
        -T_WINDOW < l && u < T_WINDOW,
{
    let e: int = if d > 0 {
        d
    } else {
        -d
    };
    let a1: int = if d > 0 {
        -ms
    } else {
        mms
    };
    let a2: int = if d > 0 {
        mms
    } else {
        -ms
    };
    crate::fx::lemma_fdiv_bounds(a1, e);
    crate::fx::lemma_fdiv_bounds(a2, e);
    assert(l == -fdiv(a1, e) && u == fdiv(a2, e));
    assert(-T_WINDOW < -fdiv(a1, e) && fdiv(a2, e) < T_WINDOW) by (nonlinear_arith)
        requires
            e >= 1,
            -0x4000_0000_0000_0000_0000_0000 <= a1 <= 0x4000_0000_0000_0000_0000_0000,
            -0x4000_0000_0000_0000_0000_0000 <= a2 <= 0x4000_0000_0000_0000_0000_0000,
            fdiv(a1, e) * e <= a1 < (fdiv(a1, e) + 1) * e,
            fdiv(a2, e) * e <= a2 < (fdiv(a2, e) + 1) * e,
            T_WINDOW == 0x1_0000_0000_0000_0000_0000_0000i128,
    ;
}

/// The union of two boxes contains every point of each.
pub proof fn lemma_union_contains_point(a: Aabb, b: Aabb, p: V3)
    requires
        a.spec_contains_point(p) || b.spec_contains_point(p),
    ensures
        Aabb::spec_union(a, b).spec_contains_point(p),
{
}

/// The union of two boxes encloses both.
pub proof fn lemma_union_contains_box(a: Aabb, b: Aabb)
    ensures
        Aabb::spec_union(a, b).spec_contains_box(a),
        Aabb::spec_union(a, b).spec_contains_box(b),
{
}

/// Box containment carries point membership.
pub proof fn lemma_contains_box_point(outer: Aabb, inner: Aabb, p: V3)
    requires
        outer.spec_contains_box(inner),
        inner.spec_contains_point(p),
    ensures
        outer.spec_contains_point(p),
{
}

/// Box containment is transitive.
pub proof fn lemma_contains_box_trans(a: Aabb, b: Aabb, c: Aabb)
    requires
        a.spec_contains_box(b),
        b.spec_contains_box(c),
    ensures
        a.spec_contains_box(c),
{
}

/// The union of boxes is commutative — exactly, with no tolerance.
pub proof fn lemma_union_commutative(a: Aabb, b: Aabb)
    ensures
        Aabb::spec_union(a, b) == Aabb::spec_union(b, a),
{
}

/// The union of boxes is associative — exactly, with no tolerance.
pub proof fn lemma_union_associative(a: Aabb, b: Aabb, c: Aabb)
    ensures
        Aabb::spec_union(Aabb::spec_union(a, b), c) == Aabb::spec_union(a, Aabb::spec_union(b, c)),
{
}

} // verus!
