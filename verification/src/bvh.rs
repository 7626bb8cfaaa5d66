//! The bounding-volume hierarchy: a binary tree built by splitting the
//! primitive sequence at the median of a randomly chosen axis.

use vstd::prelude::*;
use vstd::seq_lib::group_to_multiset_ensures;
use vstd::multiset::Multiset;
use crate::aabb::Aabb;
use crate::hittable::{HitRecord, HitR, Hittable, hit_post, spec_scan, spec_narrow, lemma_hit_ok, lemma_hit_narrow, lemma_scan_bounds};
use crate::ray::R3;
use crate::hittable_list::HittableList;
use crate::interval::Interval;
use crate::ray::Ray;
use crate::rng::random_int;

verus! {

broadcast use vstd::multiset::group_multiset_axioms;

pub struct BvhNode {
    pub left: Hittable,
    pub right: Hittable,
    pub bbox: Aabb,
}

/// The sequence of leaves of a subtree, left to right; a non-tree node is
/// its own single leaf.
pub open spec fn spec_leaves(h: Hittable) -> Seq<Hittable>
    decreases h, 1int,
{
    match h {
        Hittable::Bvh(b) => spec_leaves(b.left) + spec_leaves(b.right),
        _ => seq![h],
    }
}

impl BvhNode {
    /// Builds the hierarchy over a list's objects.
    pub fn new(list: HittableList) -> (r: Hittable)
        requires
            list.wf(),
            list.objects@.len() >= 1,
            forall|i: int| 0 <= i < list.objects@.len() ==> !((#[trigger] list.objects@[i]) is Bvh),
        ensures
            r.wf(),
            spec_leaves(r).to_multiset() == list.objects@.to_multiset(),
    {
        let ghost objs = list.objects@;
        let n = list.objects.len();
        let r = Self::new_split(list.objects, 0, n);
        proof {
            assert(objs.subrange(0, n as int) =~= objs);
        }
        r
    }

    /// Builds the hierarchy over the range `[start, end)` of a primitive
    /// sequence.  The range must not be empty.
    pub fn new_split(src_objects: Vec<Hittable>, start: usize, end: usize) -> (r: Hittable)
        requires
            0 <= start < end <= src_objects@.len(),
            forall|i: int| 0 <= i < src_objects@.len() ==> (#[trigger] src_objects@[i]).wf(),
            forall|i: int| 0 <= i < src_objects@.len() ==> !((#[trigger] src_objects@[i]) is Bvh),
        ensures
            r.wf(),
            spec_leaves(r).to_multiset() == src_objects@.subrange(
                start as int,
                end as int,
            ).to_multiset(),
            (forall|i: int|
                0 <= i < src_objects@.len() ==> (#[trigger] src_objects@[i]).rot_free())
                ==> r.rot_free(),
    {
        let ghost orig = src_objects@;
        let mut seg = src_objects;
        let mut tail = seg.split_off(start);
        tail.truncate(end - start);
        proof {
            assert(tail@ =~= orig.subrange(start as int, end as int));
            assert forall|i: int| 0 <= i < tail@.len() implies (#[trigger] tail@[i]).wf() && !(
            tail@[i] is Bvh) && ((forall|j: int|
                0 <= j < orig.len() ==> (#[trigger] orig[j]).rot_free()) ==> tail@[i].rot_free()) by {
                assert(tail@[i] == orig[start + i]);
            }
        }
        build(tail)
    }

    /// Prunes against the node's box, then tries the left child, then the
    /// right child with the search interval narrowed to the left hit.
    pub fn hit(&self, r: Ray, ray_t: Interval, rec: &mut HitRecord) -> (b: bool)
        requires
            Hittable::Bvh(Box::new(*self)).wf(),
            r@.wf(),
        ensures
            hit_post(
                Hittable::Bvh(Box::new(*self)).spec_hit(r@, ray_t.min as int, ray_t.max as int),
                b,
                *old(rec),
                *final(rec),
            ),
        decreases *self, 0int,
    {
        if !self.bbox.hit(r, ray_t) {
            return false;
        }
        let hit_left = self.left.hit(r, ray_t, rec);
        let narrowed = Interval::new(
            ray_t.min,
            if hit_left {
                rec.t
            } else {
                ray_t.max
            },
        );
        let hit_right = self.right.hit(r, narrowed, rec);
        hit_left || hit_right
    }

    /// The cached bound of the whole subtree.
    pub fn bounding_box(&self) -> (r: Aabb)
        ensures
            r == self.bbox,
    {
        self.bbox
    }
}

/// Builds a tree over a whole owned segment: a single object stands for
/// itself (rather than being aliased into both children of a degenerate
/// node, which would double it in the leaf multiset), two are ordered by
/// the chosen axis, more are sorted by the chosen axis and split at the
/// median.
fn build(objects: Vec<Hittable>) -> (r: Hittable)
    requires
        objects@.len() >= 1,
        forall|i: int| 0 <= i < objects@.len() ==> (#[trigger] objects@[i]).wf(),
        forall|i: int| 0 <= i < objects@.len() ==> !((#[trigger] objects@[i]) is Bvh),
    ensures
        r.wf(),
        spec_leaves(r).to_multiset() == objects@.to_multiset(),
        (forall|i: int| 0 <= i < objects@.len() ==> (#[trigger] objects@[i]).rot_free())
            ==> r.rot_free(),
    decreases objects@.len(),
{
    broadcast use group_to_multiset_ensures;

    let ghost whole = objects@;
    let axis = random_int(0, 2);
    let mut objs = objects;
    if objs.len() == 1 {
        let single = objs.pop().unwrap();
        proof {
            assert(whole =~= seq![single]);
            assert(spec_leaves(single) =~= seq![single]);
        }
        single
    } else if objs.len() == 2 {
        let second = objs.pop().unwrap();
        let first = objs.pop().unwrap();
        let ghost orig = objs@.push(first).push(second);
        proof {
            assert(orig =~= whole);
        }
        let (left, right) = if box_compare(&first, &second, axis) {
            (first, second)
        } else {
            (second, first)
        };
        let bbox = Aabb::aabb(left.bounding_box(), right.bounding_box());
        let node = Hittable::Bvh(Box::new(BvhNode { left, right, bbox }));
        proof {
            crate::aabb::lemma_union_contains_box(left.spec_bbox(), right.spec_bbox());
            assert(spec_leaves(left) =~= seq![left]);
            assert(spec_leaves(right) =~= seq![right]);
            assert(spec_leaves(node) =~= seq![left] + seq![right]);
            assert((seq![left] + seq![right]) =~= seq![left].push(right));
            assert(seq![left] =~= Seq::<Hittable>::empty().push(left));
            assert(seq![first] =~= Seq::<Hittable>::empty().push(first));
            assert(orig =~= seq![first].push(second));
            lemma_pair_multiset(left, right, first, second);
            assert(spec_leaves(node).to_multiset() =~= orig.to_multiset());
        }
        node
    } else {
        let mut sorted = sort_by_axis(objs, axis);
        proof {
            assert forall|i: int| 0 <= i < sorted@.len() implies (#[trigger] sorted@[i]).wf() && !(
            sorted@[i] is Bvh) && ((forall|j: int|
                0 <= j < whole.len() ==> (#[trigger] whole[j]).rot_free())
                ==> sorted@[i].rot_free()) by {
                assert(sorted@.to_multiset().contains(sorted@[i]));
                assert(whole.to_multiset().contains(sorted@[i]));
                assert(whole.contains(sorted@[i]));
                let j = choose|j: int| 0 <= j < whole.len() && whole[j] == sorted@[i];
                assert(whole[j].wf());
            }
        }
        let ghost sorted_all = sorted@;
        let mid = sorted.len() / 2;
        let right_part = sorted.split_off(mid);
        proof {
            assert(sorted@ + right_part@ =~= sorted_all);
            vstd::seq_lib::lemma_multiset_commutative(sorted@, right_part@);
        }
        let left = build(sorted);
        let right = build(right_part);
        let bbox = Aabb::aabb(left.bounding_box(), right.bounding_box());
        proof {
            crate::aabb::lemma_union_contains_box(left.spec_bbox(), right.spec_bbox());
        }
        let node = Hittable::Bvh(Box::new(BvhNode { left, right, bbox }));
        proof {
            assert(spec_leaves(node) =~= spec_leaves(left) + spec_leaves(right));
            vstd::seq_lib::lemma_multiset_commutative(spec_leaves(left), spec_leaves(right));
        }
        node
    }
}

/// Two singleton insertions commute with renaming the pair.
proof fn lemma_pair_multiset(left: Hittable, right: Hittable, first: Hittable, second: Hittable)
    requires
        (left == first && right == second) || (left == second && right == first),
    ensures
        Seq::<Hittable>::empty().push(left).to_multiset().insert(right)
            =~= Seq::<Hittable>::empty().push(first).to_multiset().insert(second),
{
    broadcast use group_to_multiset_ensures;

    assert(Seq::<Hittable>::empty().push(left).to_multiset() =~= Seq::<
        Hittable,
    >::empty().to_multiset().insert(left));
    assert(Seq::<Hittable>::empty().push(first).to_multiset() =~= Seq::<
        Hittable,
    >::empty().to_multiset().insert(first));
    let e = Seq::<Hittable>::empty().to_multiset();
    assert(e.insert(left).insert(right) =~= e.insert(first).insert(second));
}

/// Orders two objects by the minimum bound of the chosen axis.
fn box_compare(a: &Hittable, b: &Hittable, axis_index: i32) -> (r: bool)
    ensures
        r == spec_box_less(*a, *b, axis_index as int),
{
    let a_min = a.bounding_box().axis(axis_index).min;
    let b_min = b.bounding_box().axis(axis_index).min;
    a_min < b_min
}

/// The comparison the builder sorts by: strictly smaller minimum bound on
/// the chosen axis.
pub open spec fn spec_box_less(a: Hittable, b: Hittable, axis_index: int) -> bool {
    a.spec_bbox().spec_axis(axis_index).min < b.spec_bbox().spec_axis(axis_index).min
}

/// Selection sort by the chosen axis: repeatedly extracts the least
/// remaining object.  The result holds exactly the same objects.
fn sort_by_axis(objects: Vec<Hittable>, axis: i32) -> (r: Vec<Hittable>)
    ensures
        r@.to_multiset() == objects@.to_multiset(),
        r@.len() == objects@.len(),
{
    broadcast use group_to_multiset_ensures;

    let mut rest = objects;
    let mut out: Vec<Hittable> = Vec::new();
    proof {
        assert(out@.to_multiset().add(rest@.to_multiset()) =~= objects@.to_multiset()) by {
            assert(out@.to_multiset() =~= Multiset::<Hittable>::empty());
        }
    }
    while rest.len() > 0
        invariant
            out@.to_multiset().add(rest@.to_multiset()) == objects@.to_multiset(),
            out@.len() + rest@.len() == objects@.len(),
        decreases rest@.len(),
    {
        let mut best: usize = 0;
        let mut j: usize = 1;
        while j < rest.len()
            invariant
                0 <= best < rest@.len(),
                1 <= j <= rest@.len(),
            decreases rest@.len() - j,
        {
            if box_compare(&rest[j], &rest[best], axis) {
                best = j;
            }
            j = j + 1;
        }
        let ghost ro = rest@;
        let ghost oo = out@;
        let x = rest.remove(best);
        out.push(x);
        proof {
            ro.to_multiset_ensures();
            oo.to_multiset_ensures();
            assert(rest@ == ro.remove(best as int));
            assert(ro.remove(best as int).to_multiset() =~= ro.to_multiset().remove(
                ro[best as int],
            ));
            assert(out@ == oo.push(x));
            assert(oo.push(x).to_multiset() =~= oo.to_multiset().insert(x));
            assert(ro.to_multiset().contains(x)) by {
                assert(ro[best as int] == x);
                assert(ro.contains(x));
            }
            assert(out@.to_multiset().add(rest@.to_multiset()) =~= objects@.to_multiset());
        }
    }
    proof {
        rest@.to_multiset_ensures();
        assert(rest@.to_multiset() =~= Multiset::<Hittable>::empty()) by {
            assert forall|a: Hittable| rest@.to_multiset().count(a) == 0 by {
                if rest@.to_multiset().count(a) > 0 {
                    assert(rest@.contains(a));
                }
            }
        }
        assert(out@.to_multiset() =~= objects@.to_multiset());
    }
    out
}


/// The closest-hit scan misses exactly when every object misses over the
/// whole interval: the interval narrowing never hides a hit.
pub proof fn lemma_scan_none_iff(objs: Seq<Hittable>, r: R3, lo: int, hi: int, n: int)
    requires
        n <= objs.len(),
    ensures
        (spec_scan(objs, r, lo, hi, n) is None) <==> (forall|i: int|
            0 <= i < n ==> (#[trigger] objs[i]).spec_hit(r, lo, hi) is None),
    decreases n,
{
    if n <= 0 {
    } else {
        lemma_scan_none_iff(objs, r, lo, hi, n - 1);
    }
}

/// Every leaf of a well-formed subtree is well-formed, keeps the subtree's
/// freedom from rotations, and fits inside the subtree's box.
pub proof fn lemma_leaves_wf(h: Hittable)
    requires
        h.wf(),
    ensures
        forall|i: int| 0 <= i < spec_leaves(h).len() ==> (#[trigger] spec_leaves(h)[i]).wf(),
        forall|i: int|
            0 <= i < spec_leaves(h).len() ==> h.spec_bbox().spec_contains_box(
                (#[trigger] spec_leaves(h)[i]).spec_bbox(),
            ),
        h.rot_free() ==> forall|i: int|
            0 <= i < spec_leaves(h).len() ==> (#[trigger] spec_leaves(h)[i]).rot_free(),
        spec_leaves(h).len() >= 1,
    decreases h, 2int,
{
    match h {
        Hittable::Bvh(b) => {
            lemma_leaves_wf(b.left);
            lemma_leaves_wf(b.right);
            let ll = spec_leaves(b.left);
            let lr = spec_leaves(b.right);
            assert(spec_leaves(h) == ll + lr);
            assert forall|i: int| 0 <= i < spec_leaves(h).len() implies (#[trigger] spec_leaves(
                h,
            )[i]).wf() && h.spec_bbox().spec_contains_box(spec_leaves(h)[i].spec_bbox()) by {
                if i < ll.len() {
                    assert(spec_leaves(h)[i] == ll[i]);
                    crate::aabb::lemma_contains_box_trans(
                        b.bbox,
                        b.left.spec_bbox(),
                        ll[i].spec_bbox(),
                    );
                } else {
                    assert(spec_leaves(h)[i] == lr[i - ll.len()]);
                    crate::aabb::lemma_contains_box_trans(
                        b.bbox,
                        b.right.spec_bbox(),
                        lr[i - ll.len()].spec_bbox(),
                    );
                }
            }
            if h.rot_free() {
                assert forall|i: int| 0 <= i < spec_leaves(h).len() implies (
                #[trigger] spec_leaves(h)[i]).rot_free() by {
                    if i < ll.len() {
                        assert(spec_leaves(h)[i] == ll[i]);
                    } else {
                        assert(spec_leaves(h)[i] == lr[i - ll.len()]);
                    }
                }
            }
        },
        _ => {
            assert(spec_leaves(h) == seq![h]);
        },
    }
}

/// A subtree of the hierarchy misses exactly when every one of its leaves
/// misses over the whole interval.  Box pruning never hides a hit because
/// a rotation-free hit point is exactly the ray's point at its parameter,
/// inside the leaf's box and hence inside every enclosing node's box.
pub proof fn lemma_bvh_none_iff_leaves(h: Hittable, r: R3, lo: int, hi: int)
    requires
        h.wf(),
        h.rot_free(),
    ensures
        (h.spec_hit(r, lo, hi) is None) <==> (forall|i: int|
            0 <= i < spec_leaves(h).len() ==> (#[trigger] spec_leaves(h)[i]).spec_hit(
                r,
                lo,
                hi,
            ) is None),
    decreases h, 2int,
{
    lemma_leaves_wf(h);
    match h {
        Hittable::Bvh(b) => {
            lemma_bvh_none_iff_leaves(b.left, r, lo, hi);
            lemma_bvh_none_iff_leaves(b.right, r, lo, hi);
            let ll = spec_leaves(b.left);
            let lr = spec_leaves(b.right);
            assert(spec_leaves(h) == ll + lr);
            lemma_leaves_wf(b.left);
            lemma_leaves_wf(b.right);
            if !b.bbox.spec_hit(r, lo, hi) {
                assert forall|i: int| 0 <= i < spec_leaves(h).len() implies (
                #[trigger] spec_leaves(h)[i]).spec_hit(r, lo, hi) is None by {
                    let leaf = spec_leaves(h)[i];
                    if i < ll.len() {
                        assert(leaf == ll[i]);
                    } else {
                        assert(leaf == lr[i - ll.len()]);
                    }
                    lemma_hit_ok(leaf, r, lo, hi);
                    match leaf.spec_hit(r, lo, hi) {
                        Some(rec) => {
                            crate::aabb::lemma_contains_box_point(
                                b.bbox,
                                leaf.spec_bbox(),
                                rec.p,
                            );
                            assert(b.bbox.spec_contains_point(r.at(rec.t)));
                            assert(false);
                        },
                        None => {},
                    }
                }
            } else {
                let lh = b.left.spec_hit(r, lo, hi);
                if lh is None {
                    assert(h.spec_hit(r, lo, hi) is None <==> b.right.spec_hit(
                        r,
                        lo,
                        hi,
                    ) is None);
                    if b.right.spec_hit(r, lo, hi) is None {
                        assert forall|i: int| 0 <= i < spec_leaves(h).len() implies (
                        #[trigger] spec_leaves(h)[i]).spec_hit(r, lo, hi) is None by {
                            if i < ll.len() {
                                assert(spec_leaves(h)[i] == ll[i]);
                            } else {
                                assert(spec_leaves(h)[i] == lr[i - ll.len()]);
                            }
                        }
                    } else {
                        let j = choose|j: int|
                            0 <= j < lr.len() && !((#[trigger] lr[j]).spec_hit(r, lo, hi) is None);
                        assert(spec_leaves(h)[ll.len() + j] == lr[j]);
                        assert(!(spec_leaves(h)[ll.len() + j].spec_hit(r, lo, hi) is None));
                    }
                } else {
                    assert(!(h.spec_hit(r, lo, hi) is None));
                    let j = choose|j: int|
                        0 <= j < ll.len() && !((#[trigger] ll[j]).spec_hit(r, lo, hi) is None);
                    assert(spec_leaves(h)[j] == ll[j]);
                    assert(!(spec_leaves(h)[j].spec_hit(r, lo, hi) is None));
                }
            }
        },
        _ => {
            assert(spec_leaves(h) == seq![h]);
            assert(spec_leaves(h)[0] == h);
        },
    }
}

/// The hierarchy and the exhaustive scan agree on whether anything is hit:
/// for any ray and any interval, the hierarchy built over a permutation of
/// a rotation-free list's objects reports a hit exactly when the list's
/// scan does.
pub proof fn lemma_bvh_matches_list_on_misses(
    tree: Hittable,
    list: HittableList,
    r: R3,
    lo: int,
    hi: int,
)
    requires
        tree.wf(),
        tree.rot_free(),
        Hittable::List(list).wf(),
        spec_leaves(tree).to_multiset() == list.objects@.to_multiset(),
    ensures
        (tree.spec_hit(r, lo, hi) is None) <==> (Hittable::List(list).spec_hit(
            r,
            lo,
            hi,
        ) is None),
{
    broadcast use group_to_multiset_ensures;

    let leaves = spec_leaves(tree);
    let objs = list.objects@;
    lemma_bvh_none_iff_leaves(tree, r, lo, hi);
    lemma_scan_none_iff(objs, r, lo, hi, objs.len() as int);
    leaves.to_multiset_ensures();
    objs.to_multiset_ensures();
    if tree.spec_hit(r, lo, hi) is None {
        assert forall|i: int| 0 <= i < objs.len() implies (#[trigger] objs[i]).spec_hit(
            r,
            lo,
            hi,
        ) is None by {
            assert(objs.contains(objs[i]));
            assert(objs.to_multiset().count(objs[i]) > 0);
            assert(leaves.to_multiset().count(objs[i]) > 0);
            assert(leaves.contains(objs[i]));
            let j = choose|j: int| 0 <= j < leaves.len() && leaves[j] == objs[i];
            assert(leaves[j].spec_hit(r, lo, hi) is None);
        }
    }
    if Hittable::List(list).spec_hit(r, lo, hi) is None {
        assert forall|i: int| 0 <= i < leaves.len() implies (#[trigger] leaves[i]).spec_hit(
            r,
            lo,
            hi,
        ) is None by {
            assert(leaves.contains(leaves[i]));
            assert(leaves.to_multiset().count(leaves[i]) > 0);
            assert(objs.to_multiset().count(leaves[i]) > 0);
            assert(objs.contains(leaves[i]));
            let j = choose|j: int| 0 <= j < objs.len() && objs[j] == leaves[i];
            assert(objs[j].spec_hit(r, lo, hi) is None);
        }
    }
}


/// What the closest-hit scan returns, characterized against the whole
/// interval: a record one of the objects reports there, no farther than
/// any other object's report.
pub proof fn lemma_scan_closest(objs: Seq<Hittable>, r: R3, lo: int, hi: int, n: int)
    requires
        forall|i: int| 0 <= i < objs.len() ==> (#[trigger] objs[i]).wf(),
        forall|i: int| 0 <= i < objs.len() ==> (#[trigger] objs[i]).rot_free(),
        n <= objs.len(),
    ensures
        match spec_scan(objs, r, lo, hi, n) {
            None => true,
            Some(rec) => {
                &&& exists|i: int|
                    0 <= i < n && (#[trigger] objs[i]).spec_hit(r, lo, hi) == Some(rec)
                &&& forall|i: int|
                    0 <= i < n ==> match (#[trigger] objs[i]).spec_hit(r, lo, hi) {
                        Some(o) => rec.t <= o.t,
                        None => true,
                    }
            },
        },
    decreases objs, n, 8int,
{
    if n <= 0 {
    } else {
        lemma_scan_closest(objs, r, lo, hi, n - 1);
        let prev = spec_scan(objs, r, lo, hi, n - 1);
        let child = objs[n - 1];
        match prev {
            Some(p) => {
                lemma_scan_bounds(objs, r, lo, hi, n - 1);
                lemma_hit_narrow(child, r, lo, hi, p.t);
                match child.spec_hit(r, lo, p.t) {
                    Some(c) => {
                        assert(child.spec_hit(r, lo, hi) == Some(c));
                        assert(spec_scan(objs, r, lo, hi, n) == Some(c));
                        assert(objs[n - 1].spec_hit(r, lo, hi) == Some(c));
                    },
                    None => {
                        assert(spec_scan(objs, r, lo, hi, n) == Some(p));
                        let ghost w = choose|i: int|
                            0 <= i < n - 1 && (#[trigger] objs[i]).spec_hit(r, lo, hi) == Some(p);
                        assert(objs[w].spec_hit(r, lo, hi) == Some(p));
                    },
                }
            },
            None => {
                lemma_scan_none_iff(objs, r, lo, hi, n - 1);
                match child.spec_hit(r, lo, hi) {
                    Some(c) => {
                        assert(objs[n - 1].spec_hit(r, lo, hi) == Some(c));
                    },
                    None => {},
                }
            },
        }
    }
}

/// What a subtree returns, characterized against its leaves over the
/// whole interval: a record one of the leaves reports there, no farther
/// than any other leaf's report.
pub proof fn lemma_bvh_closest(h: Hittable, r: R3, lo: int, hi: int)
    requires
        h.wf(),
        h.rot_free(),
    ensures
        match h.spec_hit(r, lo, hi) {
            None => true,
            Some(rec) => {
                &&& exists|i: int|
                    0 <= i < spec_leaves(h).len() && (#[trigger] spec_leaves(h)[i]).spec_hit(
                        r,
                        lo,
                        hi,
                    ) == Some(rec)
                &&& forall|i: int|
                    0 <= i < spec_leaves(h).len() ==> match (#[trigger] spec_leaves(h)[i]).spec_hit(
                        r,
                        lo,
                        hi,
                    ) {
                        Some(o) => rec.t <= o.t,
                        None => true,
                    }
            },
        },
    decreases h, 3int,
{
    lemma_leaves_wf(h);
    match h {
        Hittable::Bvh(b) => {
            if !b.bbox.spec_hit(r, lo, hi) {
            } else {
                let ll = spec_leaves(b.left);
                let lr = spec_leaves(b.right);
                assert(spec_leaves(h) == ll + lr);
                lemma_leaves_wf(b.left);
                lemma_leaves_wf(b.right);
                lemma_bvh_closest(b.left, r, lo, hi);
                let lh = b.left.spec_hit(r, lo, hi);
                match lh {
                    None => {
                        lemma_bvh_none_iff_leaves(b.left, r, lo, hi);
                        lemma_bvh_closest(b.right, r, lo, hi);
                        match b.right.spec_hit(r, lo, hi) {
                            Some(q) => {
                                assert(h.spec_hit(r, lo, hi) == Some(q));
                                let ghost j = choose|j: int|
                                    0 <= j < lr.len() && (#[trigger] lr[j]).spec_hit(r, lo, hi)
                                        == Some(q);
                                assert(spec_leaves(h)[ll.len() + j] == lr[j]);
                                assert forall|i: int|
                                    0 <= i < spec_leaves(h).len() implies match (
                                #[trigger] spec_leaves(h)[i]).spec_hit(r, lo, hi) {
                                    Some(o) => q.t <= o.t,
                                    None => true,
                                } by {
                                    if i < ll.len() {
                                        assert(spec_leaves(h)[i] == ll[i]);
                                    } else {
                                        assert(spec_leaves(h)[i] == lr[i - ll.len()]);
                                    }
                                }
                            },
                            None => {},
                        }
                    },
                    Some(p) => {
                        lemma_hit_ok(b.left, r, lo, hi);
                        lemma_bvh_closest(b.right, r, lo, p.t);
                        lemma_bvh_none_iff_leaves(b.right, r, lo, p.t);
                        let rh = b.right.spec_hit(r, lo, p.t);
                        let ghost wl = choose|j: int|
                            0 <= j < ll.len() && (#[trigger] ll[j]).spec_hit(r, lo, hi) == Some(p);
                        match rh {
                            Some(q) => {
                                assert(h.spec_hit(r, lo, hi) == Some(q));
                                lemma_hit_ok(b.right, r, lo, p.t);
                                let ghost j = choose|j: int|
                                    0 <= j < lr.len() && (#[trigger] lr[j]).spec_hit(r, lo, p.t)
                                        == Some(q);
                                lemma_hit_narrow(lr[j], r, lo, hi, p.t);
                                assert(lr[j].spec_hit(r, lo, hi) == Some(q));
                                assert(spec_leaves(h)[ll.len() + j] == lr[j]);
                                assert forall|i: int|
                                    0 <= i < spec_leaves(h).len() implies match (
                                #[trigger] spec_leaves(h)[i]).spec_hit(r, lo, hi) {
                                    Some(o) => q.t <= o.t,
                                    None => true,
                                } by {
                                    if i < ll.len() {
                                        assert(spec_leaves(h)[i] == ll[i]);
                                    } else {
                                        assert(spec_leaves(h)[i] == lr[i - ll.len()]);
                                        lemma_hit_narrow(lr[i - ll.len()], r, lo, hi, p.t);
                                    }
                                }
                            },
                            None => {
                                assert(h.spec_hit(r, lo, hi) == Some(p));
                                assert(spec_leaves(h)[wl] == ll[wl]);
                                assert forall|i: int|
                                    0 <= i < spec_leaves(h).len() implies match (
                                #[trigger] spec_leaves(h)[i]).spec_hit(r, lo, hi) {
                                    Some(o) => p.t <= o.t,
                                    None => true,
                                } by {
                                    if i < ll.len() {
                                        assert(spec_leaves(h)[i] == ll[i]);
                                    } else {
                                        assert(spec_leaves(h)[i] == lr[i - ll.len()]);
                                        lemma_hit_narrow(lr[i - ll.len()], r, lo, hi, p.t);
                                    }
                                }
                            },
                        }
                    },
                }
            }
        },
        _ => {
            assert(spec_leaves(h) == seq![h]);
            assert(spec_leaves(h)[0] == h);
        },
    }
}

/// The hierarchy and the exhaustive scan return the same hit: over any ray
/// and interval, a hierarchy built over a permutation of a rotation-free
/// list's objects misses exactly when the list misses, reports the same
/// parameter when both hit, and reports the very same record whenever no
/// two objects tie at the closest parameter with different records.
pub proof fn lemma_bvh_matches_list(tree: Hittable, list: HittableList, r: R3, lo: int, hi: int)
    requires
        tree.wf(),
        tree.rot_free(),
        Hittable::List(list).wf(),
        Hittable::List(list).rot_free(),
        spec_leaves(tree).to_multiset() == list.objects@.to_multiset(),
    ensures
        (tree.spec_hit(r, lo, hi) is None) <==> (Hittable::List(list).spec_hit(
            r,
            lo,
            hi,
        ) is None),
        match (tree.spec_hit(r, lo, hi), Hittable::List(list).spec_hit(r, lo, hi)) {
            (Some(a), Some(b)) => a.t == b.t && ((forall|x: HitR, y: HitR|
                spec_is_full_hit(list.objects@, r, lo, hi, x) && spec_is_full_hit(
                    list.objects@,
                    r,
                    lo,
                    hi,
                    y,
                ) && x.t == y.t ==> x == y) ==> a == b),
            (None, None) => true,
            _ => false,
        },
{
    broadcast use group_to_multiset_ensures;

    lemma_bvh_matches_list_on_misses(tree, list, r, lo, hi);
    let leaves = spec_leaves(tree);
    let objs = list.objects@;
    leaves.to_multiset_ensures();
    objs.to_multiset_ensures();
    lemma_leaves_wf(tree);
    lemma_bvh_closest(tree, r, lo, hi);
    lemma_scan_closest(objs, r, lo, hi, objs.len() as int);
    match (tree.spec_hit(r, lo, hi), Hittable::List(list).spec_hit(r, lo, hi)) {
        (Some(a), Some(b)) => {
            let ghost ia = choose|i: int|
                0 <= i < leaves.len() && (#[trigger] leaves[i]).spec_hit(r, lo, hi) == Some(a);
            let ghost ib = choose|i: int|
                0 <= i < objs.len() && (#[trigger] objs[i]).spec_hit(r, lo, hi) == Some(b);
            assert(leaves.contains(leaves[ia]));
            assert(objs.to_multiset().count(leaves[ia]) > 0);
            assert(objs.contains(leaves[ia]));
            let ghost ja = choose|j: int| 0 <= j < objs.len() && objs[j] == leaves[ia];
            assert(objs[ja].spec_hit(r, lo, hi) == Some(a));
            assert(b.t <= a.t);
            assert(objs.contains(objs[ib]));
            assert(leaves.to_multiset().count(objs[ib]) > 0);
            assert(leaves.contains(objs[ib]));
            let ghost jb = choose|j: int| 0 <= j < leaves.len() && leaves[j] == objs[ib];
            assert(leaves[jb].spec_hit(r, lo, hi) == Some(b));
            assert(a.t <= b.t);
            assert(spec_is_full_hit(objs, r, lo, hi, a)) by {
                assert(objs[ja].spec_hit(r, lo, hi) == Some(a));
            }
            assert(spec_is_full_hit(objs, r, lo, hi, b)) by {
                assert(objs[ib].spec_hit(r, lo, hi) == Some(b));
            }
        },
        _ => {},
    }
}

/// Some object of the sequence reports exactly this record over the whole
/// interval.
pub open spec fn spec_is_full_hit(
    objs: Seq<Hittable>,
    r: R3,
    lo: int,
    hi: int,
    x: HitR,
) -> bool {
    exists|i: int| 0 <= i < objs.len() && (#[trigger] objs[i]).spec_hit(r, lo, hi) == Some(x)
}

} // verus!
