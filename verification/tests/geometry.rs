//! Exact checks of the fixed-point geometry: scalars, intervals, boxes,
//! spheres, quads and the bounding-volume hierarchy.

use ray_tracing::aabb::Aabb;
use ray_tracing::bvh::BvhNode;
use ray_tracing::fx::{degrees_to_radians, fx_atan2, fx_cos, fx_div, fx_mul, fx_sin, isqrt_u128, INFINITY, PI_2, SCALE};
use ray_tracing::rng::random_int;
use ray_tracing::hittable::{HitRecord, Hittable};
use ray_tracing::hittable_list::HittableList;
use ray_tracing::interval::Interval;
use ray_tracing::quad::{box_solid, Quad};
use ray_tracing::ray::Ray;
use ray_tracing::hittable::{RotateY, Translate};
use ray_tracing::sphere::Sphere;
use ray_tracing::vec3::Vec3;

#[test]
fn fixed_point_products_floor() {
    assert_eq!(fx_mul(1_500_000, 2_000_000), 3_000_000);
    assert_eq!(fx_mul(-1_500_000, 1_000_000), -1_500_000);
    assert_eq!(fx_mul(-1, 1), -1);
    assert_eq!(fx_mul(1, 1), 0);
    assert_eq!(fx_div(1_000_000, 2_000_000), 500_000);
    assert_eq!(fx_div(-1_000_000, 3_000_000), -333_334);
}

#[test]
fn integer_square_roots() {
    assert_eq!(isqrt_u128(0), 0);
    assert_eq!(isqrt_u128(1), 1);
    assert_eq!(isqrt_u128(10), 3);
    assert_eq!(isqrt_u128(1_000_000_000_000), 1_000_000);
    assert_eq!(isqrt_u128(999_999_999_999), 999_999);
}

#[test]
fn random_int_stays_in_range() {
    assert_eq!(random_int(5, 5), 5);
    for _ in 0..100 {
        let r = random_int(0, 10);
        assert!(0 <= r && r <= 10);
    }
}

#[test]
fn interval_membership_and_clamp() {
    let iv = Interval::new(1_000_000, 3_000_000);
    assert!(iv.contains(1_000_000));
    assert!(iv.contains(3_000_000));
    assert!(!iv.surrounds(1_000_000));
    assert!(iv.surrounds(2_000_000));
    assert_eq!(iv.clamp(0), 1_000_000);
    assert_eq!(iv.clamp(9_000_000), 3_000_000);
    assert_eq!(iv.clamp(2_000_000), 2_000_000);
    let grown = iv.expand(1_000_000);
    assert_eq!(grown.min, 500_000);
    assert_eq!(grown.max, 3_500_000);
    // An odd delta still grows the width by at least delta: the half is
    // rounded up.
    let thin = Interval::new(0, 0).expand(1);
    assert_eq!(thin.min, -1);
    assert_eq!(thin.max, 1);
}

#[test]
fn interval_union_spans_both() {
    let a = Interval::new(0, 1_000_000);
    let b = Interval::new(-2_000_000, 500_000);
    let u = Interval::new_from_intervals(a, b);
    assert_eq!(u.min, -2_000_000);
    assert_eq!(u.max, 1_000_000);
}

#[test]
fn box_union_contains_and_commutes() {
    let a = Aabb::new(
        Interval::new(0, 1_000_000),
        Interval::new(0, 1_000_000),
        Interval::new(0, 1_000_000),
    );
    let b = Aabb::new(
        Interval::new(-3_000_000, -1_000_000),
        Interval::new(2_000_000, 4_000_000),
        Interval::new(500_000, 600_000),
    );
    let u = Aabb::aabb(a, b);
    assert!(u.contains_point(Vec3::new(500_000, 500_000, 500_000)));
    assert!(u.contains_point(Vec3::new(-2_000_000, 3_000_000, 550_000)));
    assert_eq!(Aabb::aabb(a, b), Aabb::aabb(b, a));
    let c = Aabb::new(
        Interval::new(7_000_000, 8_000_000),
        Interval::new(-1, 1),
        Interval::new(0, 0),
    );
    assert_eq!(Aabb::aabb(Aabb::aabb(a, b), c), Aabb::aabb(a, Aabb::aabb(b, c)));
}

#[test]
fn slab_test_hits_and_misses() {
    let bx = Aabb::new(
        Interval::new(-1_000_000, 1_000_000),
        Interval::new(-1_000_000, 1_000_000),
        Interval::new(-1_000_000, 1_000_000),
    );
    let toward = Ray::new(Vec3::new(-5_000_000, 0, 0), Vec3::new(SCALE, 0, 0));
    assert!(bx.hit(toward, Interval::new(1_000, INFINITY)));
    let away = Ray::new(Vec3::new(-5_000_000, 0, 0), Vec3::new(-SCALE, 0, 0));
    assert!(!away_hits(bx, away));
    let offset = Ray::new(Vec3::new(-5_000_000, 3_000_000, 0), Vec3::new(SCALE, 0, 0));
    assert!(!bx.hit(offset, Interval::new(1_000, INFINITY)));
}

fn away_hits(bx: Aabb, r: Ray) -> bool {
    bx.hit(r, Interval::new(1_000, INFINITY))
}

#[test]
fn axial_sphere_hit_at_distance_minus_radius() {
    let s = Sphere::new(Vec3::new(0, 0, 0), 500_000, 0);
    let r = Ray::new(Vec3::new(-2_000_000, 0, 0), Vec3::new(SCALE, 0, 0));
    let mut rec = HitRecord::default();
    let hit = s.hit(r, Interval::new(1_000, INFINITY), &mut rec);
    assert!(hit);
    assert_eq!(rec.t, 1_500_000);
    assert_eq!(rec.normal.x(), -SCALE);
    assert_eq!(rec.normal.y(), 0);
    assert_eq!(rec.normal.z(), 0);
    assert!(rec.front_face);
}

#[test]
fn sphere_miss_leaves_record_untouched() {
    let s = Sphere::new(Vec3::new(0, 0, 0), 500_000, 0);
    let r = Ray::new(Vec3::new(-2_000_000, 2_000_000, 0), Vec3::new(SCALE, 0, 0));
    let mut rec = HitRecord::default();
    let hit = s.hit(r, Interval::new(1_000, INFINITY), &mut rec);
    assert!(!hit);
    assert_eq!(rec.t, 0);
}

#[test]
fn quad_hit_with_planar_coordinates() {
    let q = Quad::new(
        Vec3::new(-SCALE, -SCALE, 0),
        Vec3::new(2 * SCALE, 0, 0),
        Vec3::new(0, 2 * SCALE, 0),
        7,
    );
    let r = Ray::new(Vec3::new(0, 0, 5 * SCALE), Vec3::new(0, 0, -SCALE));
    let mut rec = HitRecord::default();
    let hit = q.hit(r, Interval::new(1_000, INFINITY), &mut rec);
    assert!(hit);
    assert_eq!(rec.t, 5 * SCALE);
    assert_eq!(rec.u, 500_000);
    assert_eq!(rec.v, 500_000);
    assert_eq!(rec.mat, 7);
    assert!(rec.front_face);
}

#[test]
fn quad_rejects_outside_and_parallel() {
    let q = Quad::new(
        Vec3::new(-SCALE, -SCALE, 0),
        Vec3::new(2 * SCALE, 0, 0),
        Vec3::new(0, 2 * SCALE, 0),
        7,
    );
    let outside = Ray::new(Vec3::new(4 * SCALE, 0, 5 * SCALE), Vec3::new(0, 0, -SCALE));
    let mut rec = HitRecord::default();
    assert!(!q.hit(outside, Interval::new(1_000, INFINITY), &mut rec));
    let parallel = Ray::new(Vec3::new(0, 0, 5 * SCALE), Vec3::new(SCALE, 0, 0));
    assert!(!q.hit(parallel, Interval::new(1_000, INFINITY), &mut rec));
}

fn three_spheres() -> HittableList {
    let mut list = HittableList::default();
    list.add(Hittable::Sphere(Sphere::new(Vec3::new(0, 0, -10 * SCALE), 2 * SCALE, 1)));
    list.add(Hittable::Sphere(Sphere::new(Vec3::new(0, 0, -20 * SCALE), 2 * SCALE, 2)));
    list.add(Hittable::Sphere(Sphere::new(Vec3::new(6 * SCALE, 0, -10 * SCALE), SCALE, 3)));
    list
}

#[test]
fn hierarchy_agrees_with_exhaustive_scan() {
    // The hierarchy must report a hit exactly when the plain list does,
    // with the same parameter and material, whatever axis the random
    // builder chose.
    for _ in 0..8 {
        let list = three_spheres();
        let tree = BvhNode::new(three_spheres());
        let rays = [
            Ray::new(Vec3::new(0, 0, 0), Vec3::new(0, 0, -SCALE)),
            Ray::new(Vec3::new(6 * SCALE, 0, 0), Vec3::new(0, 0, -SCALE)),
            Ray::new(Vec3::new(0, 5 * SCALE, 0), Vec3::new(0, 0, -SCALE)),
            Ray::new(Vec3::new(0, 0, 0), Vec3::new(0, SCALE, 0)),
            Ray::new(Vec3::new(-30 * SCALE, 0, -15 * SCALE), Vec3::new(SCALE, 0, 0)),
        ];
        for r in rays.iter() {
            let mut rec_list = HitRecord::default();
            let mut rec_tree = HitRecord::default();
            let hl = list.hit(*r, Interval::new(1_000, INFINITY), &mut rec_list);
            let ht = tree.hit(*r, Interval::new(1_000, INFINITY), &mut rec_tree);
            assert_eq!(hl, ht);
            if hl {
                assert_eq!(rec_list.t, rec_tree.t);
                assert_eq!(rec_list.mat, rec_tree.mat);
            }
        }
    }
}

#[test]
fn translate_shifts_hits() {
    let inner = Hittable::Sphere(Sphere::new(Vec3::new(0, 0, 0), SCALE, 4));
    let moved = Translate::new(inner, Vec3::new(0, 0, -10 * SCALE));
    let t = Hittable::Translate(Box::new(moved));
    let r = Ray::new(Vec3::new(0, 0, 0), Vec3::new(0, 0, -SCALE));
    let mut rec = HitRecord::default();
    assert!(t.hit(r, Interval::new(1_000, INFINITY), &mut rec));
    assert_eq!(rec.t, 9 * SCALE);
    assert_eq!(rec.p.z(), -9 * SCALE);
}

#[test]
fn rotate_about_y_keeps_centered_sphere() {
    let inner = Hittable::Sphere(Sphere::new(Vec3::new(0, 0, 0), SCALE, 5));
    let spun = RotateY::new(inner, 37 * SCALE);
    let h = Hittable::RotateY(Box::new(spun));
    let r = Ray::new(Vec3::new(0, 0, 5 * SCALE), Vec3::new(0, 0, -SCALE));
    let mut rec = HitRecord::default();
    assert!(h.hit(r, Interval::new(1_000, INFINITY), &mut rec));
    assert!(rec.t >= 3_900_000 && rec.t <= 4_100_000);
    assert_eq!(rec.mat, 5);
}

#[test]
fn trigonometry_exact_values() {
    assert_eq!(fx_sin(0), 0);
    assert_eq!(fx_cos(0), 999_844);
    assert_eq!(fx_sin(PI_2), 999_844);
    assert_eq!(fx_cos(PI_2), 0);
    assert_eq!(fx_sin(degrees_to_radians(30 * SCALE)), 499_999);
    assert_eq!(degrees_to_radians(180 * SCALE), 3_141_592);
    assert_eq!(fx_atan2(SCALE, SCALE), 785_398);
    assert_eq!(fx_atan2(SCALE, 0), PI_2);
}

#[test]
fn hollow_sphere_negative_radius_faces_inward() {
    // A negative radius flips the outward normal, the hollow-glass trick:
    // the same surface is hit, but it reports a back face.
    let s = Sphere::new(Vec3::new(0, 0, 0), -400_000, 0);
    let r = Ray::new(Vec3::new(-2_000_000, 0, 0), Vec3::new(SCALE, 0, 0));
    let mut rec = HitRecord::default();
    assert!(s.hit(r, Interval::new(1_000, INFINITY), &mut rec));
    assert_eq!(rec.t, 1_600_000);
    assert!(!rec.front_face);
    assert_eq!(rec.normal.x(), -SCALE);
}

#[test]
fn empty_and_cleared_lists_miss_everything() {
    let mut list = HittableList::default();
    let r = Ray::new(Vec3::new(0, 0, 0), Vec3::new(0, 0, -SCALE));
    let mut rec = HitRecord::default();
    assert!(!list.hit(r, Interval::new(1_000, INFINITY), &mut rec));
    list.add(Hittable::Sphere(Sphere::new(Vec3::new(0, 0, -5 * SCALE), SCALE, 0)));
    assert!(list.hit(r, Interval::new(1_000, INFINITY), &mut rec));
    list.clear();
    let mut rec2 = HitRecord::default();
    assert!(!list.hit(r, Interval::new(1_000, INFINITY), &mut rec2));
}

#[test]
fn box_solid_builds_six_faces() {
    let solid = box_solid(
        Vec3::new(-SCALE, -SCALE, -SCALE),
        Vec3::new(SCALE, SCALE, SCALE),
        9,
    );
    let r = Ray::new(Vec3::new(0, 0, 5 * SCALE), Vec3::new(0, 0, -SCALE));
    let mut rec = HitRecord::default();
    assert!(solid.hit(r, Interval::new(1_000, INFINITY), &mut rec));
    assert_eq!(rec.t, 4 * SCALE);
    assert_eq!(rec.mat, 9);
    match &solid {
        Hittable::List(l) => assert_eq!(l.objects.len(), 6),
        _ => panic!("expected a list of faces"),
    }
}

#[test]
fn rotation_coefficients_follow_the_angle() {
    let inner = Hittable::Sphere(Sphere::new(Vec3::new(0, 0, 0), SCALE, 5));
    let spun = RotateY::new(inner, 0);
    assert_eq!(spun.sin_theta, 0);
    assert_eq!(spun.cos_theta, 999_844);
    let inner2 = Hittable::Sphere(Sphere::new(Vec3::new(0, 0, 0), SCALE, 5));
    let quarter = RotateY::new(inner2, 90 * SCALE);
    assert_eq!(quarter.sin_theta, 999_844);
    assert_eq!(quarter.cos_theta, 0);
}

#[test]
fn axial_sphere_hit_pins_texture_coordinates() {
    // The unit sphere at the origin, struck straight down the z axis from
    // three units out: the hit sits at the pole of the seam, so the
    // spherical coordinates are exactly one quarter and one half.
    let s = Sphere::new(Vec3::new(0, 0, 0), SCALE, 0);
    let r = Ray::new(Vec3::new(0, 0, 3 * SCALE), Vec3::new(0, 0, -SCALE));
    let mut rec = HitRecord::default();
    assert!(s.hit(r, Interval::new(1_000, INFINITY), &mut rec));
    assert_eq!(rec.t, 2 * SCALE);
    assert_eq!((rec.p.x(), rec.p.y(), rec.p.z()), (0, 0, SCALE));
    assert_eq!((rec.normal.x(), rec.normal.y(), rec.normal.z()), (0, 0, SCALE));
    assert!(rec.front_face);
    assert_eq!(rec.u, 250_000);
    assert_eq!(rec.v, 500_000);
}
