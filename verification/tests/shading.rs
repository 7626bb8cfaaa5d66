//! Exact checks of the shading side: textures, materials, the radiance
//! estimator and the deterministic normal-visualization pass.

use ray_tracing::camera::Camera;
use ray_tracing::color::color_bytes;
use ray_tracing::fx::{INFINITY, SCALE};
use ray_tracing::hittable::{HitRecord, Hittable};
use ray_tracing::hittable_list::HittableList;
use ray_tracing::interval::Interval;
use ray_tracing::material::{Dielectric, Lambertian, Material, Metal};
use ray_tracing::perlin::Perlin;
use ray_tracing::ray::Ray;
use ray_tracing::sphere::Sphere;
use ray_tracing::texture::{CheckerTexture, ImageBuffer, ImageTexture, Texture};
use ray_tracing::vec3::Vec3;

#[test]
fn solid_color_ignores_coordinates() {
    let t = Texture::SolidColor(ray_tracing::texture::SolidColor::new(Vec3::new(
        100_000, 200_000, 300_000,
    )));
    let a = t.value(0, 0, Vec3::new(0, 0, 0));
    let b = t.value(900_000, 100_000, Vec3::new(5 * SCALE, -3 * SCALE, SCALE));
    assert_eq!(a, b);
    assert_eq!(a.x(), 100_000);
}

#[test]
fn checker_period_and_translation() {
    let even = Vec3::new(SCALE, 0, 0);
    let odd = Vec3::new(0, SCALE, 0);
    let c = CheckerTexture::new_from_colors(800_000, even, odd).into_texture();
    let p = Vec3::new(100_000, 100_000, 100_000);
    let at_origin = c.value(0, 0, p);
    // Half a period along one axis flips the parity.
    let half = Vec3::new(100_000 + 800_000, 100_000, 100_000);
    assert_ne!(at_origin, c.value(0, 0, half));
    // A full two-period translation along one axis preserves it.
    let two_periods = Vec3::new(100_000 + 1_600_000, 100_000, 100_000);
    assert_eq!(at_origin, c.value(0, 0, two_periods));
    // So does a two-period translation along each axis at once.
    let all_axes = Vec3::new(
        100_000 + 3_200_000,
        100_000 - 1_600_000,
        100_000 + 1_600_000,
    );
    assert_eq!(at_origin, c.value(0, 0, all_axes));
}

#[test]
fn image_texture_lookup_and_fallback() {
    let absent = ImageTexture::new(None);
    let diag = absent.value(0, 0, Vec3::new(0, 0, 0));
    assert_eq!((diag.x(), diag.y(), diag.z()), (0, SCALE, SCALE));
    let buf = ImageBuffer { width: 2, height: 1, data: vec![255, 0, 0, 0, 255, 0] };
    let img = ImageTexture::new(Some(buf));
    let left = img.value(0, 0, Vec3::new(0, 0, 0));
    assert_eq!((left.x(), left.y(), left.z()), (SCALE, 0, 0));
    let right = img.value(SCALE, 0, Vec3::new(0, 0, 0));
    assert_eq!((right.x(), right.y(), right.z()), (0, SCALE, 0));
}

#[test]
fn perlin_noise_is_bounded_and_repeatable() {
    let p = Perlin::new();
    let at = Vec3::new(1_234_567, -7_654_321, 42);
    let n1 = p.noise(at);
    let n2 = p.noise(at);
    assert_eq!(n1, n2);
    assert!(-1_000_000_000_000 <= n1 && n1 <= 1_000_000_000_000);
    let t = p.turb(at, 7);
    assert!(0 <= t && t <= 200_000_000);
}

#[test]
fn metal_reflects_axial_ray_exactly() {
    // Zero fuzz: the scattered direction is the exact mirror image.
    let m = Material::Metal(Metal::new(Vec3::new(800_000, 600_000, 200_000), 0));
    let rec = HitRecord::new(
        Vec3::new(0, 0, -SCALE),
        Vec3::new(0, 0, SCALE),
        0,
        SCALE,
        true,
    );
    let r_in = Ray::new(Vec3::new(0, 0, 0), Vec3::new(0, 0, -SCALE));
    let mut attenuation = Vec3::new(0, 0, 0);
    let mut scattered = Ray::new(Vec3::new(0, 0, 0), Vec3::new(0, 0, 0));
    let b = m.scatter(&r_in, &rec, &mut attenuation, &mut scattered);
    assert!(b);
    assert_eq!(attenuation.x(), 800_000);
    assert_eq!(scattered.direction().z(), SCALE);
    assert_eq!(scattered.origin().z(), -SCALE);
}

#[test]
fn dielectric_total_internal_reflection_is_deterministic() {
    // Grazing incidence from the dense side: the scaled sine is one, the
    // ratio exceeds one, so every draw reflects: the direction is the
    // exact mirror image, here the unchanged tangential direction.
    let m = Material::Dielectric(Dielectric::new(1_500_000));
    let rec = HitRecord {
        p: Vec3::new(0, 0, 0),
        normal: Vec3::new(0, SCALE, 0),
        mat: 0,
        t: SCALE,
        u: 0,
        v: 0,
        front_face: false,
    };
    let r_in = Ray::new(Vec3::new(-SCALE, 0, 0), Vec3::new(SCALE, 0, 0));
    for _ in 0..16 {
        let mut attenuation = Vec3::new(0, 0, 0);
        let mut scattered = Ray::new(Vec3::new(0, 0, 0), Vec3::new(0, 0, 0));
        let b = m.scatter(&r_in, &rec, &mut attenuation, &mut scattered);
        assert!(b);
        assert_eq!(attenuation.x(), SCALE);
        assert_eq!(scattered.direction().x(), SCALE);
        assert_eq!(scattered.direction().y(), 0);
        assert_eq!(scattered.direction().z(), 0);
    }
}

#[test]
fn lambertian_attenuates_by_texture() {
    let m = Material::Lambertian(Lambertian::new_from_color(Vec3::new(100_000, 200_000, 500_000)));
    let rec = HitRecord::new(
        Vec3::new(0, 0, -SCALE),
        Vec3::new(0, 0, SCALE),
        0,
        SCALE,
        true,
    );
    let r_in = Ray::new(Vec3::new(0, 0, 0), Vec3::new(0, 0, -SCALE));
    let mut attenuation = Vec3::new(0, 0, 0);
    let mut scattered = Ray::new(Vec3::new(0, 0, 0), Vec3::new(0, 0, 0));
    assert!(m.scatter(&r_in, &rec, &mut attenuation, &mut scattered));
    assert_eq!(
        (attenuation.x(), attenuation.y(), attenuation.z()),
        (100_000, 200_000, 500_000)
    );
}

fn normal_pass_world() -> (Hittable, Vec<Material>) {
    let mut world = HittableList::default();
    let mut mats: Vec<Material> = Vec::new();
    mats.push(Material::Lambertian(Lambertian::new_from_color(Vec3::new(
        500_000, 500_000, 500_000,
    ))));
    world.add(Hittable::Sphere(Sphere::new(Vec3::new(0, 0, -SCALE), 500_000, 0)));
    world.add(Hittable::Sphere(Sphere::new(
        Vec3::new(0, -100 * SCALE - 500_000, -SCALE),
        100 * SCALE,
        0,
    )));
    (Hittable::List(world), mats)
}

#[test]
fn normal_pass_center_pixel_exact() {
    // The deterministic normal-visualization pass: the ray straight down
    // the axis hits the near sphere at its pole, so the color is exactly
    // half the unit normal shifted into the color cube.
    let (world, _mats) = normal_pass_world();
    let r = Ray::new(Vec3::new(0, 0, 0), Vec3::new(0, 0, -SCALE));
    let c = Camera::ray_color_normal(r, &world);
    assert_eq!((c.x(), c.y(), c.z()), (500_000, 500_000, SCALE));
}

#[test]
fn normal_pass_sky_gradient_exact() {
    // A ray pointing straight up misses everything: at the zenith the
    // blend reaches the full blue end of the gradient.
    let (world, _mats) = normal_pass_world();
    let r = Ray::new(Vec3::new(0, 0, 0), Vec3::new(0, SCALE, 0));
    let c = Camera::ray_color_normal(r, &world);
    assert_eq!((c.x(), c.y(), c.z()), (500_000, 700_000, SCALE));
}

#[test]
fn estimator_depth_and_background() {
    let (world, mats) = normal_pass_world();
    let background = Vec3::new(700_000, 800_000, SCALE);
    let away = Ray::new(Vec3::new(0, 0, 0), Vec3::new(0, SCALE, 0));
    let black = Camera::ray_color(away, 0, &world, &mats, background);
    assert_eq!((black.x(), black.y(), black.z()), (0, 0, 0));
    let sky = Camera::ray_color(away, 50, &world, &mats, background);
    assert_eq!((sky.x(), sky.y(), sky.z()), (700_000, 800_000, SCALE));
}

#[test]
fn scene_sphere_hit_from_camera_axis() {
    // The single-sphere scene: the axial ray meets the front of the
    // radius-two sphere exactly ten units out.
    let scene = ray_tracing::scenes::test2();
    let r = Ray::new(Vec3::new(0, 0, 12 * SCALE), Vec3::new(0, 0, -SCALE));
    let mut rec = HitRecord::default();
    assert!(scene.world.hit(r, Interval::new(1_000, INFINITY), &mut rec));
    assert_eq!(rec.t, 10 * SCALE);
}

#[test]
fn scenes_build_and_render_a_ray() {
    let background = Vec3::new(700_000, 800_000, SCALE);
    let scenes = [
        ray_tracing::scenes::test(),
        ray_tracing::scenes::two_spheres(),
        ray_tracing::scenes::test2(),
        ray_tracing::scenes::earth(None),
        ray_tracing::scenes::two_perlin_spheres(),
        ray_tracing::scenes::quads(),
        ray_tracing::scenes::simple_light(),
        ray_tracing::scenes::cornell_box(),
    ];
    for scene in scenes.iter() {
        let r = scene.camera.get_ray(0, 0);
        let c = Camera::ray_color(r, 4, &scene.world, &scene.materials, background);
        assert!(c.x() >= -1_000_000_000_000 && c.x() <= 1_000_000_000_000);
    }
}

#[test]
fn channel_bytes_average_gamma_clamp() {
    let white = Vec3::new(SCALE, SCALE, SCALE);
    assert_eq!(color_bytes(white, 1), (255, 255, 255));
    let dark = Vec3::new(250_000, 0, SCALE);
    // A quarter averages to a half after gamma; black stays black.
    let (r, g, b) = color_bytes(dark, 1);
    assert_eq!(r, 128);
    assert_eq!(g, 0);
    assert_eq!(b, 255);
    // Averaging over four samples of full white gives a quarter again.
    let sum = Vec3::new(4 * SCALE, 0, 0);
    assert_eq!(color_bytes(sum, 4).0, 255);
}

#[test]
fn random_unit_vectors_are_near_unit() {
    for _ in 0..50 {
        let u = Vec3::random_unit_vector();
        let ls = u.length_squared();
        assert!(SCALE - 2_000 <= ls && ls <= SCALE + 2_000);
    }
}

#[test]
fn perlin_index_tables_are_permutations() {
    let p = Perlin::new();
    for table in [&p.perm_x, &p.perm_y, &p.perm_z] {
        let mut seen = [false; 256];
        for &v in table.iter() {
            assert!(!seen[v as usize]);
            seen[v as usize] = true;
        }
        assert!(seen.iter().all(|&s| s));
    }
}

#[test]
fn estimator_hit_cases_black_when_owed() {
    // Depth one: the diffuse sphere scatters, the recursive estimate is
    // exhausted to black, and the attenuated product is exactly black.
    let (world, mats) = normal_pass_world();
    let background = Vec3::new(700_000, 800_000, SCALE);
    let into_sphere = Ray::new(Vec3::new(0, 0, 0), Vec3::new(0, 0, -SCALE));
    let c = Camera::ray_color(into_sphere, 1, &world, &mats, background);
    assert_eq!((c.x(), c.y(), c.z()), (0, 0, 0));
    // An emissive surface absorbs: black at any depth.
    let mut lit = HittableList::default();
    let mut lit_mats: Vec<Material> = Vec::new();
    lit_mats.push(Material::DiffuseLight(
        ray_tracing::material::DiffuseLight::new_with_color(Vec3::new(4 * SCALE, 4 * SCALE, 4 * SCALE)),
    ));
    lit.add(Hittable::Sphere(Sphere::new(Vec3::new(0, 0, -5 * SCALE), SCALE, 0)));
    let lit_world = Hittable::List(lit);
    let c2 = Camera::ray_color(into_sphere, 50, &lit_world, &lit_mats, background);
    assert_eq!((c2.x(), c2.y(), c2.z()), (0, 0, 0));
}
