//! The demo scenes: each builds a world, a material arena and a configured
//! camera.  Rendering them — looping over pixels and writing the image —
//! happens outside the core.

use vstd::prelude::*;
use crate::bvh::BvhNode;
use crate::camera::{Camera, CAM_MAX};
use crate::fx::{fxmul, fx_mul, lemma_fxmul_range, lemma_fdiv_bounds, SCALE};
use crate::hittable::Hittable;
use crate::hittable_list::HittableList;
use crate::material::{Dielectric, DiffuseLight, Lambertian, Material, Metal};
use crate::quad::{Quad, box_solid};
use crate::rng::{random_fraction, random_range_fx};
use crate::sphere::Sphere;
use crate::texture::{CheckerTexture, ImageBuffer, ImageTexture, NoiseTexture, Texture};
use crate::vec3::{Vec3, V3, COORD_MAX};

verus! {

/// A fully built scene: the world graph, the material arena the hit
/// records index into, and a camera ready to generate rays.
pub struct Scene {
    pub world: Hittable,
    pub materials: Vec<Material>,
    pub camera: Camera,
}

impl Scene {
    /// What every renderer needs: a well-formed world, well-formed
    /// materials, derived camera state in bounds, and a bounded background.
    pub open spec fn wf(self) -> bool {
        &&& self.world.wf()
        &&& forall|i: int| 0 <= i < self.materials@.len() ==> (#[trigger] self.materials@[i]).wf()
        &&& self.camera.wf_derived()
        &&& self.camera.background@.bounded(CAM_MAX as int)
    }
}

/// Pushes a material and hands back its arena index.
fn push_mat(mats: &mut Vec<Material>, m: Material) -> (idx: u32)
    requires
        m.wf(),
        old(mats)@.len() < 1_000_000,
        forall|i: int| 0 <= i < old(mats)@.len() ==> (#[trigger] old(mats)@[i]).wf(),
    ensures
        final(mats)@ == old(mats)@.push(m),
        forall|i: int| 0 <= i < final(mats)@.len() ==> (#[trigger] final(mats)@[i]).wf(),
        idx as int == old(mats)@.len(),
{
    let idx = mats.len() as u32;
    mats.push(m);
    idx
}

/// The fixed-point encoding of sixteen ninths, the widescreen aspect.
pub const WIDESCREEN: i64 = 1_777_777;

/// A random scattering of small spheres around three large ones over a
/// checkered ground, behind a bounding-volume hierarchy.
pub fn random_spheres() -> (s: Scene)
    ensures
        s.wf(),
{
    let mut world = HittableList::default();
    let mut mats: Vec<Material> = Vec::new();
    let checker = CheckerTexture::new_from_colors(
        320_000,
        Vec3::new(200_000, 300_000, 100_000),
        Vec3::new(900_000, 900_000, 900_000),
    );
    let ground_material = push_mat(
        &mut mats,
        Material::Lambertian(Lambertian::new(checker.into_texture())),
    );
    world.add(
        Hittable::Sphere(
            Sphere::new(Vec3::new(0, -1000 * SCALE, 0), 1000 * SCALE, ground_material),
        ),
    );
    let mut a: i64 = -11;
    while a < 11
        invariant
            -11 <= a <= 11,
            world.wf(),
            mats@.len() <= 1 + (a + 11) * 22,
            forall|i: int| 0 <= i < mats@.len() ==> (#[trigger] mats@[i]).wf(),
            forall|i: int|
                0 <= i < world.objects@.len() ==> !((#[trigger] world.objects@[i]) is Bvh),
            world.objects@.len() >= 1,
        decreases 11 - a,
    {
        let mut b: i64 = -11;
        while b < 11
            invariant
                -11 <= a < 11,
                -11 <= b <= 11,
                world.wf(),
                mats@.len() <= 1 + (a + 11) * 22 + (b + 11),
                forall|i: int| 0 <= i < mats@.len() ==> (#[trigger] mats@[i]).wf(),
                forall|i: int|
                    0 <= i < world.objects@.len() ==> !((#[trigger] world.objects@[i]) is Bvh),
                world.objects@.len() >= 1,
            decreases 11 - b,
        {
            let choose_mat = random_fraction();
            proof {
                lemma_point_nine(random_fraction_bound());
            }
            let jx = fx_mul(900_000, random_fraction());
            let jz = fx_mul(900_000, random_fraction());
            proof {
                lemma_jitter_bounds(jx as int, jz as int);
            }
            let center = Vec3::new(a * SCALE + jx, 200_000, b * SCALE + jz);
            let anchor = Vec3::new(4 * SCALE, 200_000, 0);
            let offset = center.sub(anchor);
            let far_enough = offset.length() > 900_000;
            if far_enough {
                if choose_mat < 800_000 {
                    let r1 = Vec3::random();
                    let r2 = Vec3::random();
                    proof {
                        lemma_albedo_products(r1@, r2@);
                    }
                    let albedo = r1.mul(r2);
                    let center2 = center.add(Vec3::new(0, random_range_fx(0, 500_000), 0));
                    let m = push_mat(
                        &mut mats,
                        Material::Lambertian(Lambertian::new_from_color(albedo)),
                    );
                    world.add(
                        Hittable::Sphere(Sphere::new_moving(center, center2, 200_000, m)),
                    );
                } else if choose_mat < 950_000 {
                    let albedo = Vec3::random_range(500_000, 1_000_000);
                    let fuzz = random_range_fx(0, 500_000);
                    let m = push_mat(&mut mats, Material::Metal(Metal::new(albedo, fuzz)));
                    world.add(Hittable::Sphere(Sphere::new(center, 200_000, m)));
                } else {
                    let m = push_mat(&mut mats, Material::Dielectric(Dielectric::new(1_500_000)));
                    world.add(Hittable::Sphere(Sphere::new(center, 200_000, m)));
                }
            }
            b = b + 1;
        }
        a = a + 1;
    }
    let material1 = push_mat(&mut mats, Material::Dielectric(Dielectric::new(1_500_000)));
    world.add(Hittable::Sphere(Sphere::new(Vec3::new(0, SCALE, 0), SCALE, material1)));
    let material2 = push_mat(
        &mut mats,
        Material::Lambertian(Lambertian::new_from_color(Vec3::new(400_000, 200_000, 100_000))),
    );
    world.add(Hittable::Sphere(Sphere::new(Vec3::new(-4 * SCALE, SCALE, 0), SCALE, material2)));
    let material3 = push_mat(
        &mut mats,
        Material::Metal(Metal::new(Vec3::new(700_000, 600_000, 500_000), 0)),
    );
    world.add(Hittable::Sphere(Sphere::new(Vec3::new(4 * SCALE, SCALE, 0), SCALE, material3)));
    let tree = BvhNode::new(world);
    let world = HittableList::new(tree);
    let mut camera = Camera::new(WIDESCREEN, 1200, 100, 50);
    camera.vfov = 20 * SCALE;
    camera.lookfrom = Vec3::new(13 * SCALE, 2 * SCALE, 3 * SCALE);
    camera.lookat = Vec3::new(0, 0, 0);
    camera.vup = Vec3::new(0, SCALE, 0);
    camera.defocus_angle = 600_000;
    camera.focus_dist = 10 * SCALE;
    camera.background = Vec3::new(700_000, 800_000, SCALE);
    camera.initialize();
    Scene { world: Hittable::List(world), materials: mats, camera }
}

/// Five spheres: a large ground, a diffuse centre, a hollow glass pair and
/// a metal sphere.
pub fn test() -> (s: Scene)
    ensures
        s.wf(),
{
    let mut world = HittableList::default();
    let mut mats: Vec<Material> = Vec::new();
    let material_ground = push_mat(
        &mut mats,
        Material::Lambertian(Lambertian::new_from_color(Vec3::new(800_000, 800_000, 0))),
    );
    let material_center = push_mat(
        &mut mats,
        Material::Lambertian(Lambertian::new_from_color(Vec3::new(100_000, 200_000, 500_000))),
    );
    let material_left = push_mat(&mut mats, Material::Dielectric(Dielectric::new(1_500_000)));
    let material_right = push_mat(
        &mut mats,
        Material::Metal(Metal::new(Vec3::new(800_000, 600_000, 200_000), 0)),
    );
    world.add(
        Hittable::Sphere(
            Sphere::new(Vec3::new(0, -100 * SCALE - 500_000, -SCALE), 100 * SCALE, material_ground),
        ),
    );
    world.add(
        Hittable::Sphere(Sphere::new(Vec3::new(0, 0, -SCALE), 500_000, material_center)),
    );
    world.add(
        Hittable::Sphere(Sphere::new(Vec3::new(-SCALE, 0, -SCALE), 500_000, material_left)),
    );
    world.add(
        Hittable::Sphere(Sphere::new(Vec3::new(-SCALE, 0, -SCALE), -400_000, material_left)),
    );
    world.add(
        Hittable::Sphere(Sphere::new(Vec3::new(SCALE, 0, -SCALE), 500_000, material_right)),
    );
    let mut camera = Camera::new(WIDESCREEN, 400, 100, 50);
    camera.vfov = 90 * SCALE;
    camera.lookfrom = Vec3::new(-2 * SCALE, 2 * SCALE, SCALE);
    camera.lookat = Vec3::new(0, 0, -SCALE);
    camera.vup = Vec3::new(0, SCALE, 0);
    camera.background = Vec3::new(700_000, 800_000, SCALE);
    camera.initialize();
    Scene { world: Hittable::List(world), materials: mats, camera }
}

/// Two large checkered spheres touching at the origin.
pub fn two_spheres() -> (s: Scene)
    ensures
        s.wf(),
{
    let mut world = HittableList::default();
    let mut mats: Vec<Material> = Vec::new();
    let checker = CheckerTexture::new_from_colors(
        800_000,
        Vec3::new(200_000, 300_000, 100_000),
        Vec3::new(900_000, 900_000, 900_000),
    );
    let material = push_mat(
        &mut mats,
        Material::Lambertian(Lambertian::new(checker.into_texture())),
    );
    world.add(
        Hittable::Sphere(Sphere::new(Vec3::new(0, -10 * SCALE, 0), 10 * SCALE, material)),
    );
    world.add(
        Hittable::Sphere(Sphere::new(Vec3::new(0, 10 * SCALE, 0), 10 * SCALE, material)),
    );
    let mut camera = Camera::new(WIDESCREEN, 600, 100, 50);
    camera.vfov = 20 * SCALE;
    camera.lookfrom = Vec3::new(13 * SCALE, 2 * SCALE, 3 * SCALE);
    camera.lookat = Vec3::new(0, 0, 0);
    camera.vup = Vec3::new(0, SCALE, 0);
    camera.background = Vec3::new(700_000, 800_000, SCALE);
    camera.focus_dist = 10 * SCALE;
    camera.initialize();
    Scene { world: Hittable::List(world), materials: mats, camera }
}

/// A single diffuse sphere viewed from a distance.
pub fn test2() -> (s: Scene)
    ensures
        s.wf(),
{
    let mut world = HittableList::default();
    let mut mats: Vec<Material> = Vec::new();
    let material = push_mat(
        &mut mats,
        Material::Lambertian(
            Lambertian::new_from_color(Vec3::new(0, 155 * SCALE, 70 * SCALE)),
        ),
    );
    world.add(Hittable::Sphere(Sphere::new(Vec3::new(0, 0, 0), 2 * SCALE, material)));
    let mut camera = Camera::new(WIDESCREEN, 1080, 400, 50);
    camera.vfov = 20 * SCALE;
    camera.lookfrom = Vec3::new(0, 0, 12 * SCALE);
    camera.lookat = Vec3::new(0, 0, 0);
    camera.vup = Vec3::new(0, SCALE, 0);
    camera.background = Vec3::new(700_000, 800_000, SCALE);
    camera.initialize();
    Scene { world: Hittable::List(world), materials: mats, camera }
}

/// A globe wrapped in a decoded image texture; the loader runs outside the
/// core and hands in the pixel buffer, or nothing when the load failed.
pub fn earth(earth_image: Option<ImageBuffer>) -> (s: Scene)
    requires
        match earth_image {
            Some(buf) => buf.wf(),
            None => true,
        },
    ensures
        s.wf(),
{
    let mut world = HittableList::default();
    let mut mats: Vec<Material> = Vec::new();
    let earth_texture = Texture::Image(ImageTexture::new(earth_image));
    let globe_mat = push_mat(&mut mats, Material::Lambertian(Lambertian::new(earth_texture)));
    world.add(Hittable::Sphere(Sphere::new(Vec3::new(0, 0, 0), 2 * SCALE, globe_mat)));
    let mut camera = Camera::new(WIDESCREEN, 1080, 400, 50);
    camera.vfov = 20 * SCALE;
    camera.lookfrom = Vec3::new(0, 0, 12 * SCALE);
    camera.lookat = Vec3::new(0, 0, 0);
    camera.vup = Vec3::new(0, SCALE, 0);
    camera.background = Vec3::new(700_000, 800_000, SCALE);
    camera.initialize();
    Scene { world: Hittable::List(world), materials: mats, camera }
}

/// Two spheres wrapped in turbulence noise.
pub fn two_perlin_spheres() -> (s: Scene)
    ensures
        s.wf(),
{
    let mut world = HittableList::default();
    let mut mats: Vec<Material> = Vec::new();
    let pertext = push_mat(
        &mut mats,
        Material::Lambertian(
            Lambertian::new(Texture::Noise(NoiseTexture::new(4 * SCALE))),
        ),
    );
    let pertext2 = push_mat(
        &mut mats,
        Material::Lambertian(
            Lambertian::new(Texture::Noise(NoiseTexture::new(4 * SCALE))),
        ),
    );
    world.add(
        Hittable::Sphere(Sphere::new(Vec3::new(0, -1000 * SCALE, 0), 1000 * SCALE, pertext)),
    );
    world.add(
        Hittable::Sphere(Sphere::new(Vec3::new(0, 2 * SCALE, 0), 2 * SCALE, pertext2)),
    );
    let mut camera = Camera::new(WIDESCREEN, 400, 100, 50);
    camera.vfov = 20 * SCALE;
    camera.lookfrom = Vec3::new(13 * SCALE, 2 * SCALE, 3 * SCALE);
    camera.lookat = Vec3::new(0, 0, 0);
    camera.vup = Vec3::new(0, SCALE, 0);
    camera.background = Vec3::new(700_000, 800_000, SCALE);
    camera.initialize();
    Scene { world: Hittable::List(world), materials: mats, camera }
}

/// Five colored quadrilaterals facing the camera.
pub fn quads() -> (s: Scene)
    ensures
        s.wf(),
{
    let mut world = HittableList::default();
    let mut mats: Vec<Material> = Vec::new();
    let left_red = push_mat(
        &mut mats,
        Material::Lambertian(Lambertian::new_from_color(Vec3::new(SCALE, 200_000, 200_000))),
    );
    let back_green = push_mat(
        &mut mats,
        Material::Lambertian(Lambertian::new_from_color(Vec3::new(200_000, SCALE, 200_000))),
    );
    let right_blue = push_mat(
        &mut mats,
        Material::Lambertian(Lambertian::new_from_color(Vec3::new(200_000, 200_000, SCALE))),
    );
    let upper_orange = push_mat(
        &mut mats,
        Material::Lambertian(Lambertian::new_from_color(Vec3::new(SCALE, 500_000, 0))),
    );
    let lower_teal = push_mat(
        &mut mats,
        Material::Lambertian(Lambertian::new_from_color(Vec3::new(200_000, 800_000, 800_000))),
    );
    let u1 = Vec3::new(0, 0, -4 * SCALE);
    let v1 = Vec3::new(0, 4 * SCALE, 0);
    proof {
        assert(u1@.z * v1@.y <= -1_000_000_000_000) by (nonlinear_arith)
            requires
                u1@.z == -4_000_000,
                v1@.y == 4_000_000,
        ;
        crate::quad::lemma_axis_quad_area(u1@, v1@);
    }
    world.add(
        Hittable::Quad(
            Quad::new(Vec3::new(-3 * SCALE, -2 * SCALE, 5 * SCALE), u1, v1, left_red),
        ),
    );
    let u2 = Vec3::new(4 * SCALE, 0, 0);
    let v2 = Vec3::new(0, 4 * SCALE, 0);
    proof {
        assert(u2@.x * v2@.y >= 1_000_000_000_000) by (nonlinear_arith)
            requires
                u2@.x == 4_000_000,
                v2@.y == 4_000_000,
        ;
        crate::quad::lemma_axis_quad_area(u2@, v2@);
    }
    world.add(
        Hittable::Quad(Quad::new(Vec3::new(-2 * SCALE, -2 * SCALE, 0), u2, v2, back_green)),
    );
    let u3 = Vec3::new(0, 0, 4 * SCALE);
    let v3 = Vec3::new(0, 4 * SCALE, 0);
    proof {
        assert(u3@.z * v3@.y >= 1_000_000_000_000) by (nonlinear_arith)
            requires
                u3@.z == 4_000_000,
                v3@.y == 4_000_000,
        ;
        crate::quad::lemma_axis_quad_area(u3@, v3@);
    }
    world.add(
        Hittable::Quad(Quad::new(Vec3::new(3 * SCALE, -2 * SCALE, SCALE), u3, v3, right_blue)),
    );
    let u4 = Vec3::new(4 * SCALE, 0, 0);
    let v4 = Vec3::new(0, 0, 4 * SCALE);
    proof {
        assert(u4@.x * v4@.z >= 1_000_000_000_000) by (nonlinear_arith)
            requires
                u4@.x == 4_000_000,
                v4@.z == 4_000_000,
        ;
        crate::quad::lemma_axis_quad_area(u4@, v4@);
    }
    world.add(
        Hittable::Quad(Quad::new(Vec3::new(-2 * SCALE, 3 * SCALE, SCALE), u4, v4, upper_orange)),
    );
    let u5 = Vec3::new(4 * SCALE, 0, 0);
    let v5 = Vec3::new(0, 0, -4 * SCALE);
    proof {
        assert(u5@.x * v5@.z <= -1_000_000_000_000) by (nonlinear_arith)
            requires
                u5@.x == 4_000_000,
                v5@.z == -4_000_000,
        ;
        crate::quad::lemma_axis_quad_area(u5@, v5@);
    }
    world.add(
        Hittable::Quad(
            Quad::new(Vec3::new(-2 * SCALE, -3 * SCALE, 5 * SCALE), u5, v5, lower_teal),
        ),
    );
    let mut cam = Camera::new(SCALE, 800, 500, 50);
    cam.vfov = 80 * SCALE;
    cam.lookfrom = Vec3::new(0, 0, 9 * SCALE);
    cam.lookat = Vec3::new(0, 0, 0);
    cam.vup = Vec3::new(0, SCALE, 0);
    cam.background = Vec3::new(700_000, 800_000, SCALE);
    cam.initialize();
    Scene { world: Hittable::List(world), materials: mats, camera: cam }
}

/// Two noise spheres lit by an emissive sphere and an emissive quad, over
/// a black background.
pub fn simple_light() -> (s: Scene)
    ensures
        s.wf(),
{
    let mut world = HittableList::default();
    let mut mats: Vec<Material> = Vec::new();
    let pertext = push_mat(
        &mut mats,
        Material::Lambertian(
            Lambertian::new(Texture::Noise(NoiseTexture::new(4 * SCALE))),
        ),
    );
    world.add(
        Hittable::Sphere(Sphere::new(Vec3::new(0, -1000 * SCALE, 0), 1000 * SCALE, pertext)),
    );
    world.add(Hittable::Sphere(Sphere::new(Vec3::new(0, 2 * SCALE, 0), 2 * SCALE, pertext)));
    let difflight = push_mat(
        &mut mats,
        Material::DiffuseLight(
            DiffuseLight::new_with_color(Vec3::new(4 * SCALE, 4 * SCALE, 4 * SCALE)),
        ),
    );
    world.add(Hittable::Sphere(Sphere::new(Vec3::new(0, 7 * SCALE, 0), 2 * SCALE, difflight)));
    let ul = Vec3::new(2 * SCALE, 0, 0);
    let vl = Vec3::new(0, 2 * SCALE, 0);
    proof {
        assert(ul@.x * vl@.y >= 1_000_000_000_000) by (nonlinear_arith)
            requires
                ul@.x == 2_000_000,
                vl@.y == 2_000_000,
        ;
        crate::quad::lemma_axis_quad_area(ul@, vl@);
    }
    world.add(
        Hittable::Quad(Quad::new(Vec3::new(3 * SCALE, SCALE, -2 * SCALE), ul, vl, difflight)),
    );
    let tree = BvhNode::new(world);
    let world = HittableList::new(tree);
    let mut cam = Camera::new(WIDESCREEN, 1600, 1500, 50);
    cam.background = Vec3::new(0, 0, 0);
    cam.vfov = 20 * SCALE;
    cam.lookfrom = Vec3::new(26 * SCALE, 3 * SCALE, 6 * SCALE);
    cam.lookat = Vec3::new(0, 2 * SCALE, 0);
    cam.vup = Vec3::new(0, SCALE, 0);
    cam.initialize();
    Scene { world: Hittable::List(world), materials: mats, camera: cam }
}

/// The classic box room: colored walls, an emissive ceiling panel and two
/// box solids, behind a bounding-volume hierarchy.
pub fn cornell_box() -> (s: Scene)
    ensures
        s.wf(),
{
    let mut world = HittableList::default();
    let mut mats: Vec<Material> = Vec::new();
    let red = push_mat(
        &mut mats,
        Material::Lambertian(Lambertian::new_from_color(Vec3::new(650_000, 50_000, 50_000))),
    );
    let white = push_mat(
        &mut mats,
        Material::Lambertian(Lambertian::new_from_color(Vec3::new(730_000, 730_000, 730_000))),
    );
    let green = push_mat(
        &mut mats,
        Material::Lambertian(Lambertian::new_from_color(Vec3::new(120_000, 450_000, 150_000))),
    );
    let light = push_mat(
        &mut mats,
        Material::DiffuseLight(
            DiffuseLight::new_with_color(Vec3::new(15 * SCALE, 15 * SCALE, 15 * SCALE)),
        ),
    );
    let uc1 = Vec3::new(0, 555 * SCALE, 0);
    let vc1 = Vec3::new(0, 0, 555 * SCALE);
    proof {
        assert(uc1@.y * vc1@.z >= 1_000_000_000_000) by (nonlinear_arith)
            requires
                uc1@.y == 555_000_000,
                vc1@.z == 555_000_000,
        ;
        crate::quad::lemma_axis_quad_area(uc1@, vc1@);
    }
    world.add(Hittable::Quad(Quad::new(Vec3::new(555 * SCALE, 0, 0), uc1, vc1, green)));
    let uc2 = Vec3::new(0, 555 * SCALE, 0);
    let vc2 = Vec3::new(0, 0, 555 * SCALE);
    proof {
        assert(uc2@.y * vc2@.z >= 1_000_000_000_000) by (nonlinear_arith)
            requires
                uc2@.y == 555_000_000,
                vc2@.z == 555_000_000,
        ;
        crate::quad::lemma_axis_quad_area(uc2@, vc2@);
    }
    world.add(Hittable::Quad(Quad::new(Vec3::new(0, 0, 0), uc2, vc2, red)));
    let uc3 = Vec3::new(-130 * SCALE, 0, 0);
    let vc3 = Vec3::new(0, 0, -105 * SCALE);
    proof {
        assert(uc3@.x * vc3@.z >= 1_000_000_000_000) by (nonlinear_arith)
            requires
                uc3@.x == -130_000_000,
                vc3@.z == -105_000_000,
        ;
        crate::quad::lemma_axis_quad_area(uc3@, vc3@);
    }
    world.add(Hittable::Quad(Quad::new(Vec3::new(343 * SCALE, 554 * SCALE, 332 * SCALE), uc3, vc3, light)));
    let uc4 = Vec3::new(555 * SCALE, 0, 0);
    let vc4 = Vec3::new(0, 0, 555 * SCALE);
    proof {
        assert(uc4@.x * vc4@.z >= 1_000_000_000_000) by (nonlinear_arith)
            requires
                uc4@.x == 555_000_000,
                vc4@.z == 555_000_000,
        ;
        crate::quad::lemma_axis_quad_area(uc4@, vc4@);
    }
    world.add(Hittable::Quad(Quad::new(Vec3::new(0, 0, 0), uc4, vc4, white)));
    let uc5 = Vec3::new(-555 * SCALE, 0, 0);
    let vc5 = Vec3::new(0, 0, -555 * SCALE);
    proof {
        assert(uc5@.x * vc5@.z >= 1_000_000_000_000) by (nonlinear_arith)
            requires
                uc5@.x == -555_000_000,
                vc5@.z == -555_000_000,
        ;
        crate::quad::lemma_axis_quad_area(uc5@, vc5@);
    }
    world.add(Hittable::Quad(Quad::new(Vec3::new(555 * SCALE, 555 * SCALE, 555 * SCALE), uc5, vc5, white)));
    let uc6 = Vec3::new(555 * SCALE, 0, 0);
    let vc6 = Vec3::new(0, 555 * SCALE, 0);
    proof {
        assert(uc6@.x * vc6@.y >= 1_000_000_000_000) by (nonlinear_arith)
            requires
                uc6@.x == 555_000_000,
                vc6@.y == 555_000_000,
        ;
        crate::quad::lemma_axis_quad_area(uc6@, vc6@);
    }
    world.add(Hittable::Quad(Quad::new(Vec3::new(0, 0, 555 * SCALE), uc6, vc6, white)));
    let b1a = Vec3::new(130 * SCALE, 0, 65 * SCALE);
    let b1b = Vec3::new(295 * SCALE, 165 * SCALE, 230 * SCALE);
    proof {
        crate::quad::lemma_box_faces_valid(b1a@, b1b@);
    }
    world.add(box_solid(b1a, b1b, white));
    let b2a = Vec3::new(265 * SCALE, 0, 295 * SCALE);
    let b2b = Vec3::new(430 * SCALE, 330 * SCALE, 460 * SCALE);
    proof {
        crate::quad::lemma_box_faces_valid(b2a@, b2b@);
    }
    world.add(box_solid(b2a, b2b, white));
    let tree = BvhNode::new(world);
    let world = HittableList::new(tree);
    let mut cam = Camera::new(SCALE, 600, 20000, 50);
    cam.background = Vec3::new(0, 0, 0);
    cam.vfov = 40 * SCALE;
    cam.lookfrom = Vec3::new(278 * SCALE, 278 * SCALE, -800 * SCALE);
    cam.lookat = Vec3::new(278 * SCALE, 278 * SCALE, 0);
    cam.vup = Vec3::new(0, SCALE, 0);
    cam.initialize();
    Scene { world: Hittable::List(world), materials: mats, camera: cam }
}

/// The half-open unit bound of the shared random source, named for the
/// jitter lemmas.
spec fn random_fraction_bound() -> int {
    SCALE as int
}

/// Jittering by ninety percent of a unit fraction stays under a unit.
proof fn lemma_point_nine(b: int)
    requires
        b == SCALE as int,
    ensures
        forall|r: int|
            0 <= r < b ==> 0 <= #[trigger] fxmul(900_000, r) <= 900_000,
{
    assert forall|r: int| 0 <= r < b implies 0 <= #[trigger] fxmul(900_000, r) <= 900_000 by {
        assert(0 <= 900_000 * r <= 900_000_000_000) by (nonlinear_arith)
            requires
                0 <= r < 1_000_000,
        ;
        lemma_fxmul_range(900_000, r, 0, 900_000_000_000);
        lemma_fdiv_bounds(900_000_000_000, SCALE as int);
        crate::fx::lemma_fdiv_ge(0, SCALE as int, 0);
    }
}

/// The jittered centre offsets stay within a unit of the lattice point.
proof fn lemma_jitter_bounds(jx: int, jz: int)
    requires
        0 <= jx <= 900_000,
        0 <= jz <= 900_000,
    ensures
        0 <= jx <= SCALE as int,
        0 <= jz <= SCALE as int,
{
}

/// Componentwise products of two unit fractions stay unit fractions.
proof fn lemma_albedo_products(r1: V3, r2: V3)
    requires
        0 <= r1.x < SCALE as int,
        0 <= r1.y < SCALE as int,
        0 <= r1.z < SCALE as int,
        0 <= r2.x < SCALE as int,
        0 <= r2.y < SCALE as int,
        0 <= r2.z < SCALE as int,
    ensures
        0 <= fxmul(r1.x, r2.x) <= SCALE as int,
        0 <= fxmul(r1.y, r2.y) <= SCALE as int,
        0 <= fxmul(r1.z, r2.z) <= SCALE as int,
{
    lemma_albedo_one(r1.x, r2.x);
    lemma_albedo_one(r1.y, r2.y);
    lemma_albedo_one(r1.z, r2.z);
}

/// One componentwise product of unit fractions.
proof fn lemma_albedo_one(a: int, b: int)
    requires
        0 <= a < SCALE as int,
        0 <= b < SCALE as int,
    ensures
        0 <= fxmul(a, b) <= SCALE as int,
{
    assert(0 <= a * b <= 1_000_000_000_000) by (nonlinear_arith)
        requires
            0 <= a < 1_000_000,
            0 <= b < 1_000_000,
    ;
    lemma_fxmul_range(a, b, 0, 1_000_000_000_000);
    lemma_fdiv_bounds(1_000_000_000_000, SCALE as int);
    crate::fx::lemma_fdiv_ge(0, SCALE as int, 0);
}

} // verus!
