//! Textures: solid colors, a three-dimensional checker, nearest-neighbor
//! image lookup, and turbulence over gradient noise.

use vstd::prelude::*;
use crate::fx::{fdiv, fxmul, floor_div_i128, lemma_fdiv_bounds, SCALE};
use crate::perlin::{Perlin, spec_turb};
use crate::vec3::{Color, Point3, Vec3, V3, COORD_MAX};

verus! {

broadcast use vstd::seq::axiom_seq_index_decreases;

/// A texture: what color a surface shows at given coordinates.
pub enum Texture {
    SolidColor(SolidColor),
    Checker(Box<CheckerTexture>),
    Image(ImageTexture),
    Noise(NoiseTexture),
}

/// A constant color.
pub struct SolidColor {
    pub color_value: Color,
}

/// A three-dimensional checker: the parity of the scaled, floored spatial
/// coordinates selects one of two sub-textures.
pub struct CheckerTexture {
    pub inv_scale: i64,
    pub even: Texture,
    pub odd: Texture,
}

/// A decoded image and a nearest-neighbor lookup; an absent image shows a
/// fixed diagnostic color.
pub struct ImageTexture {
    pub image: Option<ImageBuffer>,
}

/// A decoded RGB pixel buffer, supplied by an outside loader before the
/// render starts.
pub struct ImageBuffer {
    pub width: u32,
    pub height: u32,
    pub data: Vec<u8>,
}

/// Turbulence over gradient noise, scaled in space.
pub struct NoiseTexture {
    pub noise: Perlin,
    pub scale: i64,
}

impl ImageBuffer {
    /// A decoded buffer is non-degenerate and holds exactly three bytes
    /// per pixel.
    pub open spec fn wf(self) -> bool {
        &&& self.width >= 1
        &&& self.height >= 1
        &&& self.data@.len() == 3 * self.width * self.height
    }
}

impl Texture {
    /// Sub-textures are well-formed; images carry valid buffers; noise
    /// tables have their fixed shape and a bounded spatial scale.
    pub open spec fn wf(self) -> bool
        decreases self,
    {
        match self {
            Texture::SolidColor(sc) => true,
            Texture::Checker(c) => c.even.wf() && c.odd.wf() && -400 * SCALE as int <= c.inv_scale
                <= 400 * SCALE as int,
            Texture::Image(img) => match img.image {
                Some(buf) => buf.wf(),
                None => true,
            },
            Texture::Noise(n) => n.noise.wf() && 0 <= n.scale <= 400 * SCALE as int,
        }
    }

    /// The color at the given surface coordinates and spatial point.
    pub fn value(&self, u: i64, v: i64, p: Point3) -> (r: Color)
        requires
            self.wf(),
            p@.bounded(4 * COORD_MAX as int),
        ensures
            r@ == spec_texture_value(*self, u as int, v as int, p@),
        decreases *self,
    {
        match self {
            Texture::SolidColor(sc) => sc.color_value,
            Texture::Checker(c) => {
                proof {
                    assert(-6_400_000_000_000_000_000 <= (c.inv_scale as int) * p@.x
                        <= 6_400_000_000_000_000_000 && -6_400_000_000_000_000_000 <= (c.inv_scale
                        as int) * p@.y <= 6_400_000_000_000_000_000 && -6_400_000_000_000_000_000
                        <= (c.inv_scale as int) * p@.z <= 6_400_000_000_000_000_000)
                        by (nonlinear_arith)
                        requires
                            -400_000_000 <= c.inv_scale as int <= 400_000_000,
                            -16_000_000_000 <= p@.x <= 16_000_000_000,
                            -16_000_000_000 <= p@.y <= 16_000_000_000,
                            -16_000_000_000 <= p@.z <= 16_000_000_000,
                    ;
                    lemma_fdiv_bounds((c.inv_scale as int) * p@.x, 1_000_000_000_000);
                    lemma_fdiv_bounds((c.inv_scale as int) * p@.y, 1_000_000_000_000);
                    lemma_fdiv_bounds((c.inv_scale as int) * p@.z, 1_000_000_000_000);
                }
                let xi = floor_div_i128((c.inv_scale as i128) * (p.x() as i128), 1_000_000_000_000);
                let yi = floor_div_i128((c.inv_scale as i128) * (p.y() as i128), 1_000_000_000_000);
                let zi = floor_div_i128((c.inv_scale as i128) * (p.z() as i128), 1_000_000_000_000);
                let is_even = (xi + yi + zi).checked_rem_euclid(2).unwrap() == 0;
                if is_even {
                    c.even.value(u, v, p)
                } else {
                    c.odd.value(u, v, p)
                }
            },
            Texture::Image(img) => img.value(u, v, p),
            Texture::Noise(n) => {
                proof {
                    assert(-6_400_000_000_000_000_000 <= (n.scale as int) * (p@.x)
                        <= 6_400_000_000_000_000_000 && -6_400_000_000_000_000_000 <= (n.scale
                        as int) * (p@.y) <= 6_400_000_000_000_000_000
                        && -6_400_000_000_000_000_000 <= (n.scale as int) * (p@.z)
                        <= 6_400_000_000_000_000_000) by (nonlinear_arith)
                        requires
                            0 <= n.scale as int <= 400_000_000,
                            -16_000_000_000 <= p@.x <= 16_000_000_000,
                            -16_000_000_000 <= p@.y <= 16_000_000_000,
                            -16_000_000_000 <= p@.z <= 16_000_000_000,
                    ;
                    crate::fx::lemma_fxmul_range(
                        n.scale as int,
                        p@.x,
                        -6_400_000_000_000_000_000,
                        6_400_000_000_000_000_000,
                    );
                    crate::fx::lemma_fxmul_range(
                        n.scale as int,
                        p@.y,
                        -6_400_000_000_000_000_000,
                        6_400_000_000_000_000_000,
                    );
                    crate::fx::lemma_fxmul_range(
                        n.scale as int,
                        p@.z,
                        -6_400_000_000_000_000_000,
                        6_400_000_000_000_000_000,
                    );
                    lemma_fdiv_bounds(6_400_000_000_000_000_000, SCALE as int);
                    lemma_fdiv_bounds(-6_400_000_000_000_000_000, SCALE as int);
                }
                let scaled = p.scale(n.scale);
                let t = n.noise.turb(scaled, 7);
                Vec3::new(t, t, t)
            },
        }
    }
}

impl SolidColor {
    pub fn new(c: Color) -> (r: Self)
        ensures
            r.color_value == c,
    {
        Self { color_value: c }
    }

    pub fn new_from_rgb(red: i64, green: i64, blue: i64) -> (r: Self)
        ensures
            r.color_value@ == (V3 { x: red as int, y: green as int, z: blue as int }),
    {
        Self { color_value: Vec3::new(red, green, blue) }
    }
}

impl CheckerTexture {
    /// A checker from a spatial period: the stored factor is its inverse.
    pub fn new(scale: i64, even: Texture, odd: Texture) -> (r: Self)
        requires
            scale != 0,
            crate::fx::fxdiv(SCALE as int, scale as int) >= -400 * SCALE as int,
            crate::fx::fxdiv(SCALE as int, scale as int) <= 400 * SCALE as int,
            even.wf(),
            odd.wf(),
        ensures
            r.even.wf(),
            r.odd.wf(),
            -400 * SCALE as int <= r.inv_scale <= 400 * SCALE as int,
            r.inv_scale == crate::fx::fxdiv(SCALE as int, scale as int),
            r.even == even,
            r.odd == odd,
    {
        Self { inv_scale: crate::fx::fx_div(SCALE, scale), even, odd }
    }

    /// Boxes the checker up as a texture, carrying its well-formedness.
    pub fn into_texture(self) -> (t: Texture)
        requires
            self.even.wf(),
            self.odd.wf(),
            -400 * SCALE as int <= self.inv_scale <= 400 * SCALE as int,
        ensures
            t.wf(),
            t == Texture::Checker(Box::new(self)),
    {
        Texture::Checker(Box::new(self))
    }

    /// A checker over two solid colors.
    pub fn new_from_colors(scale: i64, c1: Color, c2: Color) -> (r: Self)
        requires
            scale != 0,
            crate::fx::fxdiv(SCALE as int, scale as int) >= -400 * SCALE as int,
            crate::fx::fxdiv(SCALE as int, scale as int) <= 400 * SCALE as int,
        ensures
            r.even.wf(),
            r.odd.wf(),
            -400 * SCALE as int <= r.inv_scale <= 400 * SCALE as int,
            r.inv_scale == crate::fx::fxdiv(SCALE as int, scale as int),
            r.even == Texture::SolidColor(SolidColor { color_value: c1 }),
            r.odd == Texture::SolidColor(SolidColor { color_value: c2 }),
    {
        Self {
            inv_scale: crate::fx::fx_div(SCALE, scale),
            even: Texture::SolidColor(SolidColor::new(c1)),
            odd: Texture::SolidColor(SolidColor::new(c2)),
        }
    }
}

impl ImageTexture {
    /// A texture over an already decoded buffer; `None` stands for a
    /// failed or absent load and shows the diagnostic color.
    pub fn new(image: Option<ImageBuffer>) -> (r: Self)
        ensures
            r.image == image,
    {
        Self { image }
    }

    /// Nearest-neighbor lookup after clamping the surface coordinates.
    pub fn value(&self, u: i64, v: i64, _p: Point3) -> (r: Color)
        requires
            (Texture::Image(ImageTexture { image: self.image })).wf(),
        ensures
            r@ == spec_image_value(self.image, u as int, v as int),
    {
        match &self.image {
            None => Vec3::new(0, SCALE, SCALE),
            Some(image) => {
                let uc = clamp01(u);
                let vc = SCALE - clamp01(v);
                proof {
                    assert(0 <= (uc as int) * (image.width as int) <= 4_300_000_000_000_000
                        && 0 <= (vc as int) * (image.height as int) <= 4_300_000_000_000_000)
                        by (nonlinear_arith)
                        requires
                            0 <= uc as int <= 1_000_000,
                            0 <= vc as int <= 1_000_000,
                            0 <= image.width as int <= 4_300_000_000,
                            0 <= image.height as int <= 4_300_000_000,
                    ;
                    lemma_fdiv_bounds((uc as int) * (image.width as int), SCALE as int);
                    lemma_fdiv_bounds((vc as int) * (image.height as int), SCALE as int);
                    crate::fx::lemma_fdiv_ge((uc as int) * (image.width as int), SCALE as int, 0);
                    crate::fx::lemma_fdiv_ge((vc as int) * (image.height as int), SCALE as int, 0);
                }
                let mut i = floor_div_i128(
                    (uc as i128) * (image.width as i128),
                    SCALE as i128,
                ) as u64;
                let mut j = floor_div_i128(
                    (vc as i128) * (image.height as i128),
                    SCALE as i128,
                ) as u64;
                if i >= image.width as u64 {
                    i = image.width as u64 - 1;
                }
                if j >= image.height as u64 {
                    j = image.height as u64 - 1;
                }
                let dl = image.data.len();
                proof {
                    let w = image.width as int;
                    let h = image.height as int;
                    let len = dl as int;
                    assert(len == image.data@.len());
                    assert(3 * (j as int) <= len && 3 * (j as int) * w <= len && 3 * (j as int) * w
                        + 3 * (i as int) + 2 < len) by (nonlinear_arith)
                        requires
                            0 <= (i as int) < w,
                            0 <= (j as int) < h,
                            1 <= w,
                            1 <= h,
                            len == 3 * w * h,
                    ;
                }
                let base = 3 * (j as usize) * (image.width as usize) + 3 * (i as usize);
                let pr = image.data[base];
                let pg = image.data[base + 1];
                let pb = image.data[base + 2];
                proof {
                    lemma_fdiv_bounds(255 * SCALE as int, 255);
                    lemma_fdiv_bounds((pr as int) * (SCALE as int), 255);
                    lemma_fdiv_bounds((pg as int) * (SCALE as int), 255);
                    lemma_fdiv_bounds((pb as int) * (SCALE as int), 255);
                    crate::fx::lemma_fdiv_mono((pr as int) * (SCALE as int), 255_000_000, 255);
                    crate::fx::lemma_fdiv_mono((pg as int) * (SCALE as int), 255_000_000, 255);
                    crate::fx::lemma_fdiv_mono((pb as int) * (SCALE as int), 255_000_000, 255);
                    crate::fx::lemma_fdiv_ge((pr as int) * (SCALE as int), 255, 0);
                    crate::fx::lemma_fdiv_ge((pg as int) * (SCALE as int), 255, 0);
                    crate::fx::lemma_fdiv_ge((pb as int) * (SCALE as int), 255, 0);
                }
                let r = floor_div_i128((pr as i128) * (SCALE as i128), 255) as i64;
                let g = floor_div_i128((pg as i128) * (SCALE as i128), 255) as i64;
                let b = floor_div_i128((pb as i128) * (SCALE as i128), 255) as i64;
                Vec3::new(r, g, b)
            },
        }
    }
}

impl NoiseTexture {
    /// A turbulence texture with a spatial frequency scale.
    pub fn new(scale: i64) -> (r: Self)
        requires
            0 <= scale <= 400 * SCALE as int,
        ensures
            Texture::Noise(r).wf(),
            r.scale == scale,
    {
        Self { noise: Perlin::new(), scale }
    }
}

/// Saturates a surface coordinate into `[0, 1]`.
fn clamp01(x: i64) -> (r: i64)
    ensures
        r == spec_clamp01(x as int),
        0 <= r <= SCALE,
{
    if x < 0 {
        0
    } else if x > SCALE {
        SCALE
    } else {
        x
    }
}

/// Saturation into `[0, 1]`.
pub open spec fn spec_clamp01(x: int) -> int {
    if x < 0 {
        0
    } else if x > SCALE {
        SCALE as int
    } else {
        x
    }
}

/// The checker parity at a spatial point: the floored scaled coordinates,
/// summed, modulo two.
pub open spec fn spec_checker_is_even(inv_scale: int, p: V3) -> bool {
    let xi = fdiv(inv_scale * p.x, 1_000_000_000_000);
    let yi = fdiv(inv_scale * p.y, 1_000_000_000_000);
    let zi = fdiv(inv_scale * p.z, 1_000_000_000_000);
    (xi + yi + zi) % 2 == 0
}

/// The color an image texture shows: the diagnostic color for an absent
/// buffer, otherwise the nearest pixel after clamping and flipping `v`.
pub open spec fn spec_image_value(image: Option<ImageBuffer>, u: int, v: int) -> V3 {
    match image {
        None => V3 { x: 0, y: SCALE as int, z: SCALE as int },
        Some(img) => {
            let uc = spec_clamp01(u);
            let vc = SCALE - spec_clamp01(v);
            let i0 = fdiv(uc * img.width, SCALE as int);
            let j0 = fdiv(vc * img.height, SCALE as int);
            let i = if i0 >= img.width {
                img.width - 1
            } else {
                i0
            };
            let j = if j0 >= img.height {
                img.height - 1
            } else {
                j0
            };
            let base = 3 * j * img.width + 3 * i;
            V3 {
                x: fdiv(img.data@[base] * SCALE, 255),
                y: fdiv(img.data@[base + 1] * SCALE, 255),
                z: fdiv(img.data@[base + 2] * SCALE, 255),
            }
        },
    }
}

/// The color a texture shows at the given coordinates.
pub open spec fn spec_texture_value(t: Texture, u: int, v: int, p: V3) -> V3
    decreases t,
{
    match t {
        Texture::SolidColor(sc) => sc.color_value@,
        Texture::Checker(c) => {
            if spec_checker_is_even(c.inv_scale as int, p) {
                spec_texture_value(c.even, u, v, p)
            } else {
                spec_texture_value(c.odd, u, v, p)
            }
        },
        Texture::Image(img) => spec_image_value(img.image, u, v),
        Texture::Noise(n) => {
            let tv = spec_turb(n.noise, p.smul(n.scale as int), SCALE as int, 7);
            V3 { x: tv, y: tv, z: tv }
        },
    }
}


/// Checker parity is invariant under translation by integer multiples of
/// twice the checker period along each axis; with solid sub-textures the
/// shown color is unchanged.
pub proof fn lemma_checker_translation(
    c: CheckerTexture,
    u: int,
    v: int,
    p: V3,
    dx: int,
    dy: int,
    dz: int,
    kx: int,
    ky: int,
    kz: int,
)
    requires
        dx * c.inv_scale == 2 * kx * 1_000_000_000_000,
        dy * c.inv_scale == 2 * ky * 1_000_000_000_000,
        dz * c.inv_scale == 2 * kz * 1_000_000_000_000,
    ensures
        spec_checker_is_even(
            c.inv_scale as int,
            V3 { x: p.x + dx, y: p.y + dy, z: p.z + dz },
        ) == spec_checker_is_even(c.inv_scale as int, p),
        (c.even is SolidColor && c.odd is SolidColor) ==> spec_texture_value(
            Texture::Checker(Box::new(c)),
            u,
            v,
            V3 { x: p.x + dx, y: p.y + dy, z: p.z + dz },
        ) == spec_texture_value(Texture::Checker(Box::new(c)), u, v, p),
{
    let s2 = 1_000_000_000_000int;
    let inv = c.inv_scale as int;
    let xi = fdiv(inv * p.x, s2);
    let yi = fdiv(inv * p.y, s2);
    let zi = fdiv(inv * p.z, s2);
    assert(inv * (p.x + dx) == inv * p.x + (2 * kx) * s2 && inv * (p.y + dy) == inv * p.y + (2
        * ky) * s2 && inv * (p.z + dz) == inv * p.z + (2 * kz) * s2) by (nonlinear_arith)
        requires
            dx * inv == 2 * kx * s2,
            dy * inv == 2 * ky * s2,
            dz * inv == 2 * kz * s2,
            s2 == 1_000_000_000_000int,
    ;
    crate::fx::lemma_fdiv_add_multiple(inv * p.x, 2 * kx, s2);
    crate::fx::lemma_fdiv_add_multiple(inv * p.y, 2 * ky, s2);
    crate::fx::lemma_fdiv_add_multiple(inv * p.z, 2 * kz, s2);
    let total = xi + yi + zi;
    let shift = kx + ky + kz;
    assert(fdiv(inv * (p.x + dx), s2) + fdiv(inv * (p.y + dy), s2) + fdiv(inv * (p.z + dz), s2)
        == total + 2 * shift);
    lemma_parity_shift(total, shift);
    let tp = V3 { x: p.x + dx, y: p.y + dy, z: p.z + dz };
    if c.even is SolidColor && c.odd is SolidColor {
        assert(spec_texture_value(c.even, u, v, tp) == spec_texture_value(c.even, u, v, p));
        assert(spec_texture_value(c.odd, u, v, tp) == spec_texture_value(c.odd, u, v, p));
    }
}

/// Adding an even amount preserves parity.
proof fn lemma_parity_shift(a: int, k: int)
    ensures
        (a + 2 * k) % 2 == a % 2,
{
    vstd::arithmetic::div_mod::lemma_mod_multiples_vanish(k, a, 2);
}

} // verus!
