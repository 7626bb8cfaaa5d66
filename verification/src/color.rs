//! Turning accumulated sample colors into eight-bit channel values:
//! average over the samples, gamma-correct, clamp, quantize.  The writing
//! itself happens outside the core.

use vstd::prelude::*;
use crate::fx::{fdiv, sqrt_floor_int, floor_div_i128, isqrt_i128, lemma_fdiv_bounds, SCALE};
use crate::vec3::{Color, V3};

verus! {

/// Gamma correction: the square root of the linear value; negative values
/// darken to zero.
pub open spec fn spec_linear_to_gamma(c: int) -> int {
    if c <= 0 {
        0
    } else {
        sqrt_floor_int(c * SCALE)
    }
}

/// One channel quantized: averaged over the samples, gamma-corrected,
/// clamped to just under one, and scaled to the eight-bit range.
pub open spec fn spec_channel_byte(c: int, samples_per_pixel: int) -> int {
    let avg = fdiv(c, samples_per_pixel);
    let g = spec_linear_to_gamma(avg);
    let clamped = if g < 0 {
        0
    } else if g > 999_000 {
        999_000
    } else {
        g
    };
    fdiv(256 * clamped, SCALE as int)
}

/// Gamma correction, computed.
pub fn linear_to_gamma(linear_component: i64) -> (r: i64)
    requires
        linear_component <= 2_000_000_000_000,
    ensures
        r == spec_linear_to_gamma(linear_component as int),
        0 <= r <= 2_000_000_000,
{
    if linear_component <= 0 {
        return 0;
    }
    proof {
        assert(0 < (linear_component as int) * (SCALE as int) <= 2_000_000_000_000_000_000)
            by (nonlinear_arith)
            requires
                0 < linear_component as int <= 2_000_000_000_000,
                SCALE == 1_000_000i64,
        ;
    }
    let s = isqrt_i128((linear_component as i128) * (SCALE as i128));
    proof {
        assert(s <= 2_000_000_000) by (nonlinear_arith)
            requires
                s >= 0,
                s * s <= (linear_component as int) * (SCALE as int),
                0 < linear_component as int <= 2_000_000_000_000,
                SCALE == 1_000_000i64,
        ;
    }
    s as i64
}

/// The three quantized channel values of an accumulated pixel color.
pub fn color_bytes(pixel_color: Color, samples_per_pixel: i32) -> (r: (i32, i32, i32))
    requires
        samples_per_pixel >= 1,
        pixel_color@.bounded(2_000_000_000_000),
    ensures
        r.0 == spec_channel_byte(pixel_color@.x, samples_per_pixel as int),
        r.1 == spec_channel_byte(pixel_color@.y, samples_per_pixel as int),
        r.2 == spec_channel_byte(pixel_color@.z, samples_per_pixel as int),
        0 <= r.0 <= 256,
        0 <= r.1 <= 256,
        0 <= r.2 <= 256,
{
    let r0 = channel_byte(pixel_color.x(), samples_per_pixel);
    let r1 = channel_byte(pixel_color.y(), samples_per_pixel);
    let r2 = channel_byte(pixel_color.z(), samples_per_pixel);
    (r0, r1, r2)
}

/// One channel quantized.
fn channel_byte(c: i64, samples_per_pixel: i32) -> (r: i32)
    requires
        samples_per_pixel >= 1,
        -2_000_000_000_000 <= c <= 2_000_000_000_000,
    ensures
        r == spec_channel_byte(c as int, samples_per_pixel as int),
        0 <= r <= 256,
{
    proof {
        crate::fx::lemma_fdiv_shrink(c as int, samples_per_pixel as int);
    }
    let avg = floor_div_i128(c as i128, samples_per_pixel as i128) as i64;
    let g = linear_to_gamma(avg);
    let clamped: i64 = if g > 999_000 {
        999_000
    } else {
        g
    };
    proof {
        lemma_fdiv_bounds(256 * clamped as int, SCALE as int);
    }
    (floor_div_i128(256 * (clamped as i128), SCALE as i128)) as i32
}

} // verus!
