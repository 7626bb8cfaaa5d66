//! The uniform random source the core consumes: thread-local generator,
//! wrapped so that every verified caller sees only the guaranteed range of
//! each draw.

use vstd::prelude::*;
use crate::fx::SCALE;

verus! {

/// An integer uniform over the inclusive range, computed from one draw of
/// the unit-fraction source.
pub fn random_int(min: i32, max: i32) -> (r: i32)
    requires
        min <= max,
    ensures
        min <= r <= max,
{
    let span: i64 = (max as i64) - (min as i64) + 1;
    let f = random_fraction();
    proof {
        assert(0 <= (span as int) * (f as int) && (span as int) * (f as int) < (span as int) * (
        SCALE as int) && (span as int) * (f as int) <= (span as int) * (SCALE as int) - 1)
            by (nonlinear_arith)
            requires
                1 <= span as int <= 0x1_0000_0001,
                0 <= (f as int) < SCALE as int,
        ;
        crate::fx::lemma_fdiv_mono(0, (span as int) * (f as int), SCALE as int);
        crate::fx::lemma_fdiv_mono(
            (span as int) * (f as int),
            (span as int) * (SCALE as int) - 1,
            SCALE as int,
        );
        crate::fx::lemma_fdiv_multiple(span as int, SCALE as int);
        crate::fx::lemma_fdiv_bounds((span as int) * (SCALE as int) - 1, SCALE as int);
        assert(crate::fx::fdiv((span as int) * (SCALE as int) - 1, SCALE as int) <= span as int
            - 1) by (nonlinear_arith)
            requires
                crate::fx::fdiv((span as int) * (SCALE as int) - 1, SCALE as int) * (SCALE as int)
                    <= (span as int) * (SCALE as int) - 1,
                SCALE == 1_000_000i64,
        ;
        assert(crate::fx::fdiv(0int, SCALE as int) == 0);
    }
    let off = crate::fx::floor_div_i128((span as i128) * (f as i128), SCALE as i128) as i64;
    (min as i64 + off) as i32
}

/// Relies on `rand::Rng::gen_range` over `0..SCALE`: a fixed-point value
/// uniform in `[0, 1)`.
#[verifier::external_body]
pub fn random_fraction() -> (r: i64)
    ensures
        0 <= r < SCALE,
{
    let mut rng = rand::thread_rng();
    rand::Rng::gen_range(&mut rng, 0..SCALE)
}

/// Relies on `rand::Rng::gen_range` over `min..max`: a fixed-point value
/// uniform in the half-open range.
#[verifier::external_body]
pub fn random_range_fx(min: i64, max: i64) -> (r: i64)
    requires
        min < max,
    ensures
        min <= r < max,
{
    let mut rng = rand::thread_rng();
    rand::Rng::gen_range(&mut rng, min..max)
}

} // verus!
