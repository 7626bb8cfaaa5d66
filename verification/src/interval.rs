//! Closed intervals of fixed-point scalars, used both for ray-parameter
//! ranges and for bounding-box extents.  An interval with `min > max` is
//! empty; no invariant is imposed.

use vstd::prelude::*;
use crate::fx::{cdiv, fdiv, imin, imax, INFINITY};

verus! {

#[derive(Clone, Copy, PartialEq, Eq, Structural, Debug, Default)]
pub struct Interval {
    pub min: i64,
    pub max: i64,
}

impl Interval {
    /// Inclusive membership.
    pub open spec fn spec_contains(self, x: int) -> bool {
        self.min <= x <= self.max
    }

    /// Exclusive membership.
    pub open spec fn spec_surrounds(self, x: int) -> bool {
        self.min < x < self.max
    }

    /// The union of two intervals, by elementwise min and max.
    pub open spec fn spec_union(a: Interval, b: Interval) -> Interval {
        Interval {
            min: if a.min <= b.min {
                a.min
            } else {
                b.min
            },
            max: if a.max >= b.max {
                a.max
            } else {
                b.max
            },
        }
    }

    pub fn new(min: i64, max: i64) -> (r: Self)
        ensures
            r.min == min,
            r.max == max,
    {
        Self { min, max }
    }

    /// The interval enclosing both arguments.
    pub fn new_from_intervals(a: Interval, b: Interval) -> (r: Self)
        ensures
            r == Self::spec_union(a, b),
    {
        Self { min: imin(a.min, b.min), max: imax(a.max, b.max) }
    }

    /// The full ray-parameter range used by the radiance estimator.
    pub fn positive() -> (r: Self)
        ensures
            r.min == 1_000i64,
            r.max == INFINITY,
    {
        Self { min: 1_000, max: INFINITY }
    }

    /// Inclusive membership.
    pub fn contains(self, x: i64) -> (r: bool)
        ensures
            r == self.spec_contains(x as int),
    {
        self.min <= x && x <= self.max
    }

    /// Exclusive membership.
    pub fn surrounds(self, x: i64) -> (r: bool)
        ensures
            r == self.spec_surrounds(x as int),
    {
        self.min < x && x < self.max
    }

    /// Saturates `x` into the interval.
    pub fn clamp(self, x: i64) -> (r: i64)
        ensures
            r == if x < self.min {
                self.min
            } else if x > self.max {
                self.max
            } else {
                x
            },
    {
        if x < self.min {
            return self.min;
        }
        if x > self.max {
            return self.max;
        }
        x
    }

    /// The width of the interval.
    pub fn size(self) -> (r: i64)
        requires
            i64::MIN <= self.max - self.min <= i64::MAX,
        ensures
            r == self.max - self.min,
    {
        self.max - self.min
    }

    /// Grows the interval symmetrically by half of `delta` on each side,
    /// rounding the half up so the width always grows by at least `delta`.
    pub fn expand(self, delta: i64) -> (r: Self)
        requires
            delta > i64::MIN,
            i64::MIN <= self.min - cdiv(delta as int, 2) <= i64::MAX,
            i64::MIN <= self.max + cdiv(delta as int, 2) <= i64::MAX,
        ensures
            r.min == self.min - cdiv(delta as int, 2),
            r.max == self.max + cdiv(delta as int, 2),
            r.max - r.min >= self.max - self.min + delta,
            r.min <= self.min && self.max <= r.max || delta < 0,
    {
        proof {
            crate::fx::lemma_fdiv_bounds(-(delta as int), 2);
            assert(2 * cdiv(delta as int, 2) >= delta as int) by (nonlinear_arith)
                requires
                    fdiv(-(delta as int), 2) * 2 <= -(delta as int) < (fdiv(-(delta as int), 2) + 1)
                        * 2,
                    cdiv(delta as int, 2) == -fdiv(-(delta as int), 2),
            ;
            assert(delta >= 0 ==> cdiv(delta as int, 2) >= 0) by (nonlinear_arith)
                requires
                    fdiv(-(delta as int), 2) * 2 <= -(delta as int) < (fdiv(-(delta as int), 2) + 1)
                        * 2,
                    cdiv(delta as int, 2) == -fdiv(-(delta as int), 2),
            ;
        }
        let padding = if delta >= 0 {
            delta.checked_div_euclid(2).unwrap() + delta.checked_rem_euclid(2).unwrap()
        } else {
            -((-delta).checked_div_euclid(2).unwrap())
        };
        proof {
            lemma_ceil_half(delta as int);
        }
        Self { min: self.min - padding, max: self.max + padding }
    }

    /// The interval displaced by an offset.
    pub fn add(self, rhs: i64) -> (r: Self)
        requires
            i64::MIN <= self.min + rhs <= i64::MAX,
            i64::MIN <= self.max + rhs <= i64::MAX,
        ensures
            r.min == self.min + rhs,
            r.max == self.max + rhs,
    {
        Self { min: self.min + rhs, max: self.max + rhs }
    }
}


/// The ceiling half: the floor half plus the remainder for a nonnegative
/// `delta`, the negated floor half of the magnitude otherwise.
proof fn lemma_ceil_half(delta: int)
    ensures
        delta >= 0 ==> cdiv(delta, 2) == fdiv(delta, 2) + delta % 2,
        delta < 0 ==> cdiv(delta, 2) == -fdiv(-delta, 2),
{
    crate::fx::lemma_fdiv_bounds(-delta, 2);
    crate::fx::lemma_fdiv_bounds(delta, 2);
    vstd::arithmetic::div_mod::lemma_fundamental_div_mod(delta, 2);
    assert(delta >= 0 ==> -fdiv(-delta, 2) == fdiv(delta, 2) + delta % 2) by (nonlinear_arith)
        requires
            fdiv(-delta, 2) * 2 <= -delta < (fdiv(-delta, 2) + 1) * 2,
            fdiv(delta, 2) * 2 <= delta < (fdiv(delta, 2) + 1) * 2,
            delta == 2 * (delta / 2) + delta % 2,
            0 <= delta % 2 < 2,
            fdiv(delta, 2) == delta / 2,
    ;
}

} // verus!
