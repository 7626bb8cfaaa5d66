//! Lattice-gradient noise: a table of random unit vectors hashed by three
//! shuffled index tables, interpolated with Hermite smoothing.

use vstd::prelude::*;
use crate::fx::{
    fdiv, fxmul, fx_mul, floor_div_i128, lemma_fdiv_bounds, lemma_fxmul_range, SCALE,
};
use crate::rng::random_int;
use crate::vec3::{Point3, Vec3, V3};

verus! {

/// The number of gradient vectors and permutation entries.
pub const POINT_COUNT: usize = 256;

pub struct Perlin {
    pub ranvec: Vec<Vec3>,
    pub perm_x: Vec<u8>,
    pub perm_y: Vec<u8>,
    pub perm_z: Vec<u8>,
}

impl Default for Perlin {
    /// Fresh random tables.
    fn default() -> (r: Self)
        ensures
            r.wf(),
    {
        Self::new()
    }
}

impl Perlin {
    /// The tables have their fixed sizes and the gradients are of
    /// (approximately) unit length.
    pub open spec fn wf(self) -> bool {
        &&& self.ranvec@.len() == 256
        &&& self.perm_x@.len() == 256
        &&& self.perm_y@.len() == 256
        &&& self.perm_z@.len() == 256
        &&& forall|i: int| 0 <= i < 256 ==> (#[trigger] self.ranvec@[i])@.near_unit()
    }

    /// Fresh noise tables: random unit gradients and three independently
    /// shuffled index tables, each a permutation of the byte values.
    pub fn new() -> (r: Self)
        ensures
            r.wf(),
            r.perm_x@.to_multiset() == spec_identity_bytes().to_multiset(),
            r.perm_y@.to_multiset() == spec_identity_bytes().to_multiset(),
            r.perm_z@.to_multiset() == spec_identity_bytes().to_multiset(),
    {
        let mut ranvec: Vec<Vec3> = Vec::new();
        let mut i: usize = 0;
        while i < POINT_COUNT
            invariant
                i == ranvec@.len(),
                i <= 256,
                forall|k: int| 0 <= k < i ==> (#[trigger] ranvec@[k])@.near_unit(),
            decreases 256 - i,
        {
            ranvec.push(Vec3::random_unit_vector());
            i = i + 1;
        }
        let perm_x = Self::perlin_generate_perm();
        let perm_y = Self::perlin_generate_perm();
        let perm_z = Self::perlin_generate_perm();
        Self { ranvec, perm_x, perm_y, perm_z }
    }

    /// One shuffled index table: a permutation of the byte values.
    fn perlin_generate_perm() -> (r: Vec<u8>)
        ensures
            r@.len() == 256,
            r@.to_multiset() == spec_identity_bytes().to_multiset(),
    {
        let mut p: Vec<u8> = Vec::new();
        let mut i: usize = 0;
        while i < POINT_COUNT
            invariant
                i == p@.len(),
                i <= 256,
                p@ =~= spec_identity_bytes().take(i as int),
            decreases 256 - i,
        {
            let ghost before = p@;
            p.push(i as u8);
            proof {
                assert(p@ =~= spec_identity_bytes().take(i + 1));
            }
            i = i + 1;
        }
        proof {
            assert(p@ =~= spec_identity_bytes());
        }
        Self::permute(&mut p);
        p
    }

    /// A backward Fisher-Yates shuffle driven by the shared random source;
    /// the table keeps exactly its values.
    fn permute(p: &mut Vec<u8>)
        requires
            old(p)@.len() == 256,
        ensures
            final(p)@.len() == 256,
            final(p)@.to_multiset() == old(p)@.to_multiset(),
    {
        broadcast use vstd::seq_lib::to_multiset_update;
        broadcast use vstd::multiset::group_multiset_axioms;

        let mut i: usize = 255;
        while i >= 1
            invariant
                p@.len() == 256,
                i <= 255,
                p@.to_multiset() == old(p)@.to_multiset(),
            decreases i,
        {
            let target = random_int(0, i as i32) as usize;
            let ghost before = p@;
            let a = p[i];
            let b = p[target];
            p[i] = b;
            let ghost mid = p@;
            p[target] = a;
            proof {
                before.to_multiset_ensures();
                mid.to_multiset_ensures();
                assert(mid == before.update(i as int, b));
                assert(mid[target as int] == b);
                assert(p@ == mid.update(target as int, a));
                assert(before.contains(a)) by {
                    assert(before[i as int] == a);
                }
                assert(before.to_multiset().count(a) > 0);
                assert(mid.contains(b)) by {
                    assert(mid[target as int] == b);
                }
                assert(mid.to_multiset().count(b) > 0);
                vstd::seq_lib::to_multiset_update::<u8>(before, i as int, b);
                vstd::seq_lib::to_multiset_update::<u8>(mid, target as int, a);
                assert(mid.to_multiset() == before.to_multiset().insert(b).remove(a));
                assert(p@.to_multiset() == mid.to_multiset().insert(a).remove(b));
                assert(p@.to_multiset() =~= before.to_multiset());
            }
            i = i - 1;
        }
    }

    /// Gradient noise at a point: trilinear Hermite interpolation of the
    /// eight corner gradients dotted with the offsets.
    pub fn noise(&self, p: Point3) -> (r: i64)
        requires
            self.wf(),
            p@.bounded(1_000_000_000_000_000),
        ensures
            r == spec_noise(*self, p@),
            -25_000_000 <= r <= 25_000_000,
    {
        let (i, u) = lattice(p.x());
        let (j, v) = lattice(p.y());
        let (k, w) = lattice(p.z());
        let c000 = self.corner_vec(i, j, k, 0, 0, 0);
        let c001 = self.corner_vec(i, j, k, 0, 0, 1);
        let c010 = self.corner_vec(i, j, k, 0, 1, 0);
        let c011 = self.corner_vec(i, j, k, 0, 1, 1);
        let c100 = self.corner_vec(i, j, k, 1, 0, 0);
        let c101 = self.corner_vec(i, j, k, 1, 0, 1);
        let c110 = self.corner_vec(i, j, k, 1, 1, 0);
        let c111 = self.corner_vec(i, j, k, 1, 1, 1);
        let t000 = corner_term(c000, u, v, w, 0, 0, 0);
        let t001 = corner_term(c001, u, v, w, 0, 0, 1);
        let t010 = corner_term(c010, u, v, w, 0, 1, 0);
        let t011 = corner_term(c011, u, v, w, 0, 1, 1);
        let t100 = corner_term(c100, u, v, w, 1, 0, 0);
        let t101 = corner_term(c101, u, v, w, 1, 0, 1);
        let t110 = corner_term(c110, u, v, w, 1, 1, 0);
        let t111 = corner_term(c111, u, v, w, 1, 1, 1);
        t000 + t001 + t010 + t011 + t100 + t101 + t110 + t111
    }

    /// The gradient at one lattice corner, via the permutation hash.
    fn corner_vec(&self, i: i64, j: i64, k: i64, di: i64, dj: i64, dk: i64) -> (r: Vec3)
        requires
            self.wf(),
            -2_000_000_000_000 <= i <= 2_000_000_000_000,
            -2_000_000_000_000 <= j <= 2_000_000_000_000,
            -2_000_000_000_000 <= k <= 2_000_000_000_000,
            0 <= di <= 1,
            0 <= dj <= 1,
            0 <= dk <= 1,
        ensures
            r == spec_corner_vec(*self, i as int, j as int, k as int, di as int, dj as int, dk as int),
            r@.bounded(SCALE as int),
    {
        let xi = (i + di).checked_rem_euclid(256).unwrap() as usize;
        let yi = (j + dj).checked_rem_euclid(256).unwrap() as usize;
        let zi = (k + dk).checked_rem_euclid(256).unwrap() as usize;
        let idx = (self.perm_x[xi] ^ self.perm_y[yi] ^ self.perm_z[zi]) as usize;
        self.ranvec[idx]
    }

    /// Fractal turbulence: octaves of noise at doubling frequency and
    /// halving amplitude, folded to a magnitude.
    pub fn turb(&self, p: Point3, depth: u32) -> (r: i64)
        requires
            self.wf(),
            p@.bounded(7_000_000_000_000),
            depth <= 7,
        ensures
            r == spec_turb(*self, p@, SCALE as int, depth as nat),
            0 <= r <= 200_000_000,
    {
        if depth == 0 {
            return 0;
        }
        let mut accum: i64 = 0;
        let mut temp_p = p;
        let mut weight: i64 = SCALE;
        let mut octave: u32 = 0;
        proof {
            lemma_weight_values();
        }
        while octave < depth
            invariant
                self.wf(),
                octave <= depth <= 7,
                weight == spec_weight_at(octave as nat),
                0 < weight <= SCALE,
                temp_p@.bounded(7_000_000_000_000 * pow2_int(octave as nat)),
                pow2_int(octave as nat) <= 128,
                -26_000_000 * octave <= accum <= 26_000_000 * octave,
                spec_turb_acc(*self, p@, SCALE as int, depth as nat) == accum + spec_turb_acc(
                    *self,
                    temp_p@,
                    weight as int,
                    (depth - octave) as nat,
                ),
            decreases depth - octave,
        {
            proof {
                lemma_pow2_step(octave as nat);
                lemma_weight_values();
                assert(temp_p@.bounded(7_000_000_000_000 * pow2_int(octave as nat)) ==> (2 * temp_p@.x
                    <= 7_000_000_000_000 * pow2_int((octave + 1) as nat) && 2 * temp_p@.x
                    >= -7_000_000_000_000 * pow2_int((octave + 1) as nat) && 2 * temp_p@.y
                    <= 7_000_000_000_000 * pow2_int((octave + 1) as nat) && 2 * temp_p@.y
                    >= -7_000_000_000_000 * pow2_int((octave + 1) as nat) && 2 * temp_p@.z
                    <= 7_000_000_000_000 * pow2_int((octave + 1) as nat) && 2 * temp_p@.z
                    >= -7_000_000_000_000 * pow2_int((octave + 1) as nat))) by (nonlinear_arith)
                    requires
                        pow2_int((octave + 1) as nat) == 2 * pow2_int(octave as nat),
                        pow2_int(octave as nat) >= 1,
                ;
            }
            let n = self.noise(temp_p);
            proof {
                assert(-25_000_000_000_000 <= (weight as int) * (n as int) <= 25_000_000_000_000)
                    by (nonlinear_arith)
                    requires
                        0 < weight as int <= 1_000_000,
                        -25_000_000 <= n as int <= 25_000_000,
                ;
                lemma_fxmul_range(weight as int, n as int, -25_000_000_000_000, 25_000_000_000_000);
                lemma_fdiv_bounds(25_000_000_000_000, SCALE as int);
                lemma_fdiv_bounds(-25_000_000_000_000, SCALE as int);
                lemma_fdiv_bounds(weight as int, 2);
            }
            accum = accum + fx_mul(weight, n);
            weight = weight.checked_div_euclid(2).unwrap();
            temp_p = Vec3::new(temp_p.x() * 2, temp_p.y() * 2, temp_p.z() * 2);
            octave = octave + 1;
        }
        if accum >= 0 {
            accum
        } else {
            -accum
        }
    }
}

/// The byte values in order: what every index table is a permutation of.
pub open spec fn spec_identity_bytes() -> Seq<u8> {
    Seq::new(256, |i: int| i as u8)
}

/// The lattice cell and fractional offset of one coordinate.
fn lattice(x: i64) -> (r: (i64, i64))
    requires
        -1_000_000_000_000_000 <= x <= 1_000_000_000_000_000,
    ensures
        r.0 == fdiv(x as int, SCALE as int),
        r.1 == x - fdiv(x as int, SCALE as int) * SCALE,
        0 <= r.1 < SCALE,
        -2_000_000_000_000 <= r.0 <= 2_000_000_000_000,
{
    proof {
        lemma_fdiv_bounds(x as int, SCALE as int);
    }
    let i128v = floor_div_i128(x as i128, SCALE as i128);
    let i = i128v as i64;
    let u = x - i * SCALE;
    (i, u)
}

/// One corner's contribution to the trilinear interpolation.
fn corner_term(c: Vec3, u: i64, v: i64, w: i64, di: i64, dj: i64, dk: i64) -> (r: i64)
    requires
        c@.bounded(SCALE as int),
        0 <= u < SCALE,
        0 <= v < SCALE,
        0 <= w < SCALE,
        0 <= di <= 1,
        0 <= dj <= 1,
        0 <= dk <= 1,
    ensures
        r == spec_corner_term(c@, u as int, v as int, w as int, di as int, dj as int, dk as int),
        -3_000_002 <= r <= 3_000_002,
{
    let uu = hermite(u);
    let vv = hermite(v);
    let ww = hermite(w);
    let fi = if di == 1 {
        uu
    } else {
        SCALE - uu
    };
    let fj = if dj == 1 {
        vv
    } else {
        SCALE - vv
    };
    let fk = if dk == 1 {
        ww
    } else {
        SCALE - ww
    };
    let weight_v = Vec3::new(u - di * SCALE, v - dj * SCALE, w - dk * SCALE);
    proof {
        crate::vec3::lemma_dot_bounded(c@, weight_v@, 1_000_000, 3_000_000_000_000);
        assert(0 <= (fi as int) * (fj as int) <= 1_000_000_000_000) by (nonlinear_arith)
            requires
                0 <= fi as int <= 1_000_000,
                0 <= fj as int <= 1_000_000,
        ;
        lemma_fxmul_range(fi as int, fj as int, 0, 1_000_000_000_000);
        lemma_fdiv_bounds(1_000_000_000_000, SCALE as int);
        crate::fx::lemma_fdiv_ge(0, SCALE as int, 0);
    }
    let fij = fx_mul(fi, fj);
    proof {
        assert(0 <= (fij as int) * (fk as int) <= 1_000_000_000_000) by (nonlinear_arith)
            requires
                0 <= fij as int <= 1_000_000,
                0 <= fk as int <= 1_000_000,
        ;
        lemma_fxmul_range(fij as int, fk as int, 0, 1_000_000_000_000);
        lemma_fdiv_bounds(1_000_000_000_000, SCALE as int);
        crate::fx::lemma_fdiv_ge(0, SCALE as int, 0);
    }
    let fijk = fx_mul(fij, fk);
    let d = c.dot(weight_v);
    proof {
        assert(-3_000_001_000_000 <= (fijk as int) * (d as int) <= 3_000_001_000_000)
            by (nonlinear_arith)
            requires
                0 <= fijk as int <= 1_000_000,
                -3_000_001 <= d as int <= 3_000_000,
        ;
        lemma_fxmul_range(fijk as int, d as int, -3_000_001_000_000, 3_000_001_000_000);
        lemma_fdiv_bounds(3_000_001_000_000, SCALE as int);
        lemma_fdiv_bounds(-3_000_001_000_000, SCALE as int);
    }
    fx_mul(fijk, d)
}

/// The Hermite smoothing `x * x * (3 - 2 x)`; on `[0, 1)` it stays within
/// `[0, 1]`, by the identity `1 - x^2 (3 - 2x) == (1 - x)^2 (1 + 2x)`.
fn hermite(x: i64) -> (r: i64)
    requires
        0 <= x < SCALE,
    ensures
        r == spec_hermite(x as int),
        0 <= r <= SCALE,
{
    proof {
        assert(0 <= (x as int) * (x as int) <= 1_000_000_000_000) by (nonlinear_arith)
            requires
                0 <= x as int <= 1_000_000,
        ;
        lemma_fxmul_range(x as int, x as int, 0, 1_000_000_000_000);
        lemma_fdiv_bounds(1_000_000_000_000, SCALE as int);
        crate::fx::lemma_fdiv_ge(0, SCALE as int, 0);
    }
    let x2 = fx_mul(x, x);
    proof {
        lemma_fdiv_bounds((x as int) * (x as int), SCALE as int);
        lemma_hermite_cubic(x as int, x2 as int);
        lemma_fxmul_range(
            x2 as int,
            3 * SCALE as int - 2 * x as int,
            0,
            1_000_000_000_000_000_000,
        );
        crate::fx::lemma_fdiv_multiple(SCALE as int, SCALE as int);
        crate::fx::lemma_fdiv_mono(
            (x2 as int) * (3 * SCALE as int - 2 * x as int),
            SCALE as int * SCALE as int,
            SCALE as int,
        );
        crate::fx::lemma_fdiv_ge(0, SCALE as int, 0);
    }
    fx_mul(x2, 3 * SCALE - 2 * x)
}

/// The cubic bound behind the Hermite range: for `0 <= x < 1` with `x2`
/// the floored square, `x2 (3 - 2x) <= 1`.
proof fn lemma_hermite_cubic(x: int, x2: int)
    requires
        0 <= x < 1_000_000,
        0 <= x2,
        x2 * 1_000_000 <= x * x,
    ensures
        0 <= x2 * (3 * 1_000_000 - 2 * x) <= 1_000_000_000_000_000_000,
        x2 * (3 * 1_000_000 - 2 * x) <= 1_000_000 * 1_000_000,
{
    let sc = 1_000_000int;
    assert((sc - x) * (sc - x) * (sc + 2 * x) >= 0) by (nonlinear_arith)
        requires
            0 <= x < sc,
            sc == 1_000_000int,
    ;
    assert(x * x * (3 * sc - 2 * x) <= sc * sc * sc) by (nonlinear_arith)
        requires
            (sc - x) * (sc - x) * (sc + 2 * x) >= 0,
            sc == 1_000_000int,
    ;
    assert(0 <= x2 * (3 * sc - 2 * x) && x2 * (3 * sc - 2 * x) * sc <= x * x * (3 * sc - 2 * x))
        by (nonlinear_arith)
        requires
            0 <= x < sc,
            0 <= x2,
            x2 * sc <= x * x,
            sc == 1_000_000int,
    ;
    assert(x2 * (3 * sc - 2 * x) <= sc * sc) by (nonlinear_arith)
        requires
            x2 * (3 * sc - 2 * x) * sc <= x * x * (3 * sc - 2 * x),
            x * x * (3 * sc - 2 * x) <= sc * sc * sc,
            sc == 1_000_000int,
    ;
    assert(x2 * (3 * sc - 2 * x) <= 1_000_000_000_000_000_000) by (nonlinear_arith)
        requires
            x2 * (3 * sc - 2 * x) <= sc * sc,
            sc == 1_000_000int,
    ;
}

/// The Hermite smoothing, as a value.
pub open spec fn spec_hermite(x: int) -> int {
    fxmul(fxmul(x, x), 3 * SCALE - 2 * x)
}

/// The gradient at one lattice corner.
pub open spec fn spec_corner_vec(pl: Perlin, i: int, j: int, k: int, di: int, dj: int, dk: int) -> Vec3 {
    let xi = (i + di) % 256;
    let yi = (j + dj) % 256;
    let zi = (k + dk) % 256;
    pl.ranvec@[(pl.perm_x@[xi] ^ pl.perm_y@[yi] ^ pl.perm_z@[zi]) as int]
}

/// One corner's contribution to the trilinear interpolation.
pub open spec fn spec_corner_term(c: V3, u: int, v: int, w: int, di: int, dj: int, dk: int) -> int {
    let uu = spec_hermite(u);
    let vv = spec_hermite(v);
    let ww = spec_hermite(w);
    let fi = if di == 1 {
        uu
    } else {
        SCALE - uu
    };
    let fj = if dj == 1 {
        vv
    } else {
        SCALE - vv
    };
    let fk = if dk == 1 {
        ww
    } else {
        SCALE - ww
    };
    let wv = V3 { x: u - di * SCALE, y: v - dj * SCALE, z: w - dk * SCALE };
    fxmul(fxmul(fxmul(fi, fj), fk), c.dot(wv))
}

/// Gradient noise at a point.
pub open spec fn spec_noise(pl: Perlin, p: V3) -> int {
    let i = fdiv(p.x, SCALE as int);
    let j = fdiv(p.y, SCALE as int);
    let k = fdiv(p.z, SCALE as int);
    let u = p.x - i * SCALE;
    let v = p.y - j * SCALE;
    let w = p.z - k * SCALE;
    spec_corner_term(spec_corner_vec(pl, i, j, k, 0, 0, 0)@, u, v, w, 0, 0, 0) + spec_corner_term(
        spec_corner_vec(pl, i, j, k, 0, 0, 1)@,
        u,
        v,
        w,
        0,
        0,
        1,
    ) + spec_corner_term(spec_corner_vec(pl, i, j, k, 0, 1, 0)@, u, v, w, 0, 1, 0)
        + spec_corner_term(spec_corner_vec(pl, i, j, k, 0, 1, 1)@, u, v, w, 0, 1, 1)
        + spec_corner_term(spec_corner_vec(pl, i, j, k, 1, 0, 0)@, u, v, w, 1, 0, 0)
        + spec_corner_term(spec_corner_vec(pl, i, j, k, 1, 0, 1)@, u, v, w, 1, 0, 1)
        + spec_corner_term(spec_corner_vec(pl, i, j, k, 1, 1, 0)@, u, v, w, 1, 1, 0)
        + spec_corner_term(spec_corner_vec(pl, i, j, k, 1, 1, 1)@, u, v, w, 1, 1, 1)
}

/// The running turbulence sum from a given octave state.
pub open spec fn spec_turb_acc(pl: Perlin, p: V3, weight: int, depth: nat) -> int
    decreases depth,
{
    if depth == 0 {
        0
    } else {
        fxmul(weight, spec_noise(pl, p)) + spec_turb_acc(
            pl,
            V3 { x: 2 * p.x, y: 2 * p.y, z: 2 * p.z },
            fdiv(weight, 2),
            (depth - 1) as nat,
        )
    }
}

/// Fractal turbulence: the magnitude of the octave sum.
pub open spec fn spec_turb(pl: Perlin, p: V3, weight: int, depth: nat) -> int {
    let acc = spec_turb_acc(pl, p, weight, depth);
    if acc >= 0 {
        acc
    } else {
        -acc
    }
}

/// The amplitude of each octave: one, halved (with flooring) each step.
pub open spec fn spec_weight_at(k: nat) -> int
    decreases k,
{
    if k == 0 {
        SCALE as int
    } else {
        fdiv(spec_weight_at((k - 1) as nat), 2)
    }
}

/// The amplitudes the octave loop can reach, computed out.
proof fn lemma_weight_values()
    ensures
        spec_weight_at(0) == 1_000_000,
        spec_weight_at(1) == 500_000,
        spec_weight_at(2) == 250_000,
        spec_weight_at(3) == 125_000,
        spec_weight_at(4) == 62_500,
        spec_weight_at(5) == 31_250,
        spec_weight_at(6) == 15_625,
        spec_weight_at(7) == 7_812,
{
    assert(spec_weight_at(0) == 1_000_000);
    assert(spec_weight_at(1) == 500_000);
    assert(spec_weight_at(2) == 250_000);
    assert(spec_weight_at(3) == 125_000);
    assert(spec_weight_at(4) == 62_500);
    assert(spec_weight_at(5) == 31_250);
    assert(spec_weight_at(6) == 15_625);
    assert(spec_weight_at(7) == 7_812);
}

/// Powers of two, for the octave scaling bound.
pub open spec fn pow2_int(n: nat) -> int
    decreases n,
{
    if n == 0 {
        1
    } else {
        2 * pow2_int((n - 1) as nat)
    }
}

/// One doubling step of the octave bound.
proof fn lemma_pow2_step(n: nat)
    requires
        n < 7,
    ensures
        pow2_int(n + 1) == 2 * pow2_int(n),
        pow2_int(n) >= 1,
        pow2_int(n + 1) <= 128,
{
    lemma_pow2_values();
}

/// The handful of powers of two the octave loop can reach.
proof fn lemma_pow2_values()
    ensures
        pow2_int(0) == 1,
        pow2_int(1) == 2,
        pow2_int(2) == 4,
        pow2_int(3) == 8,
        pow2_int(4) == 16,
        pow2_int(5) == 32,
        pow2_int(6) == 64,
        pow2_int(7) == 128,
{
    assert(pow2_int(0) == 1);
    assert(pow2_int(1) == 2);
    assert(pow2_int(2) == 4);
    assert(pow2_int(3) == 8);
    assert(pow2_int(4) == 16);
    assert(pow2_int(5) == 32);
    assert(pow2_int(6) == 64);
    assert(pow2_int(7) == 128);
}

} // verus!
