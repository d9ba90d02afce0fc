//! Directions on the circle from binary angles, in integer arithmetic.
//!
//! An angle is a `u16` that counts steps of a full turn divided into 65536.
//! Its direction is found by rotating the vector `(UNIT, 0)` once for each
//! set bit of the angle, through the angle which that bit stands for. Each
//! rotation rounds, so the result is not exactly of length `UNIT`; how far it
//! can be off is proved here.

use vstd::prelude::*;
use vstd::arithmetic::div_mod::*;
use vstd::arithmetic::power2::{lemma2_to64, lemma_pow2_pos, lemma_pow2_unfold, pow2};
use crate::fixed::{div_floor, lemma_product_bound};

verus! {

/// The length of a direction vector: components are in thousand-millionths.
pub const UNIT: i64 = 1_000_000_000;

/// The number of bits of an angle, and so of rotations that make a direction.
pub const ANGLE_BITS: u32 = 16;

/// How far the squared length of a direction may be from `UNIT * UNIT`.
pub const UNIT_SLACK: i64 = 80_000_000_000;

/// The cosine of the angle that bit `k` of an angle stands for, `2^k / 65536`
/// of a turn, in units of `1 / UNIT`.
pub open spec fn turn_cos(k: int) -> int {
    if k == 0 {
        999_999_995
    } else if k == 1 {
        999_999_982
    } else if k == 2 {
        999_999_926
    } else if k == 3 {
        999_999_706
    } else if k == 4 {
        999_998_823
    } else if k == 5 {
        999_995_294
    } else if k == 6 {
        999_981_175
    } else if k == 7 {
        999_924_702
    } else if k == 8 {
        999_698_819
    } else if k == 9 {
        998_795_456
    } else if k == 10 {
        995_184_727
    } else if k == 11 {
        980_785_280
    } else if k == 12 {
        923_879_533
    } else if k == 13 {
        707_106_781
    } else if k == 14 {
        0
    } else {
        -1_000_000_000
    }
}

/// The sine of the angle that bit `k` of an angle stands for.
pub open spec fn turn_sin(k: int) -> int {
    if k == 0 {
        95_874
    } else if k == 1 {
        191_748
    } else if k == 2 {
        383_495
    } else if k == 3 {
        766_990
    } else if k == 4 {
        1_533_980
    } else if k == 5 {
        3_067_957
    } else if k == 6 {
        6_135_885
    } else if k == 7 {
        12_271_538
    } else if k == 8 {
        24_541_229
    } else if k == 9 {
        49_067_674
    } else if k == 10 {
        98_017_140
    } else if k == 11 {
        195_090_322
    } else if k == 12 {
        382_683_432
    } else if k == 13 {
        707_106_781
    } else if k == 14 {
        1_000_000_000
    } else {
        0
    }
}

/// Each entry of the table is, to within rounding, a point of the circle of
/// radius `UNIT`.
pub proof fn lemma_turn_on_circle(k: int)
    requires
        0 <= k < ANGLE_BITS,
    ensures
        -UNIT <= turn_cos(k) <= UNIT,
        -UNIT <= turn_sin(k) <= UNIT,
        -UNIT <= turn_cos(k) * turn_cos(k) + turn_sin(k) * turn_sin(k) - UNIT * UNIT <= UNIT,
{
    let c = turn_cos(k);
    let s = turn_sin(k);
    let u = UNIT as int;
    if k == 0 {
        assert(c * c + s * s - u * u == -808_176_099) by (nonlinear_arith)
            requires c == 999_999_995, s == 95_874, u == 1_000_000_000;
    } else if k == 1 {
        assert(c * c + s * s - u * u == 767_295_828) by (nonlinear_arith)
            requires c == 999_999_982, s == 191_748, u == 1_000_000_000;
    } else if k == 2 {
        assert(c * c + s * s - u * u == -931_579_499) by (nonlinear_arith)
            requires c == 999_999_926, s == 383_495, u == 1_000_000_000;
    } else if k == 3 {
        assert(c * c + s * s - u * u == 273_746_536) by (nonlinear_arith)
            requires c == 999_999_706, s == 766_990, u == 1_000_000_000;
    } else if k == 4 {
        assert(c * c + s * s - u * u == -903_974_271) by (nonlinear_arith)
            requires c == 999_998_823, s == 1_533_980, u == 1_000_000_000;
    } else if k == 5 {
        assert(c * c + s * s - u * u == 382_300_285) by (nonlinear_arith)
            requires c == 999_995_294, s == 3_067_957, u == 1_000_000_000;
    } else if k == 6 {
        assert(c * c + s * s - u * u == -560_886_150) by (nonlinear_arith)
            requires c == 999_981_175, s == 6_135_885, u == 1_000_000_000;
    } else if k == 7 {
        assert(c * c + s * s - u * u == 314_674_248) by (nonlinear_arith)
            requires c == 999_924_702, s == 12_271_538, u == 1_000_000_000;
    } else if k == 8 {
        assert(c * c + s * s - u * u == 630_825_202) by (nonlinear_arith)
            requires c == 999_698_819, s == 24_541_229, u == 1_000_000_000;
    } else if k == 9 {
        assert(c * c + s * s - u * u == -441_981_788) by (nonlinear_arith)
            requires c == 998_795_456, s == 49_067_674, u == 1_000_000_000;
    } else if k == 10 {
        assert(c * c + s * s - u * u == 587_844_129) by (nonlinear_arith)
            requires c == 995_184_727, s == 98_017_140, u == 1_000_000_000;
    } else if k == 11 {
        assert(c * c + s * s - u * u == -797_257_916) by (nonlinear_arith)
            requires c == 980_785_280, s == 195_090_322, u == 1_000_000_000;
    } else if k == 12 {
        assert(c * c + s * s - u * u == 623_596_713) by (nonlinear_arith)
            requires c == 923_879_533, s == 382_683_432, u == 1_000_000_000;
    } else if k == 13 {
        assert(c * c + s * s - u * u == -527_636_078) by (nonlinear_arith)
            requires c == 707_106_781, s == 707_106_781, u == 1_000_000_000;
    } else if k == 14 {
        assert(c * c + s * s - u * u == 0) by (nonlinear_arith)
            requires c == 0, s == 1_000_000_000, u == 1_000_000_000;
    } else {
        assert(c * c + s * s - u * u == 0) by (nonlinear_arith)
            requires c == -1_000_000_000, s == 0, u == 1_000_000_000;
    }
}

/// The table entry for bit `k`: cosine first, sine second.
pub fn turn(k: u32) -> (r: (i64, i64))
    requires
        k < ANGLE_BITS,
    ensures
        r.0 == turn_cos(k as int),
        r.1 == turn_sin(k as int),
{
    if k == 0 {
        (999_999_995, 95_874)
    } else if k == 1 {
        (999_999_982, 191_748)
    } else if k == 2 {
        (999_999_926, 383_495)
    } else if k == 3 {
        (999_999_706, 766_990)
    } else if k == 4 {
        (999_998_823, 1_533_980)
    } else if k == 5 {
        (999_995_294, 3_067_957)
    } else if k == 6 {
        (999_981_175, 6_135_885)
    } else if k == 7 {
        (999_924_702, 12_271_538)
    } else if k == 8 {
        (999_698_819, 24_541_229)
    } else if k == 9 {
        (998_795_456, 49_067_674)
    } else if k == 10 {
        (995_184_727, 98_017_140)
    } else if k == 11 {
        (980_785_280, 195_090_322)
    } else if k == 12 {
        (923_879_533, 382_683_432)
    } else if k == 13 {
        (707_106_781, 707_106_781)
    } else if k == 14 {
        (0, 1_000_000_000)
    } else {
        (-1_000_000_000, 0)
    }
}

/// Division by a positive even number, rounded to the nearest integer (a half
/// goes up).
pub open spec fn round_div(a: int, d: int) -> int {
    (2 * a + d) / (2 * d)
}

/// A rounded quotient times the divisor is within half the divisor of the dividend.
pub proof fn lemma_round_div(a: int, d: int)
    requires
        d > 0,
    ensures
        -d <= 2 * (d * round_div(a, d) - a) <= d,
{
    let q = round_div(a, d);
    lemma_fundamental_div_mod(2 * a + d, 2 * d);
    assert(2 * d * q == 2 * (d * q)) by (nonlinear_arith);
}

/// Rounded division of `a` by a positive `d`.
pub fn round_div_exec(a: i128, d: i128) -> (q: i128)
    requires
        0 < d <= 0x1000_0000_0000_0000,
        -0x1000_0000_0000_0000_0000_0000_0000_0000 <= a <= 0x1000_0000_0000_0000_0000_0000_0000_0000,
    ensures
        q == round_div(a as int, d as int),
{
    div_floor(2 * a + d, 2 * d)
}

/// The squared length of a vector.
pub open spec fn norm_sq(v: (int, int)) -> int {
    v.0 * v.0 + v.1 * v.1
}

/// The vector `v` turned through the angle whose cosine and sine are `c / UNIT`
/// and `s / UNIT`, each component rounded to the nearest integer.
pub open spec fn rotate(v: (int, int), c: int, s: int) -> (int, int) {
    (round_div(c * v.0 - s * v.1, UNIT as int), round_div(s * v.0 + c * v.1, UNIT as int))
}

/// An integer whose square is at most `UNIT * UNIT + UNIT_SLACK` is at most
/// `UNIT + 40` in magnitude.
pub proof fn lemma_component_bound(x: int, y: int)
    requires
        norm_sq((x, y)) <= UNIT * UNIT + UNIT_SLACK,
    ensures
        -(UNIT + 40) <= x <= UNIT + 40,
        -(UNIT + 40) <= y <= UNIT + 40,
{
    let u = UNIT as int;
    assert(x * x >= 0 && y * y >= 0) by (nonlinear_arith);
    assert(-(u + 40) <= x <= u + 40) by (nonlinear_arith)
        requires x * x <= u * u + 80 * u, u == 1_000_000_000;
    assert(-(u + 40) <= y <= u + 40) by (nonlinear_arith)
        requires y * y <= u * u + 80 * u, u == 1_000_000_000;
}

/// Brahmagupta's identity: a rotation matrix multiplies squared lengths.
proof fn lemma_rotation_identity(c: int, s: int, x: int, y: int)
    ensures
        (c * x - s * y) * (c * x - s * y) + (s * x + c * y) * (s * x + c * y) == (c * c + s * s) * (
        x * x + y * y),
{
    let cx = c * x;
    let sy = s * y;
    let sx = s * x;
    let cy = c * y;
    assert((cx - sy) * (cx - sy) == cx * cx - 2 * (cx * sy) + sy * sy) by (nonlinear_arith);
    assert((sx + cy) * (sx + cy) == sx * sx + 2 * (sx * cy) + cy * cy) by (nonlinear_arith);
    assert(cx * sy == sx * cy) by (nonlinear_arith)
        requires cx == c * x, sy == s * y, sx == s * x, cy == c * y;
    assert(cx * cx == (c * c) * (x * x)) by (nonlinear_arith)
        requires cx == c * x;
    assert(sy * sy == (s * s) * (y * y)) by (nonlinear_arith)
        requires sy == s * y;
    assert(sx * sx == (s * s) * (x * x)) by (nonlinear_arith)
        requires sx == s * x;
    assert(cy * cy == (c * c) * (y * y)) by (nonlinear_arith)
        requires cy == c * y;
    let cc = c * c;
    let ss = s * s;
    let xx = x * x;
    let yy = y * y;
    assert((cc + ss) * (xx + yy) == cc * xx + ss * yy + ss * xx + cc * yy) by (nonlinear_arith);
}

/// What one rounding costs: where `UNIT * p` is within half a `UNIT` of `t`,
/// the square of `UNIT * p` is within `bound * UNIT + UNIT * UNIT / 4` of the
/// square of `t`, for any bound on the magnitude of `t`.
pub proof fn lemma_rounded_square(t: int, p: int, bound: int)
    requires
        -bound <= t <= bound,
        -UNIT <= 2 * (UNIT * p - t) <= UNIT,
    ensures
        -(bound * UNIT) <= UNIT * UNIT * (p * p) - t * t <= bound * UNIT + UNIT * UNIT / 4 + 1,
{
    let u = UNIT as int;
    let e2 = 2 * (u * p - t);
    lemma_product_bound(t, e2, bound, u);
    lemma_product_bound(e2, e2, u, u);
    assert(e2 * e2 >= 0) by (nonlinear_arith);
    assert(4 * (u * u * (p * p) - t * t) == 4 * (t * e2) + e2 * e2) by (nonlinear_arith)
        requires e2 == 2 * (u * p - t);
}

/// A rotation changes the squared length of a vector that is nearly of length
/// `UNIT` by at most `5 * UNIT`, given that the cosine and sine are nearly on
/// the circle of radius `UNIT`.
pub proof fn lemma_rotate_norm(v: (int, int), c: int, s: int)
    requires
        -UNIT <= c * c + s * s - UNIT * UNIT <= UNIT,
        -UNIT_SLACK <= norm_sq(v) - UNIT * UNIT <= UNIT_SLACK,
    ensures
        -5 * UNIT <= norm_sq(rotate(v, c, s)) - norm_sq(v) <= 5 * UNIT,
{
    let u = UNIT as int;
    let x = v.0;
    let y = v.1;
    let n = norm_sq(v);
    let cs = c * c + s * s;
    let t0 = c * x - s * y;
    let t1 = s * x + c * y;
    let r0 = round_div(t0, u);
    let r1 = round_div(t1, u);
    let m = u * u + 81 * u;
    lemma_rotation_identity(c, s, x, y);
    assert(cs * n <= m * m) by (nonlinear_arith)
        requires 0 <= cs <= m, 0 <= n <= m;
    assert(t0 * t0 >= 0 && t1 * t1 >= 0) by (nonlinear_arith);
    assert(-m <= t0 <= m) by (nonlinear_arith)
        requires t0 * t0 <= m * m, m >= 0;
    assert(-m <= t1 <= m) by (nonlinear_arith)
        requires t1 * t1 <= m * m, m >= 0;
    lemma_round_div(t0, u);
    lemma_round_div(t1, u);
    lemma_rounded_square(t0, r0, m);
    lemma_rounded_square(t1, r1, m);
    lemma_product_bound(cs - u * u, n, u, u * u + 80 * u);
    assert(cs * n - u * u * n == (cs - u * u) * n) by (nonlinear_arith);
}

/// The vector `v` after the rotations for the bits of `rest`, of which the
/// lowest stands for bit `k` of the whole angle.
pub open spec fn spin(v: (int, int), rest: int, k: int) -> (int, int)
    decreases ANGLE_BITS - k,
{
    if k >= ANGLE_BITS || k < 0 {
        v
    } else if rest % 2 == 1 {
        spin(rotate(v, turn_cos(k), turn_sin(k)), rest / 2, k + 1)
    } else {
        spin(v, rest / 2, k + 1)
    }
}

/// The direction of a binary angle: a vector of length close to `UNIT`.
pub open spec fn unit_vector_spec(angle: int) -> (int, int) {
    spin((UNIT as int, 0), angle, 0)
}

/// Rotations for any bits keep a vector that is nearly of length `UNIT` nearly
/// of that length: each of the rotations still to come costs at most
/// `5 * UNIT` of the slack.
pub proof fn lemma_spin_length(v: (int, int), rest: int, k: int)
    requires
        0 <= k <= ANGLE_BITS,
        -5_000_000_000 * k <= norm_sq(v) - UNIT * UNIT <= 5_000_000_000 * k,
    ensures
        -UNIT_SLACK <= norm_sq(spin(v, rest, k)) - UNIT * UNIT <= UNIT_SLACK,
    decreases ANGLE_BITS - k,
{
    if k < ANGLE_BITS {
        if rest % 2 == 1 {
            lemma_turn_on_circle(k);
            lemma_rotate_norm(v, turn_cos(k), turn_sin(k));
            lemma_spin_length(rotate(v, turn_cos(k), turn_sin(k)), rest / 2, k + 1);
        } else {
            lemma_spin_length(v, rest / 2, k + 1);
        }
    }
}

/// The direction of every angle is of length `UNIT` to within the slack.
pub proof fn lemma_unit_vector_length(angle: int)
    ensures
        -UNIT_SLACK <= norm_sq(unit_vector_spec(angle)) - UNIT * UNIT <= UNIT_SLACK,
{
    lemma_spin_length((UNIT as int, 0), angle, 0);
}

/// A quarter turn takes the x axis to the y axis, and a half turn takes each
/// axis to its opposite, exactly.
proof fn lemma_axis_rotations()
    ensures
        rotate((UNIT as int, 0int), turn_cos(14), turn_sin(14)) == (0int, UNIT as int),
        rotate((UNIT as int, 0int), turn_cos(15), turn_sin(15)) == (-UNIT as int, 0int),
        rotate((0int, UNIT as int), turn_cos(15), turn_sin(15)) == (0int, -UNIT as int),
{
}

/// Angles are counted from the x axis towards the y axis: the quarter turns
/// have exactly the directions of the axes.
pub proof fn lemma_quarter_turns()
    ensures
        unit_vector_spec(0) == (UNIT as int, 0int),
        unit_vector_spec(0x4000) == (0int, UNIT as int),
        unit_vector_spec(0x8000) == (-UNIT as int, 0int),
        unit_vector_spec(0xc000) == (0int, -UNIT as int),
{
    lemma_axis_rotations();
    lemma2_to64();
    let east = (UNIT as int, 0int);
    let north = (0int, UNIT as int);
    lemma_spin_rest(east, 0);
    assert(0x4000int % 0x4000 == 0 && 0x8000int % 0x8000 == 0 && 0xc000int % 0x4000 == 0);
    lemma_spin_skip(east, 0x4000, 0, 14);
    lemma_spin_skip(east, 0x8000, 0, 15);
    lemma_spin_skip(east, 0xc000, 0, 14);
    // What is left after the skipped bits: the bits 14 and 15.
    assert(spin(east, 3, 14) == spin(north, 1, 15));
    lemma_spin_rest(north, 15);
    assert(spin(east, 1, 15) == spin(rotate(east, turn_cos(15), turn_sin(15)), 0, 16));
    assert(spin(north, 1, 15) == spin(rotate(north, turn_cos(15), turn_sin(15)), 0, 16));
}

/// With no bit left to rotate for, the vector stays.
proof fn lemma_spin_rest(v: (int, int), k: int)
    requires
        0 <= k <= ANGLE_BITS,
    ensures
        spin(v, 0, k) == v,
    decreases ANGLE_BITS - k,
{
    if k < ANGLE_BITS {
        lemma_spin_rest(v, k + 1);
    }
}

/// Bits that are not set are passed over: an angle that is a multiple of
/// `2^(to - k)` has none below bit `to`.
proof fn lemma_spin_skip(v: (int, int), rest: int, k: int, to: int)
    requires
        0 <= k <= to <= ANGLE_BITS,
        rest >= 0,
        rest % pow2((to - k) as nat) as int == 0,
    ensures
        spin(v, rest, k) == spin(v, rest / (pow2((to - k) as nat) as int), to),
    decreases to - k,
{
    let n = (to - k) as nat;
    if k == to {
        lemma2_to64();
    } else {
        let half = pow2((n - 1) as nat) as int;
        lemma_pow2_pos((n - 1) as nat);
        lemma_pow2_unfold(n);
        let whole = 2 * half;
        // `rest` is a multiple of `2 * half`, so it is even and its half is a
        // multiple of `half`.
        lemma_fundamental_div_mod(rest, whole);
        let q = rest / whole;
        assert(rest == 2 * (half * q)) by (nonlinear_arith)
            requires rest == whole * q, whole == 2 * half;
        lemma_div_multiples_vanish(q, half);
        lemma_mod_multiples_basic(q, half);
        lemma_spin_skip(v, rest / 2, k + 1, to);
    }
}

/// The direction of a binary angle, with components in units of `1 / UNIT`.
/// Its squared length is within `UNIT_SLACK` of `UNIT * UNIT`, so its length
/// is within a ten-millionth of one.
pub fn unit_vector(angle: u16) -> (v: (i64, i64))
    ensures
        (v.0 as int, v.1 as int) == unit_vector_spec(angle as int),
        -UNIT_SLACK <= norm_sq((v.0 as int, v.1 as int)) - UNIT * UNIT <= UNIT_SLACK,
{
    let mut x: i64 = UNIT;
    let mut y: i64 = 0;
    let mut rest: u16 = angle;
    let mut k: u32 = 0;
    while k < ANGLE_BITS
        invariant
            k <= ANGLE_BITS,
            spin((x as int, y as int), rest as int, k as int) == unit_vector_spec(angle as int),
            -5_000_000_000 * k <= norm_sq((x as int, y as int)) - UNIT * UNIT <= 5_000_000_000 * k,
        decreases ANGLE_BITS - k,
    {
        if rest % 2 == 1 {
            let (c, s) = turn(k);
            proof {
                lemma_turn_on_circle(k as int);
                lemma_component_bound(x as int, y as int);
                lemma_rotate_norm((x as int, y as int), c as int, s as int);
                lemma_product_bound(c as int, x as int, UNIT as int, UNIT + 40);
                lemma_product_bound(s as int, y as int, UNIT as int, UNIT + 40);
                lemma_product_bound(s as int, x as int, UNIT as int, UNIT + 40);
                lemma_product_bound(c as int, y as int, UNIT as int, UNIT + 40);
                let w = rotate((x as int, y as int), c as int, s as int);
                lemma_component_bound(w.0, w.1);
            }
            let t0: i128 = (c as i128) * (x as i128) - (s as i128) * (y as i128);
            let t1: i128 = (s as i128) * (x as i128) + (c as i128) * (y as i128);
            let r0: i128 = round_div_exec(t0, UNIT as i128);
            let r1: i128 = round_div_exec(t1, UNIT as i128);
            x = r0 as i64;
            y = r1 as i64;
        }
        rest = rest / 2;
        k = k + 1;
    }
    (x, y)
}

} // verus!
