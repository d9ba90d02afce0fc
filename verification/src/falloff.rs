//! The radial falloff that shapes a terrain into an island: a Gaussian of the
//! distance from the centre of the grid, computed in integers.
//!
//! `exp(-t)` is taken as `(1 - s + s^2 / 2)^(2^12)` with `s = t / 2^12`: a
//! short Taylor series on a small argument, then twelve squarings. Both steps
//! are monotonic, which is what makes the falloff provably non-increasing
//! with distance; and both fix `t = 0`, which makes it exactly one at the
//! centre.

use vstd::prelude::*;
use vstd::arithmetic::div_mod::*;
use crate::fixed::{lemma_mix_range, ONE};
use crate::grid::fits_in_memory;

verus! {

/// The unit of the numbers squared on the way to an exponential: `2^40`.
pub const EXP_UNIT: u128 = 1_099_511_627_776;

/// How often the base is squared.
pub const EXP_SQUARINGS: u32 = 12;

/// `EXP_UNIT / 2^EXP_SQUARINGS`: the factor from an exponent to the argument
/// of the base.
pub const EXP_STEP: u128 = 268_435_456;

/// The exponent from which `exp(-t)` is taken to be zero: it is below a
/// ten-millionth there.
pub const EXP_CUTOFF: u128 = 16;

/// The largest numerator of an exponent that [`exp_neg`] accepts.
pub const EXP_NUMERATOR_LIMIT: u128 = 0x2000_0000_0000_0000_0000_0000_0000_0000;

/// The largest denominator of an exponent that [`exp_neg`] accepts.
pub const EXP_DENOMINATOR_LIMIT: u128 = 0x1_0000_0000_0000_0000;

/// The start of the squarings: `1 - s + s^2 / 2` in units of `1 / EXP_UNIT`.
pub open spec fn exp_base(s: int) -> int {
    EXP_UNIT - s + s * s / (2 * EXP_UNIT)
}

/// The square of a number in units of `1 / EXP_UNIT`.
pub open spec fn square_step(x: int) -> int {
    x * x / (EXP_UNIT as int)
}

/// `x` squared `k` times over.
pub open spec fn squared(x: int, k: nat) -> int
    decreases k,
{
    if k == 0 {
        x
    } else {
        squared(square_step(x), (k - 1) as nat)
    }
}

/// `exp(-num / den)` as a fixed-point number, for a positive `den` and a
/// `num` that is not negative.
pub open spec fn exp_neg_spec(num: int, den: int) -> int {
    if num >= EXP_CUTOFF * den {
        0
    } else {
        squared(exp_base(num * EXP_STEP / den), EXP_SQUARINGS as nat) * ONE / (EXP_UNIT as int)
    }
}

/// The base lies in the unit interval and does not grow with its argument.
pub proof fn lemma_exp_base(s1: int, s2: int)
    requires
        0 <= s1 <= s2 <= EXP_UNIT,
    ensures
        0 <= exp_base(s2) <= exp_base(s1) <= EXP_UNIT,
        exp_base(0) == EXP_UNIT,
{
    let u = EXP_UNIT as int;
    let k = s2 - s1;
    assert(0 <= s1 * s1 <= 2 * u * s1) by (nonlinear_arith)
        requires 0 <= s1 <= u;
    assert(0 <= s2 * s2 <= s1 * s1 + k * (2 * u)) by (nonlinear_arith)
        requires 0 <= s1 <= s2 <= u, k == s2 - s1;
    lemma_div_multiples_vanish(s1, 2 * u);
}

/// Squaring keeps the unit interval and its order, and fixes one.
pub proof fn lemma_square_step(x: int, y: int)
    requires
        0 <= x <= y <= EXP_UNIT,
    ensures
        0 <= square_step(x) <= square_step(y) <= EXP_UNIT,
        square_step(EXP_UNIT as int) == EXP_UNIT,
{
    let u = EXP_UNIT as int;
    assert(0 <= x * x <= y * y <= u * u) by (nonlinear_arith)
        requires 0 <= x <= y <= u;
}

/// Repeated squaring keeps the unit interval and its order, and fixes one.
pub proof fn lemma_squared(x: int, y: int, k: nat)
    requires
        0 <= x <= y <= EXP_UNIT,
    ensures
        0 <= squared(x, k) <= squared(y, k) <= EXP_UNIT,
        squared(EXP_UNIT as int, k) == EXP_UNIT,
    decreases k,
{
    if k > 0 {
        lemma_square_step(x, y);
        lemma_squared(square_step(x), square_step(y), (k - 1) as nat);
    }
}

/// Below the cutoff the argument of the base is within its domain.
pub proof fn lemma_exp_argument(num: int, den: int)
    requires
        0 <= num < EXP_CUTOFF * den,
    ensures
        0 <= num * EXP_STEP / den < EXP_CUTOFF * EXP_STEP <= EXP_UNIT,
{
    let step = EXP_STEP as int;
    lemma_multiply_divide_lt(num * step, den, 16 * step);
}

/// The exponential lies in the unit interval.
pub proof fn lemma_exp_neg_range(num: int, den: int)
    requires
        0 <= num,
        0 < den,
    ensures
        0 <= exp_neg_spec(num, den) <= ONE,
{
    if num < EXP_CUTOFF * den {
        lemma_exp_argument(num, den);
        let s = num * EXP_STEP / den;
        lemma_exp_base(s, s);
        lemma_squared(exp_base(s), exp_base(s), EXP_SQUARINGS as nat);
    }
}

/// The exponential is exactly one at zero.
pub proof fn lemma_exp_neg_zero(den: int)
    requires
        0 < den,
    ensures
        exp_neg_spec(0, den) == ONE,
{
    lemma_exp_base(0, 0);
    lemma_squared(EXP_UNIT as int, EXP_UNIT as int, EXP_SQUARINGS as nat);
}

/// The exponential does not grow with the numerator of its exponent.
pub proof fn lemma_exp_neg_monotone(num1: int, num2: int, den: int)
    requires
        0 <= num1 <= num2,
        0 < den,
    ensures
        exp_neg_spec(num1, den) >= exp_neg_spec(num2, den),
{
    lemma_exp_neg_range(num1, den);
    if num2 < EXP_CUTOFF * den {
        lemma_exp_argument(num2, den);
        let s1 = num1 * EXP_STEP / den;
        let s2 = num2 * EXP_STEP / den;
        lemma_div_is_ordered(num1 * EXP_STEP, num2 * EXP_STEP, den);
        lemma_exp_base(s1, s2);
        lemma_squared(exp_base(s2), exp_base(s1), EXP_SQUARINGS as nat);
    }
}

/// `exp(-num / den)` as a fixed-point number.
pub fn exp_neg(num: u128, den: u128) -> (e: i64)
    requires
        0 < den <= EXP_DENOMINATOR_LIMIT,
        num <= EXP_NUMERATOR_LIMIT,
    ensures
        e == exp_neg_spec(num as int, den as int),
        0 <= e <= ONE,
{
    if num >= EXP_CUTOFF * den {
        return 0;
    }
    proof {
        lemma_exp_argument(num as int, den as int);
    }
    let s: u128 = num * EXP_STEP / den;
    proof {
        lemma_exp_base(s as int, s as int);
        assert(0 <= s * s <= EXP_UNIT * EXP_UNIT) by (nonlinear_arith)
            requires 0 <= s <= EXP_UNIT;
    }
    let mut x: u128 = EXP_UNIT - s + s * s / (2 * EXP_UNIT);
    let mut k: u32 = 0;
    while k < EXP_SQUARINGS
        invariant
            k <= EXP_SQUARINGS,
            0 <= x <= EXP_UNIT,
            squared(x as int, (EXP_SQUARINGS - k) as nat) == squared(
                exp_base(s as int),
                EXP_SQUARINGS as nat,
            ),
        decreases EXP_SQUARINGS - k,
    {
        proof {
            assert(0 <= x * x <= EXP_UNIT * EXP_UNIT) by (nonlinear_arith)
                requires 0 <= x <= EXP_UNIT;
        }
        x = x * x / EXP_UNIT;
        k = k + 1;
    }
    (x * (ONE as u128) / EXP_UNIT) as i64
}

/// The falloff radius is the smaller side of the grid divided by this.
pub const FALLOFF_RADIUS_DIVISOR: u128 = 4;

/// Four times the squared distance of cell `(x, y)` from the centre
/// `(w / 2, h / 2)` of the grid.
pub open spec fn ring_sq(x: int, y: int, w: int, h: int) -> int {
    (2 * x - w) * (2 * x - w) + (2 * y - h) * (2 * y - h)
}

/// The smaller of two sides.
pub open spec fn smaller(w: int, h: int) -> int {
    if w <= h {
        w
    } else {
        h
    }
}

/// The factor by which the falloff scales cell `(x, y)`:
/// `exp(-(d / radius)^2 / 2)` for the distance `d` from the centre.
pub open spec fn falloff_scale_spec(x: int, y: int, w: int, h: int) -> int {
    exp_neg_spec(
        ring_sq(x, y, w, h) * (FALLOFF_RADIUS_DIVISOR * FALLOFF_RADIUS_DIVISOR),
        8 * (smaller(w, h) * smaller(w, h)),
    )
}

/// The value `v` of cell `(x, y)` after the falloff.
pub open spec fn shaped_value(v: int, x: int, y: int, w: int, h: int) -> int {
    v * falloff_scale_spec(x, y, w, h) / (ONE as int)
}

/// A grid with a cell has sides of at most `2^60`, and its smaller side
/// squared is at most that too.
pub proof fn lemma_side_bounds(w: int, h: int)
    requires
        w >= 1,
        h >= 1,
        fits_in_memory(h, w),
    ensures
        w <= 0x1000_0000_0000_0000,
        h <= 0x1000_0000_0000_0000,
        1 <= smaller(w, h) * smaller(w, h) <= 0x1000_0000_0000_0000,
        w * h <= 0x1000_0000_0000_0000,
{
    let m = smaller(w, h);
    assert(w <= h * w && h <= h * w && m * m <= h * w && 1 <= m * m && w * h == h * w)
        by (nonlinear_arith)
        requires w >= 1, h >= 1, m >= 1, m <= w, m <= h;
}

/// The falloff factor lies in the unit interval.
pub proof fn lemma_falloff_scale_range(x: int, y: int, w: int, h: int)
    requires
        w >= 1,
        h >= 1,
    ensures
        0 <= falloff_scale_spec(x, y, w, h) <= ONE,
{
    let m = smaller(w, h);
    assert(ring_sq(x, y, w, h) >= 0) by (nonlinear_arith)
        requires ring_sq(x, y, w, h) == (2 * x - w) * (2 * x - w) + (2 * y - h) * (2 * y - h);
    assert(m * m >= 1) by (nonlinear_arith)
        requires m >= 1;
    lemma_exp_neg_range(ring_sq(x, y, w, h) * 16, 8 * (m * m));
}

/// The falloff keeps a value between zero and itself.
pub proof fn lemma_shaped_value_range(v: int, x: int, y: int, w: int, h: int)
    requires
        w >= 1,
        h >= 1,
    ensures
        v >= 0 ==> 0 <= shaped_value(v, x, y, w, h) <= v,
        v <= 0 ==> v <= shaped_value(v, x, y, w, h) <= 0,
{
    lemma_falloff_scale_range(x, y, w, h);
    let s = falloff_scale_spec(x, y, w, h);
    lemma_mix_range(0, v, s);
}

/// The falloff does not grow with the distance from the centre: of two
/// cells, the one further out keeps no more of an elevation that is not
/// negative.
pub proof fn lemma_falloff_monotone(v: int, x1: int, y1: int, x2: int, y2: int, w: int, h: int)
    requires
        w >= 1,
        h >= 1,
        v >= 0,
        ring_sq(x1, y1, w, h) <= ring_sq(x2, y2, w, h),
    ensures
        shaped_value(v, x1, y1, w, h) >= shaped_value(v, x2, y2, w, h),
{
    let m = smaller(w, h);
    let near = ring_sq(x1, y1, w, h);
    let far = ring_sq(x2, y2, w, h);
    assert(near >= 0) by (nonlinear_arith)
        requires near == (2 * x1 - w) * (2 * x1 - w) + (2 * y1 - h) * (2 * y1 - h);
    assert(m * m >= 1) by (nonlinear_arith)
        requires m >= 1;
    lemma_exp_neg_monotone(near * 16, far * 16, 8 * (m * m));
    let s1 = falloff_scale_spec(x1, y1, w, h);
    let s2 = falloff_scale_spec(x2, y2, w, h);
    assert(v * s2 <= v * s1) by (nonlinear_arith)
        requires v >= 0, s2 <= s1;
}

/// The falloff leaves the elevation at the exact centre of the grid as it is.
pub proof fn lemma_falloff_centre(v: int, x: int, y: int, w: int, h: int)
    requires
        w >= 1,
        h >= 1,
        2 * x == w,
        2 * y == h,
    ensures
        falloff_scale_spec(x, y, w, h) == ONE,
        shaped_value(v, x, y, w, h) == v,
{
    let m = smaller(w, h);
    assert(m * m >= 1) by (nonlinear_arith)
        requires m >= 1;
    lemma_exp_neg_zero(8 * (m * m));
}

/// The factor by which the falloff scales cell `(x, y)` of a grid of `w` by `h`.
pub fn falloff_scale(x: usize, y: usize, w: usize, h: usize) -> (scale: i64)
    requires
        x < w,
        y < h,
        fits_in_memory(h as int, w as int),
    ensures
        scale == falloff_scale_spec(x as int, y as int, w as int, h as int),
        0 <= scale <= ONE,
{
    proof {
        lemma_side_bounds(w as int, h as int);
        lemma_falloff_scale_range(x as int, y as int, w as int, h as int);
    }
    let across: u128 = if 2 * (x as u128) >= w as u128 {
        2 * (x as u128) - w as u128
    } else {
        w as u128 - 2 * (x as u128)
    };
    let down: u128 = if 2 * (y as u128) >= h as u128 {
        2 * (y as u128) - h as u128
    } else {
        h as u128 - 2 * (y as u128)
    };
    let side: u128 = if w <= h { w as u128 } else { h as u128 };
    proof {
        let limit: int = 0x1000_0000_0000_0000;
        assert(across * across == (2 * x - w) * (2 * x - w) && across * across <= limit * limit)
            by (nonlinear_arith)
            requires (across == 2 * x - w || across == w - 2 * x), 0 <= across <= limit;
        assert(down * down == (2 * y - h) * (2 * y - h) && down * down <= limit * limit)
            by (nonlinear_arith)
            requires (down == 2 * y - h || down == h - 2 * y), 0 <= down <= limit;
    }
    let ring: u128 = across * across + down * down;
    let num: u128 = ring * (FALLOFF_RADIUS_DIVISOR * FALLOFF_RADIUS_DIVISOR);
    let den: u128 = 8 * (side * side);
    exp_neg(num, den)
}

} // verus!
