//! Fixed-point numbers and the interpolation helpers built on them.
//!
//! A real number `r` is held as an integer close to `r * ONE`. Products are
//! brought back to scale by a floor division, so each function here has an
//! exact meaning in integers, which the spec function beside it gives.

use vstd::prelude::*;
use vstd::arithmetic::div_mod::*;

verus! {

/// The integer that stands for `1.0`.
pub const ONE: i64 = 1_000_000;

/// A point or a vector of the plane, in fixed-point coordinates.
#[derive(Clone, Copy, Debug, PartialEq, Eq, Structural)]
pub struct Vec2 {
    pub x: i64,
    pub y: i64,
}

/// Floor division by a positive divisor.
pub fn div_floor(a: i128, d: i128) -> (q: i128)
    requires
        d > 0,
    ensures
        q == a as int / d as int,
{
    proof {
        lemma_div_bounds(a as int, d as int);
    }
    match a.checked_div_euclid(d) {
        Some(q) => q,
        None => 0,
    }
}

/// Floor remainder by a positive divisor.
pub fn mod_floor(a: i128, d: i128) -> (r: i128)
    requires
        d > 0,
    ensures
        r == a as int % d as int,
        0 <= r < d,
{
    match a.checked_rem_euclid(d) {
        Some(r) => r,
        None => 0,
    }
}

/// A quotient by a positive divisor is no larger in magnitude than the dividend.
pub proof fn lemma_div_bounds(a: int, d: int)
    requires
        d > 0,
    ensures
        a >= 0 ==> 0 <= a / d <= a,
        a < 0 ==> a <= a / d < 0,
{
    lemma_fundamental_div_mod(a, d);
    let q = a / d;
    let r = a % d;
    if a < 0 {
        assert(q >= a) by (nonlinear_arith)
            requires a == d * q + r, 0 <= r < d, d > 0, q < 0;
    }
}

/// The place of `v` between `lo` and `hi`, as a fraction of the way from the
/// first to the second: `lo` gives `0`, `hi` gives `ONE`.
pub open spec fn rescale_spec(v: int, lo: int, hi: int) -> int {
    (v - lo) * ONE / (hi - lo)
}

/// Between the bounds the rescaled value lies in the unit interval, and the
/// bounds themselves are sent to its two ends.
pub proof fn lemma_rescale_range(v: int, lo: int, hi: int)
    requires
        lo <= v <= hi,
        lo < hi,
    ensures
        0 <= rescale_spec(v, lo, hi) <= ONE,
        rescale_spec(lo, lo, hi) == 0,
        rescale_spec(hi, lo, hi) == ONE,
{
    let d = hi - lo;
    lemma_div_is_ordered((v - lo) * ONE, d * ONE, d);
    lemma_div_by_multiple(ONE as int, d);
}

/// Rescales `v` from the interval `[lo, hi]` to the unit interval.
pub fn rescale(v: i64, lo: i64, hi: i64) -> (r: i64)
    requires
        lo <= v <= hi,
        lo < hi,
    ensures
        r == rescale_spec(v as int, lo as int, hi as int),
        0 <= r <= ONE,
{
    proof {
        lemma_rescale_range(v as int, lo as int, hi as int);
    }
    let span: i128 = hi as i128 - lo as i128;
    let above: i128 = v as i128 - lo as i128;
    let scaled: i128 = above * (ONE as i128) / span;
    scaled as i64
}

/// A product is bounded by the product of bounds on its factors.
pub proof fn lemma_product_bound(a: int, b: int, bound_a: int, bound_b: int)
    requires
        -bound_a <= a <= bound_a,
        -bound_b <= b <= bound_b,
    ensures
        -(bound_a * bound_b) <= a * b <= bound_a * bound_b,
{
    assert(-(bound_a * bound_b) <= a * b <= bound_a * bound_b) by (nonlinear_arith)
        requires -bound_a <= a <= bound_a, -bound_b <= b <= bound_b;
}

/// The smoothstep polynomial `t^2 (3 - 2t)` on fixed-point numbers.
pub open spec fn smoothstep_spec(t: int) -> int {
    t * t * (3 * ONE - 2 * t) / (ONE * ONE)
}

/// On the unit interval smoothstep stays in the unit interval and fixes both ends.
pub proof fn lemma_smoothstep_range(t: int)
    requires
        0 <= t <= ONE,
    ensures
        0 <= t * t * (3 * ONE - 2 * t) <= ONE * ONE * ONE,
        0 <= smoothstep_spec(t) <= ONE,
        smoothstep_spec(0) == 0,
        smoothstep_spec(ONE as int) == ONE,
{
    let n = t * t * (3 * ONE - 2 * t);
    let one = ONE as int;
    assert(one * one * one - n == (one - t) * (one - t) * (one + 2 * t)) by (nonlinear_arith)
        requires n == t * t * (3 * one - 2 * t);
    assert(one * one == 1_000_000_000_000);
}

/// Smoothstep of a fixed-point number of the unit interval.
pub fn smoothstep(t: i64) -> (s: i64)
    requires
        0 <= t <= ONE,
    ensures
        s == smoothstep_spec(t as int),
        0 <= s <= ONE,
{
    proof {
        lemma_smoothstep_range(t as int);
    }
    assert(0 <= t * t <= ONE * ONE) by (nonlinear_arith)
        requires 0 <= t <= ONE;
    let square: i64 = t * t;
    let slope: i64 = 3 * ONE - 2 * t;
    let cube: i64 = square * slope;
    cube / (ONE * ONE)
}

/// The blend of `a` and `b` that gives `b` the share `s` of `ONE`.
pub open spec fn mix_spec(a: int, b: int, s: int) -> int {
    (a * (ONE - s) + b * s) / (ONE as int)
}

/// Interpolation from `a` at `t = 0` to `b` at `t = ONE`, eased by smoothstep.
pub open spec fn lerp_spec(a: int, b: int, t: int) -> int {
    mix_spec(a, b, smoothstep_spec(t))
}

/// A blend lies between the two values blended, and is one of them where the
/// share is nothing or everything.
pub proof fn lemma_mix_range(a: int, b: int, s: int)
    requires
        0 <= s <= ONE,
    ensures
        a <= b ==> a <= mix_spec(a, b, s) <= b,
        b <= a ==> b <= mix_spec(a, b, s) <= a,
        mix_spec(a, b, 0) == a,
        mix_spec(a, b, ONE as int) == b,
{
    let one = ONE as int;
    let n = a * (one - s) + b * s;
    if a <= b {
        assert(a * one <= n <= b * one) by (nonlinear_arith)
            requires n == a * (one - s) + b * s, 0 <= s <= one, a <= b;
    }
    if b <= a {
        assert(b * one <= n <= a * one) by (nonlinear_arith)
            requires n == a * (one - s) + b * s, 0 <= s <= one, b <= a;
    }
}

/// Eased interpolation between `a` and `b` at the place `t` of the unit interval.
pub fn lerp(a: i64, b: i64, t: i64) -> (r: i64)
    requires
        0 <= t <= ONE,
    ensures
        r == lerp_spec(a as int, b as int, t as int),
        a <= b ==> a <= r <= b,
        b <= a ==> b <= r <= a,
{
    let s: i64 = smoothstep(t);
    proof {
        lemma_mix_range(a as int, b as int, s as int);
        lemma_product_bound(a as int, (ONE - s) as int, 0x8000_0000_0000_0000, ONE as int);
        lemma_product_bound(b as int, s as int, 0x8000_0000_0000_0000, ONE as int);
    }
    let left: i128 = (a as i128) * ((ONE - s) as i128);
    let right: i128 = (b as i128) * (s as i128);
    let q: i128 = div_floor(left + right, ONE as i128);
    q as i64
}

} // verus!
