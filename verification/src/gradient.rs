//! Gradient vectors: the direction of a binary angle, scaled to the length
//! that every gradient of the noise has.

use vstd::prelude::*;
use crate::angle::{
    lemma_component_bound, lemma_round_div, lemma_rounded_square, lemma_unit_vector_length, norm_sq,
    round_div, round_div_exec, unit_vector, unit_vector_spec, UNIT, UNIT_SLACK,
};

verus! {

/// The length of every gradient vector: the square root of two.
pub const GRADIENT_SCALE: i64 = 1_414_214;

/// How far the length of a gradient may be from [`GRADIENT_SCALE`].
pub const GRADIENT_TOLERANCE: i64 = 2;

/// The largest magnitude of a gradient's component.
pub const GRADIENT_LIMIT: i64 = 1_414_216;

/// The gradient for a binary angle: its direction, scaled to [`GRADIENT_SCALE`].
pub open spec fn gradient_spec(angle: int) -> (int, int) {
    let u = unit_vector_spec(angle);
    (round_div(GRADIENT_SCALE * u.0, UNIT as int), round_div(GRADIENT_SCALE * u.1, UNIT as int))
}

/// Whether a vector has the length of a gradient, to within the tolerance.
pub open spec fn unit_gradient(g: (int, int)) -> bool {
    (GRADIENT_SCALE - GRADIENT_TOLERANCE) * (GRADIENT_SCALE - GRADIENT_TOLERANCE) <= norm_sq(g) <= (
    GRADIENT_SCALE + GRADIENT_TOLERANCE) * (GRADIENT_SCALE + GRADIENT_TOLERANCE)
}

/// Whether both components of a vector are within [`GRADIENT_LIMIT`].
pub open spec fn bounded_gradient(g: (int, int)) -> bool {
    -GRADIENT_LIMIT <= g.0 <= GRADIENT_LIMIT && -GRADIENT_LIMIT <= g.1 <= GRADIENT_LIMIT
}

/// A vector of gradient length has bounded components.
pub proof fn lemma_unit_gradient_bounded(g: (int, int))
    requires
        unit_gradient(g),
    ensures
        bounded_gradient(g),
{
    let x = g.0;
    let y = g.1;
    let l = GRADIENT_LIMIT as int;
    assert(x * x >= 0 && y * y >= 0) by (nonlinear_arith);
    assert(-l <= x <= l) by (nonlinear_arith)
        requires x * x <= l * l, l == 1_414_216;
    assert(-l <= y <= l) by (nonlinear_arith)
        requires y * y <= l * l, l == 1_414_216;
}

/// The scaled rounding of a near-unit direction is a vector of gradient length.
proof fn lemma_gradient_length(u: (int, int))
    requires
        -UNIT_SLACK <= norm_sq(u) - UNIT * UNIT <= UNIT_SLACK,
    ensures
        unit_gradient(
            (round_div(GRADIENT_SCALE * u.0, UNIT as int), round_div(GRADIENT_SCALE * u.1, UNIT as int)),
        ),
{
    let q = UNIT as int;
    let s = GRADIENT_SCALE as int;
    let t0 = s * u.0;
    let t1 = s * u.1;
    let r0 = round_div(t0, q);
    let r1 = round_div(t1, q);
    let bound = s * (q + 40);
    lemma_component_bound(u.0, u.1);
    lemma_round_div(t0, q);
    lemma_round_div(t1, q);
    lemma_rounded_square(t0, r0, bound);
    lemma_rounded_square(t1, r1, bound);
    assert(t0 * t0 == (s * s) * (u.0 * u.0)) by (nonlinear_arith)
        requires t0 == s * u.0;
    assert(t1 * t1 == (s * s) * (u.1 * u.1)) by (nonlinear_arith)
        requires t1 == s * u.1;
    let n = norm_sq(u);
    assert((s * s) * (u.0 * u.0) + (s * s) * (u.1 * u.1) == (s * s) * n) by (nonlinear_arith)
        requires n == u.0 * u.0 + u.1 * u.1;
}

/// The gradient of every angle has the length of a gradient.
pub proof fn lemma_gradient_is_unit(angle: int)
    requires
        0 <= angle < 0x1_0000,
    ensures
        unit_gradient(gradient_spec(angle)),
        bounded_gradient(gradient_spec(angle)),
{
    lemma_unit_vector_length(angle);
    lemma_gradient_length(unit_vector_spec(angle));
    lemma_unit_gradient_bounded(gradient_spec(angle));
}

/// The gradient vector for a binary angle.
pub fn gradient(angle: u16) -> (g: (i64, i64))
    ensures
        (g.0 as int, g.1 as int) == gradient_spec(angle as int),
        unit_gradient((g.0 as int, g.1 as int)),
        bounded_gradient((g.0 as int, g.1 as int)),
{
    let u: (i64, i64) = unit_vector(angle);
    proof {
        lemma_component_bound(u.0 as int, u.1 as int);
        lemma_gradient_length((u.0 as int, u.1 as int));
    }
    let x: i128 = round_div_exec((GRADIENT_SCALE as i128) * (u.0 as i128), UNIT as i128);
    let y: i128 = round_div_exec((GRADIENT_SCALE as i128) * (u.1 as i128), UNIT as i128);
    (x as i64, y as i64)
}

} // verus!
