//! What makes the noise seamless: a layer tiles the plane, its value agrees
//! on the two sides of every cell edge, also round the torus, and inside a
//! cell it changes by a bounded amount for each step of the offset.

use vstd::prelude::*;
use vstd::arithmetic::div_mod::*;
use crate::fixed::{
    lemma_mix_range, lemma_product_bound, lemma_smoothstep_range, lerp_spec, mix_spec, smoothstep_spec,
    ONE,
};
use crate::gradient::bounded_gradient;
use crate::layer::{
    cell_index, cell_offset, cell_sample, cell_value, dot_spec, layer_ok, layer_sample,
    lemma_cell_range, lemma_dot_range, next_index, Vectors, LAYER_LIMIT,
};

verus! {

/// How much the value inside a cell can change for each step of the offset.
pub const CELL_SLOPE: i64 = 14;

/// Moving a coordinate by a whole unit leaves its cell on the ring and its
/// offset in the cell unchanged.
pub proof fn lemma_cell_periodic(p: int, n: int)
    requires
        n >= 1,
    ensures
        cell_index(p + ONE, n) == cell_index(p, n),
        cell_offset(p + ONE, n) == cell_offset(p, n),
{
    let one = ONE as int;
    assert((p + one) * n == p * n + n * one && (p + one) * n == one * n + p * n) by (nonlinear_arith);
    lemma_hoist_over_denominator(p * n, n, one as nat);
    lemma_mod_add_multiples_vanish(p * n / one, n);
    lemma_mod_multiples_vanish(n, p * n, one);
}

/// The layer tiles the plane: its value repeats with period `ONE` along
/// both axes.
pub proof fn lemma_sample_periodic(rows: Vectors, x: int, y: int)
    requires
        layer_ok(rows),
    ensures
        layer_sample(rows, x + ONE, y) == layer_sample(rows, x, y),
        layer_sample(rows, x, y + ONE) == layer_sample(rows, x, y),
{
    lemma_cell_periodic(x, rows[0].len() as int);
    lemma_cell_periodic(y, rows.len() as int);
}

/// No seam between cells, nor round the torus: the value at the right edge
/// of a cell is the value at the left edge of the cell after it, where the
/// cell after the last column is the first; and likewise from the lower edge
/// of a cell to the upper edge of the cell below, round from the last row to
/// the first.
pub proof fn lemma_seam_continuity(rows: Vectors, col: int, row: int, xf: int, yf: int)
    requires
        layer_ok(rows),
    ensures
        cell_sample(rows, col, row, ONE as int, yf) == cell_sample(
            rows,
            next_index(col, rows[0].len() as int),
            row,
            0,
            yf,
        ),
        cell_sample(rows, col, row, xf, ONE as int) == cell_sample(
            rows,
            col,
            next_index(row, rows.len() as int),
            xf,
            0,
        ),
{
    let w = rows[0].len() as int;
    let h = rows.len() as int;
    let right = next_index(col, w);
    let after = next_index(right, w);
    let below = next_index(row, h);
    let under = next_index(below, h);
    let one = ONE as int;
    lemma_smoothstep_range(0);
    // Along x: at the right edge only the right-hand corners count, at the
    // left edge only the left-hand ones, and they are the same corners.
    let tr = rows[row][right];
    let br = rows[below][right];
    lemma_mix_range(dot_spec(rows[row][col], one, yf), dot_spec(tr, 0, yf), one);
    lemma_mix_range(dot_spec(rows[below][col], one, yf - one), dot_spec(br, 0, yf - one), one);
    lemma_mix_range(dot_spec(tr, 0, yf), dot_spec(rows[row][after], 0 - one, yf), 0);
    lemma_mix_range(dot_spec(br, 0, yf - one), dot_spec(rows[below][after], 0 - one, yf - one), 0);
    // Along y: the same for the lower corners and the upper ones.
    let bl = rows[below][col];
    let top = lerp_spec(dot_spec(rows[row][col], xf, one), dot_spec(rows[row][right], xf - one, one), xf);
    let bottom = lerp_spec(dot_spec(bl, xf, 0), dot_spec(br, xf - one, 0), xf);
    lemma_mix_range(top, bottom, one);
    let lower = lerp_spec(
        dot_spec(rows[under][col], xf, 0 - one),
        dot_spec(rows[under][right], xf - one, 0 - one),
        xf,
    );
    lemma_mix_range(bottom, lower, 0);
}

/// At the left border of the plane the layer has the value that its last
/// column reaches at its right edge: the border is no seam.
pub proof fn lemma_border_continuity(rows: Vectors, y: int)
    requires
        layer_ok(rows),
    ensures
        layer_sample(rows, 0, y) == cell_sample(
            rows,
            rows[0].len() - 1,
            cell_index(y, rows.len() as int),
            ONE as int,
            cell_offset(y, rows.len() as int),
        ),
{
    let w = rows[0].len() as int;
    let h = rows.len() as int;
    lemma_seam_continuity(rows, w - 1, cell_index(y, h), 0, cell_offset(y, h));
    assert(0int * w == 0) by (nonlinear_arith);
    lemma_mod_self_0(w);
    lemma_small_mod(0, w as nat);
}

/// How far apart two integers are.
pub open spec fn distance(a: int, b: int) -> int {
    if a <= b {
        b - a
    } else {
        a - b
    }
}

/// Floor quotients by a positive divisor differ by at most `m` where the
/// dividends differ by at most `m` times the divisor.
pub proof fn lemma_quotients_close(n1: int, n2: int, d: int, m: int)
    requires
        d > 0,
        m >= 0,
        distance(n1, n2) <= m * d,
    ensures
        distance(n1 / d, n2 / d) <= m,
{
    lemma_div_is_ordered(n2, n1 + m * d, d);
    lemma_div_is_ordered(n1, n2 + m * d, d);
    lemma_hoist_over_denominator(n1, m, d as nat);
    lemma_hoist_over_denominator(n2, m, d as nat);
}

/// A dot product changes by at most two for each step of the offset, along
/// either axis.
pub proof fn lemma_dot_slope(g: (int, int), dx1: int, dy1: int, dx2: int, dy2: int, step: int)
    requires
        bounded_gradient(g),
        dx1 == dx2 || dy1 == dy2,
        distance(dx1, dx2) <= step,
        distance(dy1, dy2) <= step,
    ensures
        distance(dot_spec(g, dx1, dy1), dot_spec(g, dx2, dy2)) <= 2 * step,
{
    let one = ONE as int;
    let n1 = g.0 * dx1 + g.1 * dy1;
    let n2 = g.0 * dx2 + g.1 * dy2;
    assert(n2 - n1 == g.0 * (dx2 - dx1) + g.1 * (dy2 - dy1)) by (nonlinear_arith)
        requires n1 == g.0 * dx1 + g.1 * dy1, n2 == g.0 * dx2 + g.1 * dy2;
    lemma_product_bound(g.0, dx2 - dx1, 2 * one, step);
    lemma_product_bound(g.1, dy2 - dy1, 2 * one, step);
    assert(g.0 * 0 == 0 && g.1 * 0 == 0) by (nonlinear_arith);
    assert((2 * one) * step == (2 * step) * one) by (nonlinear_arith);
    lemma_quotients_close(n1, n2, one, 2 * step);
}

/// Smoothstep does not fall, and rises by at most two for each step.
pub proof fn lemma_smoothstep_slope(t1: int, t2: int)
    requires
        0 <= t1 <= t2 <= ONE,
    ensures
        0 <= smoothstep_spec(t2) - smoothstep_spec(t1) <= 2 * (t2 - t1),
{
    let one = ONE as int;
    let v1 = t1 * t1 * (3 * one - 2 * t1);
    let v2 = t2 * t2 * (3 * one - 2 * t2);
    let step = t2 - t1;
    let q = 3 * one * (t1 + t2) - 2 * (t1 * t1 + t1 * t2 + t2 * t2);
    assert(v2 - v1 == step * q) by (nonlinear_arith)
        requires
            v1 == t1 * t1 * (3 * one - 2 * t1),
            v2 == t2 * t2 * (3 * one - 2 * t2),
            step == t2 - t1,
            q == 3 * one * (t1 + t2) - 2 * (t1 * t1 + t1 * t2 + t2 * t2),
    ;
    assert(t1 * t1 <= one * t1 && t2 * t2 <= one * t2 && 2 * (t1 * t2) <= one * t1 + one * t2)
        by (nonlinear_arith)
        requires 0 <= t1 <= one, 0 <= t2 <= one;
    assert(q >= 0) by (nonlinear_arith)
        requires
            q == 3 * one * (t1 + t2) - 2 * (t1 * t1 + t1 * t2 + t2 * t2),
            t1 * t1 <= one * t1,
            t2 * t2 <= one * t2,
            2 * (t1 * t2) <= one * t1 + one * t2,
    ;
    assert(2 * (one * one) - q == (t1 + t2 - one) * (t1 + t2 - one) + (t1 * t1 - one * t1) + (t2 * t2
        - one * t2) + one * one) by (nonlinear_arith)
        requires q == 3 * one * (t1 + t2) - 2 * (t1 * t1 + t1 * t2 + t2 * t2);
    assert((t1 + t2 - one) * (t1 + t2 - one) >= 0) by (nonlinear_arith);
    assert(4 * (t1 * t1 - one * t1) + one * one == (2 * t1 - one) * (2 * t1 - one)) by (nonlinear_arith);
    assert(4 * (t2 * t2 - one * t2) + one * one == (2 * t2 - one) * (2 * t2 - one)) by (nonlinear_arith);
    assert((2 * t1 - one) * (2 * t1 - one) >= 0 && (2 * t2 - one) * (2 * t2 - one) >= 0)
        by (nonlinear_arith);
    assert(q <= 2 * (one * one));
    assert(0 <= step * q <= step * (2 * (one * one))) by (nonlinear_arith)
        requires 0 <= step, 0 <= q <= 2 * (one * one);
    assert(step * (2 * (one * one)) == (2 * step) * (one * one)) by (nonlinear_arith);
    lemma_div_is_ordered(v1, v2, one * one);
    lemma_quotients_close(v1, v2, one * one, 2 * step);
}

/// A blend changes by no more than the values blended do, and six times
/// what the share does, where the values are those of a layer.
pub proof fn lemma_mix_slope(a1: int, b1: int, s1: int, a2: int, b2: int, s2: int, da: int, ds: int)
    requires
        0 <= s1 <= ONE,
        0 <= s2 <= ONE,
        -LAYER_LIMIT <= a1 <= LAYER_LIMIT,
        -LAYER_LIMIT <= b1 <= LAYER_LIMIT,
        distance(a1, a2) <= da,
        distance(b1, b2) <= da,
        distance(s1, s2) <= ds,
    ensures
        distance(mix_spec(a1, b1, s1), mix_spec(a2, b2, s2)) <= da + 6 * ds,
{
    let one = ONE as int;
    let n1 = a1 * (one - s1) + b1 * s1;
    let n2 = a2 * (one - s2) + b2 * s2;
    assert(n2 - n1 == (a2 - a1) * (one - s2) + (b2 - b1) * s2 + (b1 - a1) * (s2 - s1))
        by (nonlinear_arith)
        requires n1 == a1 * (one - s1) + b1 * s1, n2 == a2 * (one - s2) + b2 * s2;
    lemma_product_bound(a2 - a1, one - s2, da, one - s2);
    lemma_product_bound(b2 - b1, s2, da, s2);
    lemma_product_bound(b1 - a1, s2 - s1, 6 * one, ds);
    assert(da * (one - s2) + da * s2 == da * one) by (nonlinear_arith);
    assert((6 * one) * ds == (6 * ds) * one) by (nonlinear_arith);
    assert((da + 6 * ds) * one == da * one + (6 * ds) * one) by (nonlinear_arith);
    lemma_quotients_close(n1, n2, one, da + 6 * ds);
}

/// Inside a cell the value changes by at most [`CELL_SLOPE`] for each step
/// of the offset along x.
pub proof fn lemma_cell_slope_x(
    tl: (int, int),
    tr: (int, int),
    bl: (int, int),
    br: (int, int),
    xf1: int,
    xf2: int,
    yf: int,
)
    requires
        bounded_gradient(tl),
        bounded_gradient(tr),
        bounded_gradient(bl),
        bounded_gradient(br),
        0 <= xf1 <= xf2 <= ONE,
        0 <= yf <= ONE,
    ensures
        distance(cell_value(tl, tr, bl, br, xf1, yf), cell_value(tl, tr, bl, br, xf2, yf)) <= CELL_SLOPE
            * (xf2 - xf1),
{
    let step = xf2 - xf1;
    let s1 = smoothstep_spec(xf1);
    let s2 = smoothstep_spec(xf2);
    let sy = smoothstep_spec(yf);
    lemma_smoothstep_range(xf1);
    lemma_smoothstep_range(xf2);
    lemma_smoothstep_range(yf);
    lemma_smoothstep_slope(xf1, xf2);
    lemma_dot_range(tl, xf1, yf);
    lemma_dot_range(tr, xf1 - ONE, yf);
    lemma_dot_range(bl, xf1, yf - ONE);
    lemma_dot_range(br, xf1 - ONE, yf - ONE);
    lemma_dot_slope(tl, xf1, yf, xf2, yf, step);
    lemma_dot_slope(tr, xf1 - ONE, yf, xf2 - ONE, yf, step);
    lemma_dot_slope(bl, xf1, yf - ONE, xf2, yf - ONE, step);
    lemma_dot_slope(br, xf1 - ONE, yf - ONE, xf2 - ONE, yf - ONE, step);
    let top1 = lerp_spec(dot_spec(tl, xf1, yf), dot_spec(tr, xf1 - ONE, yf), xf1);
    let top2 = lerp_spec(dot_spec(tl, xf2, yf), dot_spec(tr, xf2 - ONE, yf), xf2);
    let bottom1 = lerp_spec(dot_spec(bl, xf1, yf - ONE), dot_spec(br, xf1 - ONE, yf - ONE), xf1);
    let bottom2 = lerp_spec(dot_spec(bl, xf2, yf - ONE), dot_spec(br, xf2 - ONE, yf - ONE), xf2);
    lemma_mix_slope(
        dot_spec(tl, xf1, yf),
        dot_spec(tr, xf1 - ONE, yf),
        s1,
        dot_spec(tl, xf2, yf),
        dot_spec(tr, xf2 - ONE, yf),
        s2,
        2 * step,
        2 * step,
    );
    lemma_mix_slope(
        dot_spec(bl, xf1, yf - ONE),
        dot_spec(br, xf1 - ONE, yf - ONE),
        s1,
        dot_spec(bl, xf2, yf - ONE),
        dot_spec(br, xf2 - ONE, yf - ONE),
        s2,
        2 * step,
        2 * step,
    );
    lemma_mix_range(dot_spec(tl, xf1, yf), dot_spec(tr, xf1 - ONE, yf), s1);
    lemma_mix_range(dot_spec(bl, xf1, yf - ONE), dot_spec(br, xf1 - ONE, yf - ONE), s1);
    lemma_mix_slope(top1, bottom1, sy, top2, bottom2, sy, 14 * step, 0);
}

/// Inside a cell the value changes by at most [`CELL_SLOPE`] for each step
/// of the offset along y.
pub proof fn lemma_cell_slope_y(
    tl: (int, int),
    tr: (int, int),
    bl: (int, int),
    br: (int, int),
    xf: int,
    yf1: int,
    yf2: int,
)
    requires
        bounded_gradient(tl),
        bounded_gradient(tr),
        bounded_gradient(bl),
        bounded_gradient(br),
        0 <= xf <= ONE,
        0 <= yf1 <= yf2 <= ONE,
    ensures
        distance(cell_value(tl, tr, bl, br, xf, yf1), cell_value(tl, tr, bl, br, xf, yf2)) <= CELL_SLOPE
            * (yf2 - yf1),
{
    let step = yf2 - yf1;
    let sx = smoothstep_spec(xf);
    let s1 = smoothstep_spec(yf1);
    let s2 = smoothstep_spec(yf2);
    lemma_smoothstep_range(xf);
    lemma_smoothstep_range(yf1);
    lemma_smoothstep_range(yf2);
    lemma_smoothstep_slope(yf1, yf2);
    lemma_dot_range(tl, xf, yf1);
    lemma_dot_range(tr, xf - ONE, yf1);
    lemma_dot_range(bl, xf, yf1 - ONE);
    lemma_dot_range(br, xf - ONE, yf1 - ONE);
    lemma_dot_slope(tl, xf, yf1, xf, yf2, step);
    lemma_dot_slope(tr, xf - ONE, yf1, xf - ONE, yf2, step);
    lemma_dot_slope(bl, xf, yf1 - ONE, xf, yf2 - ONE, step);
    lemma_dot_slope(br, xf - ONE, yf1 - ONE, xf - ONE, yf2 - ONE, step);
    let top1 = lerp_spec(dot_spec(tl, xf, yf1), dot_spec(tr, xf - ONE, yf1), xf);
    let top2 = lerp_spec(dot_spec(tl, xf, yf2), dot_spec(tr, xf - ONE, yf2), xf);
    let bottom1 = lerp_spec(dot_spec(bl, xf, yf1 - ONE), dot_spec(br, xf - ONE, yf1 - ONE), xf);
    let bottom2 = lerp_spec(dot_spec(bl, xf, yf2 - ONE), dot_spec(br, xf - ONE, yf2 - ONE), xf);
    lemma_mix_slope(
        dot_spec(tl, xf, yf1),
        dot_spec(tr, xf - ONE, yf1),
        sx,
        dot_spec(tl, xf, yf2),
        dot_spec(tr, xf - ONE, yf2),
        sx,
        2 * step,
        0,
    );
    lemma_mix_slope(
        dot_spec(bl, xf, yf1 - ONE),
        dot_spec(br, xf - ONE, yf1 - ONE),
        sx,
        dot_spec(bl, xf, yf2 - ONE),
        dot_spec(br, xf - ONE, yf2 - ONE),
        sx,
        2 * step,
        0,
    );
    lemma_mix_range(dot_spec(tl, xf, yf1), dot_spec(tr, xf - ONE, yf1), sx);
    lemma_mix_range(dot_spec(bl, xf, yf1 - ONE), dot_spec(br, xf - ONE, yf1 - ONE), sx);
    lemma_mix_slope(top1, bottom1, s1, top2, bottom2, s2, 2 * step, 2 * step);
}

/// The value just before the right border of the plane tends to the value
/// at the left border: `eps` before the border, the two differ by at most
/// [`CELL_SLOPE`] times `eps` cells' worth of offset.
pub proof fn lemma_border_limit(rows: Vectors, eps: int, y: int)
    requires
        layer_ok(rows),
        1 <= eps,
        eps * rows[0].len() <= ONE,
    ensures
        distance(layer_sample(rows, ONE - eps, y), layer_sample(rows, 0, y)) <= CELL_SLOPE * (eps
            * rows[0].len()),
{
    let one = ONE as int;
    let w = rows[0].len() as int;
    let h = rows.len() as int;
    let row = cell_index(y, h);
    let yf = cell_offset(y, h);
    let below = next_index(row, h);
    lemma_cell_range(y, h);
    lemma_border_continuity(rows, y);
    // The point lies in the last column, `eps * w` before its right edge.
    assert((one - eps) * w == one * (w - 1) + (one - eps * w)) by (nonlinear_arith);
    assert(0 <= one - eps * w < one) by (nonlinear_arith)
        requires 1 <= eps, w >= 1, eps * w <= one;
    lemma_fundamental_div_mod_converse((one - eps) * w, one, w - 1, one - eps * w);
    lemma_small_mod((w - 1) as nat, w as nat);
    assert(cell_index(one - eps, w) == w - 1);
    assert(cell_offset(one - eps, w) == one - eps * w);
    lemma_mod_self_0(w);
    lemma_cell_slope_x(
        rows[row][w - 1],
        rows[row][0],
        rows[below][w - 1],
        rows[below][0],
        one - eps * w,
        one,
        yf,
    );
}

} // verus!
