//! One layer of gradient noise: a toroidal grid of gradient vectors, and
//! the smooth value that it gives at every point of the plane.

use vstd::prelude::*;
use vstd::arithmetic::div_mod::*;
use rand::rngs::StdRng;
use crate::fixed::{
    div_floor, lemma_mix_range, lemma_product_bound, lemma_smoothstep_range, lerp, lerp_spec,
    mod_floor, smoothstep_spec, Vec2, ONE,
};
use crate::gradient::{
    bounded_gradient, gradient, gradient_spec, lemma_gradient_is_unit, lemma_unit_gradient_bounded,
    unit_gradient, GRADIENT_LIMIT,
};
use crate::grid::{fits, fits_in_memory, grid_cols, grid_rows, Grid};
use crate::random::draw_angles;

verus! {

/// The content of a layer: its gradient vectors, row by row.
pub type Vectors = Seq<Seq<(int, int)>>;

/// The largest magnitude of a layer's value: twice [`GRADIENT_LIMIT`].
pub const LAYER_LIMIT: i64 = 2_828_432;

/// The cell of a grid of `n` cells per unit in which the coordinate `p`
/// falls, counted around the torus.
pub open spec fn cell_index(p: int, n: int) -> int {
    (p * n / (ONE as int)) % n
}

/// How far into its cell the coordinate `p` lies, as a fraction of the cell.
pub open spec fn cell_offset(p: int, n: int) -> int {
    (p * n) % (ONE as int)
}

/// The cell after cell `i` on a ring of `n` cells.
pub open spec fn next_index(i: int, n: int) -> int {
    (i + 1) % n
}

/// The dot product of a gradient with a fixed-point offset.
pub open spec fn dot_spec(g: (int, int), dx: int, dy: int) -> int {
    (g.0 * dx + g.1 * dy) / (ONE as int)
}

/// The noise value at the offset `(xf, yf)` inside a cell whose corners hold
/// the gradients `tl`, `tr` (first row) and `bl`, `br` (second row): the four
/// corner dot products, blended along x and then along y.
pub open spec fn cell_value(
    tl: (int, int),
    tr: (int, int),
    bl: (int, int),
    br: (int, int),
    xf: int,
    yf: int,
) -> int {
    lerp_spec(
        lerp_spec(dot_spec(tl, xf, yf), dot_spec(tr, xf - ONE, yf), xf),
        lerp_spec(dot_spec(bl, xf, yf - ONE), dot_spec(br, xf - ONE, yf - ONE), xf),
        yf,
    )
}

/// The noise value inside the cell at column `col` and row `row` of a layer,
/// whose right and lower neighbours are taken around the torus.
pub open spec fn cell_sample(rows: Vectors, col: int, row: int, xf: int, yf: int) -> int {
    let right = next_index(col, rows[0].len() as int);
    let below = next_index(row, rows.len() as int);
    cell_value(rows[row][col], rows[row][right], rows[below][col], rows[below][right], xf, yf)
}

/// The noise value of a layer at the point `(x, y)`.
pub open spec fn layer_sample(rows: Vectors, x: int, y: int) -> int {
    let w = rows[0].len() as int;
    let h = rows.len() as int;
    cell_sample(rows, cell_index(x, w), cell_index(y, h), cell_offset(x, w), cell_offset(y, h))
}

/// Whether `rows` is the content of a layer: a rectangle of at least one
/// cell whose vectors have bounded components.
pub open spec fn layer_ok(rows: Vectors) -> bool {
    &&& rows.len() >= 1
    &&& rows[0].len() >= 1
    &&& forall|r: int| 0 <= r < rows.len() ==> (#[trigger] rows[r]).len() == rows[0].len()
    &&& forall|r: int, c: int|
        0 <= r < rows.len() && 0 <= c < rows[0].len() ==> bounded_gradient(#[trigger] rows[r][c])
}

/// Whether every vector of `rows` has the length of a gradient.
pub open spec fn unit_gradients(rows: Vectors) -> bool {
    forall|r: int, c: int|
        0 <= r < rows.len() && 0 <= c < rows[r].len() ==> unit_gradient(#[trigger] rows[r][c])
}

/// The dot product of a bounded gradient with an offset inside a cell is
/// bounded by twice the gradient limit.
pub proof fn lemma_dot_range(g: (int, int), dx: int, dy: int)
    requires
        bounded_gradient(g),
        -ONE <= dx <= ONE,
        -ONE <= dy <= ONE,
    ensures
        -LAYER_LIMIT <= dot_spec(g, dx, dy) <= LAYER_LIMIT,
        -LAYER_LIMIT * ONE <= g.0 * dx + g.1 * dy <= LAYER_LIMIT * ONE,
{
    let one = ONE as int;
    let l = GRADIENT_LIMIT as int;
    lemma_product_bound(g.0, dx, l, one);
    lemma_product_bound(g.1, dy, l, one);
}

/// The coordinate `p` on a ring of `n` cells falls into one of the cells, at
/// an offset inside it.
pub proof fn lemma_cell_range(p: int, n: int)
    requires
        n >= 1,
    ensures
        0 <= cell_index(p, n) < n,
        0 <= cell_offset(p, n) < ONE,
        0 <= next_index(cell_index(p, n), n) < n,
{
}

/// The value inside a cell of a layer is bounded by twice the gradient limit.
pub proof fn lemma_cell_value_range(
    tl: (int, int),
    tr: (int, int),
    bl: (int, int),
    br: (int, int),
    xf: int,
    yf: int,
)
    requires
        bounded_gradient(tl),
        bounded_gradient(tr),
        bounded_gradient(bl),
        bounded_gradient(br),
        0 <= xf <= ONE,
        0 <= yf <= ONE,
    ensures
        -LAYER_LIMIT <= cell_value(tl, tr, bl, br, xf, yf) <= LAYER_LIMIT,
{
    lemma_dot_range(tl, xf, yf);
    lemma_dot_range(tr, xf - ONE, yf);
    lemma_dot_range(bl, xf, yf - ONE);
    lemma_dot_range(br, xf - ONE, yf - ONE);
    lemma_smoothstep_range(xf);
    lemma_smoothstep_range(yf);
    let sx = smoothstep_spec(xf);
    let sy = smoothstep_spec(yf);
    let top = lerp_spec(dot_spec(tl, xf, yf), dot_spec(tr, xf - ONE, yf), xf);
    let bottom = lerp_spec(dot_spec(bl, xf, yf - ONE), dot_spec(br, xf - ONE, yf - ONE), xf);
    lemma_mix_range(dot_spec(tl, xf, yf), dot_spec(tr, xf - ONE, yf), sx);
    lemma_mix_range(dot_spec(bl, xf, yf - ONE), dot_spec(br, xf - ONE, yf - ONE), sx);
    lemma_mix_range(top, bottom, sy);
}

/// Sampling depends on nothing but the gradients: two layers of one size
/// filled from the same angles have the same value at every point.
pub proof fn lemma_same_angles_same_values(
    first: GradientNoiseLayer,
    second: GradientNoiseLayer,
    width: nat,
    height: nat,
    angles: Seq<u16>,
    x: int,
    y: int,
)
    requires
        first@ == layer_from_angles(width, height, angles),
        second@ == layer_from_angles(width, height, angles),
    ensures
        layer_sample(first@, x, y) == layer_sample(second@, x, y),
{
}

/// The value of a layer that can be sampled is bounded at every point.
pub proof fn lemma_layer_sample_range(rows: Vectors, x: int, y: int)
    requires
        layer_ok(rows),
    ensures
        -LAYER_LIMIT <= layer_sample(rows, x, y) <= LAYER_LIMIT,
{
    let w = rows[0].len() as int;
    let h = rows.len() as int;
    let left = cell_index(x, w);
    let top = cell_index(y, h);
    let right = next_index(left, w);
    let below = next_index(top, h);
    lemma_cell_value_range(
        rows[top][left],
        rows[top][right],
        rows[below][left],
        rows[below][right],
        cell_offset(x, w),
        cell_offset(y, h),
    );
}

/// A layer whose vectors are all zero has the value zero everywhere.
pub proof fn lemma_zero_layer_sample(rows: Vectors, x: int, y: int)
    requires
        layer_ok(rows),
        forall|r: int, c: int|
            0 <= r < rows.len() && 0 <= c < rows[0].len() ==> #[trigger] rows[r][c] == (0int, 0int),
    ensures
        layer_sample(rows, x, y) == 0,
{
    let w = rows[0].len() as int;
    let h = rows.len() as int;
    let xf = cell_offset(x, w);
    let yf = cell_offset(y, h);
    lemma_smoothstep_range(xf);
    lemma_smoothstep_range(yf);
    lemma_mix_range(0, 0, smoothstep_spec(yf));
}

/// The dot product of a bounded gradient with an offset inside a cell.
fn dot(g: (i64, i64), dx: i64, dy: i64) -> (d: i64)
    requires
        bounded_gradient((g.0 as int, g.1 as int)),
        -ONE <= dx <= ONE,
        -ONE <= dy <= ONE,
    ensures
        d == dot_spec((g.0 as int, g.1 as int), dx as int, dy as int),
        -LAYER_LIMIT <= d <= LAYER_LIMIT,
{
    proof {
        lemma_product_bound(g.0 as int, dx as int, GRADIENT_LIMIT as int, ONE as int);
        lemma_product_bound(g.1 as int, dy as int, GRADIENT_LIMIT as int, ONE as int);
    }
    let sum: i64 = g.0 * dx + g.1 * dy;
    div_floor(sum as i128, ONE as i128) as i64
}

/// Finds the cell of a ring of `n` cells that holds the coordinate `p`, and
/// the offset of `p` inside it.
fn locate(p: i64, n: usize) -> (place: (usize, i64))
    requires
        n >= 1,
    ensures
        place.0 == cell_index(p as int, n as int),
        place.1 == cell_offset(p as int, n as int),
        place.0 < n,
        0 <= place.1 < ONE,
{
    proof {
        lemma_product_bound(p as int, n as int, 0x8000_0000_0000_0000, 0xffff_ffff_ffff_ffff);
    }
    let scaled: i128 = (p as i128) * (n as i128);
    let whole: i128 = div_floor(scaled, ONE as i128);
    let index: i128 = mod_floor(whole, n as i128);
    let offset: i128 = mod_floor(scaled, ONE as i128);
    (index as usize, offset as i64)
}

/// The index after `i` on a ring of `n`.
fn next(i: usize, n: usize) -> (j: usize)
    requires
        i < n,
    ensures
        j == next_index(i as int, n as int),
        j < n,
{
    if i + 1 == n {
        0
    } else {
        proof {
            lemma_small_mod((i + 1) as nat, n as nat);
        }
        i + 1
    }
}

/// The content of a layer of `width` by `height` cells whose gradients come
/// from `angles`, one for each cell, row by row.
pub open spec fn layer_from_angles(width: nat, height: nat, angles: Seq<u16>) -> Vectors {
    Seq::new(height, |r: int| Seq::new(width, |c: int| gradient_spec(angles[r * width + c] as int)))
}

/// The content of a layer of `width` by `height` cells that holds no
/// gradients yet: every vector is zero.
pub open spec fn blank_layer(width: nat, height: nat) -> Vectors {
    Seq::new(height, |r: int| Seq::new(width, |c: int| (0int, 0int)))
}

/// Whether a layer of `width` by `height` cells can be made.
pub open spec fn layer_size_ok(width: int, height: int) -> bool {
    width >= 1 && height >= 1 && fits_in_memory(height, width)
}

/// A toroidal grid of gradient vectors, which gives a smooth noise value at
/// every point of the plane. The x and y components lie in two tables of the
/// same shape.
pub struct GradientNoiseLayer {
    xs: Grid,
    ys: Grid,
}

impl View for GradientNoiseLayer {
    type V = Vectors;

    /// The gradient vectors, row by row.
    closed spec fn view(&self) -> Vectors {
        Seq::new(
            grid_rows(self.xs).len(),
            |r: int|
                Seq::new(
                    grid_cols(self.xs),
                    |c: int| (grid_rows(self.xs)[r][c] as int, grid_rows(self.ys)[r][c] as int),
                ),
        )
    }
}

impl GradientNoiseLayer {
    /// Whether the two tables are rectangles of one shape.
    pub closed spec fn consistent(self) -> bool {
        &&& self.xs.wf()
        &&& self.ys.wf()
        &&& grid_cols(self.xs) == grid_cols(self.ys)
        &&& grid_rows(self.xs).len() == grid_rows(self.ys).len()
        &&& fits_in_memory(grid_rows(self.xs).len() as int, grid_cols(self.xs) as int)
    }

    /// Whether the layer can be sampled: it has at least one cell and its
    /// vectors are bounded.
    pub open spec fn wf(self) -> bool {
        self.consistent() && layer_ok(self@)
    }

    /// The number of columns.
    pub open spec fn spec_width(self) -> nat {
        self@[0].len()
    }

    /// The number of rows.
    pub open spec fn spec_height(self) -> nat {
        self@.len()
    }

    /// A layer of `width` by `height` cells whose vectors are all zero, to be
    /// filled by [`Self::randomise`] or [`Self::set_angles`]. There is none
    /// for a size without cells, or too large for memory.
    pub fn new(width: usize, height: usize) -> (layer: Option<Self>)
        ensures
            layer is Some <==> layer_size_ok(width as int, height as int),
            layer is Some ==> layer->Some_0.wf() && layer->Some_0@ == blank_layer(
                width as nat,
                height as nat,
            ),
    {
        if width == 0 || height == 0 || !fits(height, width) {
            return None;
        }
        let made = GradientNoiseLayer {
            xs: Grid::filled(height, width, 0),
            ys: Grid::filled(height, width, 0),
        };
        assert(made@ =~~= blank_layer(width as nat, height as nat));
        Some(made)
    }

    /// Replaces every vector by the gradient for the angle of its cell:
    /// `angles` holds one angle per cell, row by row.
    pub fn set_angles(&mut self, angles: &Vec<u16>)
        requires
            old(self).wf(),
            angles@.len() == old(self).spec_width() * old(self).spec_height(),
        ensures
            final(self).wf(),
            final(self)@ == layer_from_angles(old(self).spec_width(), old(self).spec_height(), angles@),
            unit_gradients(final(self)@),
    {
        let w: usize = self.width();
        let h: usize = self.height();
        let mut i: usize = 0;
        let mut r: usize = 0;
        while r < h
            invariant
                r <= h,
                i == r * w,
                w >= 1,
                angles@.len() == w * h,
                self.consistent(),
                grid_cols(self.xs) == w,
                grid_rows(self.xs).len() == h,
                forall|rr: int, cc: int|
                    0 <= rr < r && 0 <= cc < w ==> (
                    #[trigger] grid_rows(self.xs)[rr][cc] as int,
                    grid_rows(self.ys)[rr][cc] as int,
                    ) == gradient_spec(angles@[rr * w + cc] as int),
            decreases h - r,
        {
            let mut c: usize = 0;
            while c < w
                invariant
                    r < h,
                    c <= w,
                    i == r * w + c,
                    w >= 1,
                    angles@.len() == w * h,
                    self.consistent(),
                    grid_cols(self.xs) == w,
                    grid_rows(self.xs).len() == h,
                    forall|rr: int, cc: int|
                        0 <= rr < r && 0 <= cc < w ==> (
                        #[trigger] grid_rows(self.xs)[rr][cc] as int,
                        grid_rows(self.ys)[rr][cc] as int,
                        ) == gradient_spec(angles@[rr * w + cc] as int),
                    forall|cc: int|
                        0 <= cc < c ==> (
                        #[trigger] grid_rows(self.xs)[r as int][cc] as int,
                        grid_rows(self.ys)[r as int][cc] as int,
                        ) == gradient_spec(angles@[r * w + cc] as int),
                decreases w - c,
            {
                assert(r * w + c < w * h) by (nonlinear_arith)
                    requires r < h, c < w;
                let g: (i64, i64) = gradient(angles[i]);
                self.xs.set(r, c, g.0);
                self.ys.set(r, c, g.1);
                c = c + 1;
                i = i + 1;
            }
            assert((r + 1) * w == r * w + w) by (nonlinear_arith);
            r = r + 1;
        }
        proof {
            let target = layer_from_angles(w as nat, h as nat, angles@);
            assert(self@ =~~= target);
            assert forall|rr: int, cc: int| 0 <= rr < self@.len() && 0 <= cc < self@[rr].len() implies unit_gradient(
                #[trigger] self@[rr][cc],
            ) by {
                let angle = angles@[rr * w + cc];
                lemma_gradient_is_unit(angle as int);
            }
            assert forall|rr: int, cc: int| 0 <= rr < self@.len() && 0 <= cc < self@[0].len() implies bounded_gradient(
                #[trigger] self@[rr][cc],
            ) by {
                lemma_unit_gradient_bounded(self@[rr][cc]);
            }
        }
    }

    /// Replaces every vector by the gradient for an angle drawn from `rng`,
    /// cell after cell, row by row.
    pub fn randomise(&mut self, rng: &mut StdRng)
        requires
            old(self).wf(),
        ensures
            final(self).wf(),
            final(self).spec_width() == old(self).spec_width(),
            final(self).spec_height() == old(self).spec_height(),
            unit_gradients(final(self)@),
            exists|angles: Seq<u16>|
                angles.len() == old(self).spec_width() * old(self).spec_height() && final(self)@
                    == layer_from_angles(old(self).spec_width(), old(self).spec_height(), angles),
    {
        let w: usize = self.width();
        let h: usize = self.height();
        assert(w * h <= usize::MAX) by (nonlinear_arith)
            requires h * w * 8 <= isize::MAX, w >= 1, h >= 1;
        let angles: Vec<u16> = draw_angles(rng, w * h);
        self.set_angles(&angles);
    }

    /// The number of columns.
    pub fn width(&self) -> (w: usize)
        requires
            self.wf(),
        ensures
            w == self.spec_width(),
            w >= 1,
    {
        self.xs.ncols()
    }

    /// The number of rows.
    pub fn height(&self) -> (h: usize)
        requires
            self.wf(),
        ensures
            h == self.spec_height(),
            h >= 1,
    {
        self.xs.nrows()
    }

    /// The gradient vector at a row and column.
    pub fn gradient_at(&self, row: usize, col: usize) -> (g: (i64, i64))
        requires
            self.wf(),
            row < self.spec_height(),
            col < self.spec_width(),
        ensures
            (g.0 as int, g.1 as int) == self@[row as int][col as int],
            bounded_gradient((g.0 as int, g.1 as int)),
    {
        (self.xs.get(row, col), self.ys.get(row, col))
    }

    /// The noise value at `position`: the gradients at the four corners of
    /// the cell around it, each dotted with the offset from its corner and
    /// blended by smoothstep. Columns and rows wrap around, so the plane is
    /// tiled by the layer with period `ONE` along both axes.
    pub fn sample(&self, position: Vec2) -> (v: i64)
        requires
            self.wf(),
        ensures
            v == layer_sample(self@, position.x as int, position.y as int),
            -LAYER_LIMIT <= v <= LAYER_LIMIT,
    {
        let w: usize = self.width();
        let h: usize = self.height();
        let (left, xf) = locate(position.x, w);
        let (top, yf) = locate(position.y, h);
        let right: usize = next(left, w);
        let bottom: usize = next(top, h);
        let top_left = self.gradient_at(top, left);
        let top_right = self.gradient_at(top, right);
        let bottom_left = self.gradient_at(bottom, left);
        let bottom_right = self.gradient_at(bottom, right);
        let top_left_gradient: i64 = dot(top_left, xf, yf);
        let top_right_gradient: i64 = dot(top_right, xf - ONE, yf);
        let bottom_left_gradient: i64 = dot(bottom_left, xf, yf - ONE);
        let bottom_right_gradient: i64 = dot(bottom_right, xf - ONE, yf - ONE);
        let top_gradient: i64 = lerp(top_left_gradient, top_right_gradient, xf);
        let bottom_gradient: i64 = lerp(bottom_left_gradient, bottom_right_gradient, xf);
        lerp(top_gradient, bottom_gradient, yf)
    }
}

} // verus!
