//! The elevation grid and its generation: sample the noise over every cell,
//! normalise to the unit interval, and optionally shape into an island.

use vstd::prelude::*;
use crate::falloff::{
    falloff_scale, lemma_falloff_centre, lemma_falloff_monotone, lemma_shaped_value_range, ring_sq,
    shaped_value,
};
use crate::fixed::{div_floor, lemma_product_bound, lemma_rescale_range, rescale_spec, Vec2, ONE};
use crate::grid::{
    bounds_above, bounds_below, fits_in_memory, grid_cols, grid_rows, occurs_in, rectangular, Grid,
};
use crate::layer::layer_ok;
use crate::perlin_noise::{
    lemma_weightless_sample, lemma_zero_gradients_sample, noise_sample, PerlinNoise, Stack,
};

verus! {

/// What can go wrong in making or drawing a terrain.
#[derive(Clone, Copy, Debug, PartialEq, Eq, Structural)]
pub enum TerrainError {
    /// Every sampled value is the same (or there is none), so there is no
    /// range to normalise over.
    DegenerateField,
    /// A pixel buffer does not have four bytes for every cell.
    BufferSizeMismatch,
}

/// The least value among the cells of `rows`, where there is a cell.
pub open spec fn least(rows: Seq<Seq<i64>>) -> int {
    choose|m: int| occurs_in(rows, m) && bounds_below(rows, m)
}

/// The greatest value among the cells of `rows`, where there is a cell.
pub open spec fn greatest(rows: Seq<Seq<i64>>) -> int {
    choose|m: int| occurs_in(rows, m) && bounds_above(rows, m)
}

/// Whether all cells of `rows` hold one value; true also where there is no cell.
pub open spec fn flat(rows: Seq<Seq<i64>>) -> bool {
    forall|r1: int, c1: int, r2: int, c2: int|
        0 <= r1 < rows.len() && 0 <= c1 < rows[r1].len() && 0 <= r2 < rows.len() && 0 <= c2
            < rows[r2].len() ==> #[trigger] rows[r1][c1] == #[trigger] rows[r2][c2]
}

/// Whether the cells of `rows` span the unit interval exactly: the least is
/// zero and the greatest is one.
pub open spec fn unit_span(rows: Seq<Seq<i64>>) -> bool {
    &&& occurs_in(rows, 0)
    &&& occurs_in(rows, ONE as int)
    &&& bounds_below(rows, 0)
    &&& bounds_above(rows, ONE as int)
}

/// `rows` with every value rescaled from between the least and the greatest
/// to the unit interval.
pub open spec fn normalised(rows: Seq<Seq<i64>>) -> Seq<Seq<i64>> {
    Seq::new(
        rows.len(),
        |r: int|
            Seq::new(
                rows[r].len(),
                |c: int| rescale_spec(rows[r][c] as int, least(rows), greatest(rows)) as i64,
            ),
    )
}

/// The fixed-point coordinate of cell `i` of `n`: `i / n`.
pub open spec fn coordinate(i: int, n: int) -> int {
    i * ONE / n
}

/// The value of `field` at every cell of a grid of `width` by `height`.
pub open spec fn raw_samples(
    field: Stack,
    width: nat,
    height: nat,
) -> Seq<Seq<i64>> {
    Seq::new(
        height,
        |r: int|
            Seq::new(
                width,
                |c: int|
                    noise_sample(field, coordinate(c, width as int), coordinate(r, height as int)) as i64,
            ),
    )
}

/// `rows`, of `width` columns, with the falloff applied to every cell.
pub open spec fn shaped(rows: Seq<Seq<i64>>, width: nat) -> Seq<Seq<i64>> {
    Seq::new(
        rows.len(),
        |r: int|
            Seq::new(
                rows[r].len(),
                |c: int| shaped_value(rows[r][c] as int, c, r, width as int, rows.len() as int) as i64,
            ),
    )
}

/// There is at most one least value.
pub proof fn lemma_least_is(rows: Seq<Seq<i64>>, m: int)
    requires
        occurs_in(rows, m),
        bounds_below(rows, m),
    ensures
        least(rows) == m,
{
}

/// There is at most one greatest value.
pub proof fn lemma_greatest_is(rows: Seq<Seq<i64>>, m: int)
    requires
        occurs_in(rows, m),
        bounds_above(rows, m),
    ensures
        greatest(rows) == m,
{
}

/// Cells that all lie between two equal bounds are flat; cells of which one
/// is below another are not.
pub proof fn lemma_flat_iff(rows: Seq<Seq<i64>>, lo: int, hi: int)
    requires
        occurs_in(rows, lo),
        bounds_below(rows, lo),
        occurs_in(rows, hi),
        bounds_above(rows, hi),
    ensures
        lo <= hi,
        flat(rows) <==> lo == hi,
{
}

/// Normalising cells that are not flat makes them span the unit interval
/// exactly.
pub proof fn lemma_normalised_span(rows: Seq<Seq<i64>>, lo: int, hi: int)
    requires
        occurs_in(rows, lo),
        bounds_below(rows, lo),
        occurs_in(rows, hi),
        bounds_above(rows, hi),
        lo < hi,
    ensures
        unit_span(normalised(rows)),
{
    lemma_least_is(rows, lo);
    lemma_greatest_is(rows, hi);
    let out = normalised(rows);
    let (r1, c1) = choose|r: int, c: int|
        0 <= r < rows.len() && 0 <= c < rows[r].len() && #[trigger] rows[r][c] == lo;
    let (r2, c2) = choose|r: int, c: int|
        0 <= r < rows.len() && 0 <= c < rows[r].len() && #[trigger] rows[r][c] == hi;
    lemma_rescale_range(lo, lo, hi);
    assert(out[r1][c1] == 0);
    assert(out[r2][c2] == ONE);
    assert forall|r: int, c: int| 0 <= r < out.len() && 0 <= c < out[r].len() implies 0
        <= #[trigger] out[r][c] <= ONE by {
        lemma_rescale_range(rows[r][c] as int, lo, hi);
    }
}

/// A field whose value is the same everywhere gives flat samples on every
/// grid, so no terrain can be generated from it.
pub proof fn lemma_constant_field_is_flat(
    field: Stack,
    width: nat,
    height: nat,
    level: int,
)
    requires
        forall|x: int, y: int| #[trigger] noise_sample(field, x, y) == level,
    ensures
        flat(raw_samples(field, width, height)),
{
}

/// No terrain comes from a field without weight: whatever the grid, its
/// samples are flat, which [`generate`] refuses.
pub proof fn lemma_weightless_field_is_degenerate(field: Stack, width: nat, height: nat)
    requires
        forall|i: int| 0 <= i < field.len() ==> (#[trigger] field[i]).1 == 0,
    ensures
        flat(raw_samples(field, width, height)),
{
    assert forall|x: int, y: int| #[trigger] noise_sample(field, x, y) == 0 by {
        lemma_weightless_sample(field, x, y);
    }
    lemma_constant_field_is_flat(field, width, height, 0);
}

/// No terrain comes from a field without gradients: whatever the grid, its
/// samples are flat, which [`generate`] refuses.
pub proof fn lemma_blank_field_is_degenerate(field: Stack, width: nat, height: nat)
    requires
        forall|i: int| 0 <= i < field.len() ==> layer_ok(#[trigger] field[i].0),
        forall|i: int, r: int, c: int|
            0 <= i < field.len() && 0 <= r < field[i].0.len() && 0 <= c < field[i].0[0].len()
                ==> #[trigger] field[i].0[r][c] == (0int, 0int),
    ensures
        flat(raw_samples(field, width, height)),
{
    assert forall|x: int, y: int| #[trigger] noise_sample(field, x, y) == 0 by {
        lemma_zero_gradients_sample(field, x, y);
    }
    lemma_constant_field_is_flat(field, width, height, 0);
}

/// On a terrain that is uniform at a level that is not negative, the falloff
/// leaves an island: of two cells, the one further from the centre of the
/// grid is no higher, and a cell at the exact centre keeps the level.
pub proof fn lemma_falloff_of_uniform_terrain(
    rows: Seq<Seq<i64>>,
    width: nat,
    level: int,
    x1: int,
    y1: int,
    x2: int,
    y2: int,
)
    requires
        rectangular(rows, width),
        level >= 0,
        forall|r: int, c: int| 0 <= r < rows.len() && 0 <= c < width ==> #[trigger] rows[r][c] == level,
        0 <= x1 < width,
        0 <= y1 < rows.len(),
        0 <= x2 < width,
        0 <= y2 < rows.len(),
        ring_sq(x1, y1, width as int, rows.len() as int) <= ring_sq(
            x2,
            y2,
            width as int,
            rows.len() as int,
        ),
    ensures
        shaped(rows, width)[y1][x1] >= shaped(rows, width)[y2][x2],
        2 * x1 == width && 2 * y1 == rows.len() ==> shaped(rows, width)[y1][x1] == level,
{
    let w = width as int;
    let h = rows.len() as int;
    lemma_shaped_value_range(level, x1, y1, w, h);
    lemma_shaped_value_range(level, x2, y2, w, h);
    lemma_falloff_monotone(level, x1, y1, x2, y2, w, h);
    if 2 * x1 == width && 2 * y1 == rows.len() {
        lemma_falloff_centre(level, x1, y1, w, h);
    }
}

/// A grid of elevations: fixed-point numbers, in the unit interval once the
/// terrain has been generated.
pub struct Terrain {
    height_map: Grid,
}

impl View for Terrain {
    type V = Seq<Seq<i64>>;

    /// The rows of elevations, first row first.
    closed spec fn view(&self) -> Seq<Seq<i64>> {
        grid_rows(self.height_map)
    }
}

impl Terrain {
    /// The number of columns.
    pub closed spec fn spec_width(self) -> nat {
        grid_cols(self.height_map)
    }

    /// The number of rows.
    pub open spec fn spec_height(self) -> nat {
        self@.len()
    }

    /// Whether the grid is a rectangle that fits in memory.
    pub open spec fn wf(self) -> bool {
        &&& rectangular(self@, self.spec_width())
        &&& fits_in_memory(self.spec_height() as int, self.spec_width() as int)
    }

    /// A terrain of `width` by `height` cells, all at elevation zero.
    pub fn new(width: usize, height: usize) -> (terrain: Self)
        requires
            fits_in_memory(height as int, width as int),
        ensures
            terrain.wf(),
            terrain.spec_width() == width,
            terrain@ == Seq::new(height as nat, |r: int| Seq::new(width as nat, |c: int| 0i64)),
    {
        Terrain { height_map: Grid::filled(height, width, 0) }
    }

    /// The number of columns.
    pub fn width(&self) -> (w: usize)
        ensures
            w == self.spec_width(),
    {
        self.height_map.ncols()
    }

    /// The number of rows.
    pub fn height(&self) -> (h: usize)
        ensures
            h == self.spec_height(),
    {
        self.height_map.nrows()
    }

    /// The elevation of the cell in column `x` of row `y`.
    pub fn get(&self, x: usize, y: usize) -> (v: i64)
        requires
            x < self.spec_width(),
            y < self.spec_height(),
        ensures
            v == self@[y as int][x as int],
    {
        self.height_map.get(y, x)
    }

    /// Sets the elevation of the cell in column `x` of row `y`.
    pub fn set(&mut self, x: usize, y: usize, v: i64)
        requires
            old(self).wf(),
            x < old(self).spec_width(),
            y < old(self).spec_height(),
        ensures
            final(self).wf(),
            final(self).spec_width() == old(self).spec_width(),
            final(self)@ == old(self)@.update(y as int, old(self)@[y as int].update(x as int, v)),
    {
        self.height_map.set(y, x, v);
    }

    /// Rescales the elevations so that the least becomes zero and the
    /// greatest one. Where all are the same, or there is none, that cannot be
    /// done: the terrain is left as it is and the error says so.
    pub fn normalise(&mut self) -> (done: Result<(), TerrainError>)
        requires
            old(self).wf(),
        ensures
            final(self).wf(),
            final(self).spec_width() == old(self).spec_width(),
            done is Err <==> flat(old(self)@),
            done is Err ==> done == Err::<(), TerrainError>(TerrainError::DegenerateField) && final(self)@
                == old(self)@,
            done is Ok ==> final(self)@ == normalised(old(self)@) && unit_span(final(self)@),
    {
        let low = self.height_map.min();
        let high = self.height_map.max();
        match (low, high) {
            (Ok(lo), Ok(hi)) => {
                proof {
                    lemma_flat_iff(self@, lo as int, hi as int);
                }
                if lo == hi {
                    return Err(TerrainError::DegenerateField);
                }
                self.height_map.rescale_cells(lo, hi);
                proof {
                    lemma_least_is(old(self)@, lo as int);
                    lemma_greatest_is(old(self)@, hi as int);
                    lemma_normalised_span(old(self)@, lo as int, hi as int);
                    assert forall|r: int, c: int|
                        0 <= r < old(self)@.len() && 0 <= c < old(self)@[r].len() implies #[trigger] self@[r][c]
                        == normalised(old(self)@)[r][c] by {
                        lemma_rescale_range(old(self)@[r][c] as int, lo as int, hi as int);
                    }
                    assert(self@ =~~= normalised(old(self)@));
                }
                Ok(())
            },
            _ => Err(TerrainError::DegenerateField),
        }
    }

    /// Shapes the terrain into an island: every elevation is scaled by a
    /// Gaussian of its cell's distance from the centre of the grid, whose
    /// radius is the smaller side divided by [`FALLOFF_RADIUS_DIVISOR`].
    pub fn apply_falloff(&mut self)
        requires
            old(self).wf(),
        ensures
            final(self).wf(),
            final(self).spec_width() == old(self).spec_width(),
            final(self)@ == shaped(old(self)@, old(self).spec_width()),
    {
        let w: usize = self.width();
        let h: usize = self.height();
        let mut y: usize = 0;
        while y < h
            invariant
                y <= h,
                self.wf(),
                self.spec_width() == w,
                self@.len() == h,
                w == old(self).spec_width(),
                h == old(self)@.len(),
                old(self).wf(),
                forall|r: int, c: int|
                    0 <= r < y && 0 <= c < w ==> #[trigger] self@[r][c] == shaped_value(
                        old(self)@[r][c] as int,
                        c,
                        r,
                        w as int,
                        h as int,
                    ),
                forall|r: int, c: int|
                    y <= r < h && 0 <= c < w ==> #[trigger] self@[r][c] == old(self)@[r][c],
            decreases h - y,
        {
            let mut x: usize = 0;
            while x < w
                invariant
                    y < h,
                    x <= w,
                    self.wf(),
                    self.spec_width() == w,
                    self@.len() == h,
                    w == old(self).spec_width(),
                    h == old(self)@.len(),
                    old(self).wf(),
                    forall|r: int, c: int|
                        0 <= r < y && 0 <= c < w ==> #[trigger] self@[r][c] == shaped_value(
                            old(self)@[r][c] as int,
                            c,
                            r,
                            w as int,
                            h as int,
                        ),
                    forall|c: int|
                        0 <= c < x ==> #[trigger] self@[y as int][c] == shaped_value(
                            old(self)@[y as int][c] as int,
                            c,
                            y as int,
                            w as int,
                            h as int,
                        ),
                    forall|c: int| x <= c < w ==> #[trigger] self@[y as int][c] == old(self)@[y as int][c],
                    forall|r: int, c: int|
                        y < r < h && 0 <= c < w ==> #[trigger] self@[r][c] == old(self)@[r][c],
                decreases w - x,
            {
                let v: i64 = self.get(x, y);
                let scale: i64 = falloff_scale(x, y, w, h);
                proof {
                    lemma_shaped_value_range(v as int, x as int, y as int, w as int, h as int);
                    lemma_product_bound(v as int, scale as int, 0x8000_0000_0000_0000, ONE as int);
                }
                let scaled: i128 = div_floor((v as i128) * (scale as i128), ONE as i128);
                self.set(x, y, scaled as i64);
                x = x + 1;
            }
            y = y + 1;
        }
        proof {
            assert(self@ =~~= shaped(old(self)@, w as nat));
        }
    }
}

/// The fixed-point coordinate of cell `i` of `n`.
fn coordinate_of(i: usize, n: usize) -> (p: i64)
    requires
        i < n,
    ensures
        p == coordinate(i as int, n as int),
        0 <= p < ONE,
{
    proof {
        vstd::arithmetic::div_mod::lemma_multiply_divide_lt(i * ONE, n as int, ONE as int);
    }
    let scaled: u128 = (i as u128) * (ONE as u128);
    (scaled / (n as u128)) as i64
}

/// Generates a terrain of `width` by `height` cells from a noise field.
///
/// Every cell `(x, y)` takes the field's value at `(x / width, y / height)`;
/// the values are normalised so that the least becomes zero and the greatest
/// one; and with `falloff` the result is shaped into an island, after which
/// it need no longer reach one. A field that gives every cell the same value
/// has no range to normalise over, and is refused.
pub fn generate(field: &PerlinNoise, width: usize, height: usize, falloff: bool) -> (made: Result<
    Terrain,
    TerrainError,
>)
    requires
        field.wf(),
        fits_in_memory(height as int, width as int),
    ensures
        made is Err <==> flat(raw_samples(field@, width as nat, height as nat)),
        made is Err ==> made->Err_0 == TerrainError::DegenerateField,
        made is Ok ==> {
            let terrain = made->Ok_0;
            let plain = normalised(raw_samples(field@, width as nat, height as nat));
            &&& terrain.wf()
            &&& terrain.spec_width() == width
            &&& terrain.spec_height() == height
            &&& unit_span(plain)
            &&& terrain@ == if falloff {
                shaped(plain, width as nat)
            } else {
                plain
            }
        },
{
    let ghost raw = raw_samples(field@, width as nat, height as nat);
    let mut terrain = Terrain::new(width, height);
    let mut y: usize = 0;
    while y < height
        invariant
            y <= height,
            field.wf(),
            terrain.wf(),
            terrain.spec_width() == width,
            terrain@.len() == height,
            raw == raw_samples(field@, width as nat, height as nat),
            forall|r: int, c: int| 0 <= r < y && 0 <= c < width ==> #[trigger] terrain@[r][c] == raw[r][c],
        decreases height - y,
    {
        let mut x: usize = 0;
        while x < width
            invariant
                y < height,
                x <= width,
                field.wf(),
                terrain.wf(),
                terrain.spec_width() == width,
                terrain@.len() == height,
                raw == raw_samples(field@, width as nat, height as nat),
                forall|r: int, c: int|
                    0 <= r < y && 0 <= c < width ==> #[trigger] terrain@[r][c] == raw[r][c],
                forall|c: int| 0 <= c < x ==> #[trigger] terrain@[y as int][c] == raw[y as int][c],
            decreases width - x,
        {
            let position = Vec2 { x: coordinate_of(x, width), y: coordinate_of(y, height) };
            let value: i64 = field.sample(position);
            terrain.set(x, y, value);
            x = x + 1;
        }
        y = y + 1;
    }
    assert(terrain@ =~~= raw);
    match terrain.normalise() {
        Err(e) => Err(e),
        Ok(()) => {
            if falloff {
                terrain.apply_falloff();
            }
            Ok(terrain)
        },
    }
}

} // verus!
