//! A rectangular table of integers, stored in an `ndarray::Array2`.
//!
//! This file holds the whole boundary with the `ndarray` and `ndarray-stats`
//! crates. Verus does not look inside a [`Grid`]: what it knows of one is
//! what the contracts below say over [`grid_rows`] and [`grid_cols`], and those
//! contracts restate the crates' documentation without proof.

use vstd::prelude::*;
use ndarray::Array2;
use ndarray_stats::errors::MinMaxError;
use ndarray_stats::QuantileExt;
use crate::fixed::{rescale, rescale_spec};

verus! {

/// A table of `i64` cells with a fixed number of rows and columns.
#[verifier::external_body]
pub struct Grid {
    cells: Array2<i64>,
}

/// The failure of `ndarray-stats` to find a least or greatest element.
#[verifier::external_type_specification]
#[verifier::external_body]
pub struct ExMinMaxError(MinMaxError);

/// The rows of a grid from first to last, each from its first column to its last.
pub uninterp spec fn grid_rows(g: Grid) -> Seq<Seq<i64>>;

/// The number of columns of a grid, which it has even when it has no rows.
pub uninterp spec fn grid_cols(g: Grid) -> nat;

/// Whether a table of `rows` by `cols` cells of eight bytes can be allocated:
/// the bytes of its cells, and each side of a table without cells, must not
/// exceed `isize::MAX`.
pub open spec fn fits_in_memory(rows: int, cols: int) -> bool {
    if rows == 0 {
        cols <= isize::MAX
    } else if cols == 0 {
        rows <= isize::MAX
    } else {
        rows * cols * 8 <= isize::MAX
    }
}

/// Whether every row of `rows` has `cols` cells.
pub open spec fn rectangular(rows: Seq<Seq<i64>>, cols: nat) -> bool {
    forall|r: int| 0 <= r < rows.len() ==> (#[trigger] rows[r]).len() == cols
}

/// Whether `v` is the value of some cell of `rows`.
pub open spec fn occurs_in(rows: Seq<Seq<i64>>, v: int) -> bool {
    exists|r: int, c: int| 0 <= r < rows.len() && 0 <= c < rows[r].len() && #[trigger] rows[r][c] == v
}

/// Whether no cell of `rows` is below `v`.
pub open spec fn bounds_below(rows: Seq<Seq<i64>>, v: int) -> bool {
    forall|r: int, c: int| 0 <= r < rows.len() && 0 <= c < rows[r].len() ==> v <= #[trigger] rows[r][c]
}

/// Whether no cell of `rows` is above `v`.
pub open spec fn bounds_above(rows: Seq<Seq<i64>>, v: int) -> bool {
    forall|r: int, c: int| 0 <= r < rows.len() && 0 <= c < rows[r].len() ==> #[trigger] rows[r][c] <= v
}

/// Decides [`fits_in_memory`].
pub fn fits(rows: usize, cols: usize) -> (b: bool)
    ensures
        b == fits_in_memory(rows as int, cols as int),
{
    if rows == 0 {
        cols <= isize::MAX as usize
    } else if cols == 0 {
        rows <= isize::MAX as usize
    } else {
        let limit: usize = (isize::MAX as usize) / 8;
        match rows.checked_mul(cols) {
            Some(cells) => cells <= limit,
            None => false,
        }
    }
}

impl Grid {
    /// Whether the grid is a rectangle, as every `Array2` is.
    pub open spec fn wf(self) -> bool {
        rectangular(grid_rows(self), grid_cols(self))
    }

    /// Calls `Array2::from_elem`. The result has the given shape and holds
    /// `value` in every cell. `ndarray` panics where the product of the
    /// non-zero axis lengths exceeds `isize::MAX`, and the allocation of the
    /// cells where their bytes do: the precondition excludes both.
    #[verifier::external_body]
    pub(crate) fn filled(rows: usize, cols: usize, value: i64) -> (g: Grid)
        requires
            fits_in_memory(rows as int, cols as int),
        ensures
            grid_cols(g) == cols,
            grid_rows(g) == Seq::new(rows as nat, |r: int| Seq::new(cols as nat, |c: int| value)),
    {
        Grid { cells: Array2::from_elem((rows, cols), value) }
    }

    /// Calls `ArrayBase::nrows`: the length of the first axis.
    #[verifier::external_body]
    pub(crate) fn nrows(&self) -> (n: usize)
        ensures
            n == grid_rows(*self).len(),
    {
        self.cells.nrows()
    }

    /// Calls `ArrayBase::ncols`: the length of the second axis.
    #[verifier::external_body]
    pub(crate) fn ncols(&self) -> (n: usize)
        ensures
            n == grid_cols(*self),
    {
        self.cells.ncols()
    }

    /// Indexes the array by `(row, column)`. `ndarray` panics on an index
    /// outside the shape, which the precondition excludes.
    #[verifier::external_body]
    pub(crate) fn get(&self, r: usize, c: usize) -> (v: i64)
        requires
            r < grid_rows(*self).len(),
            c < grid_cols(*self),
        ensures
            v == grid_rows(*self)[r as int][c as int],
    {
        self.cells[(r, c)]
    }

    /// Assigns through the array's mutable index by `(row, column)`: that one
    /// cell changes and the shape stays.
    #[verifier::external_body]
    pub(crate) fn set(&mut self, r: usize, c: usize, v: i64)
        requires
            r < grid_rows(*old(self)).len(),
            c < grid_cols(*old(self)),
        ensures
            grid_cols(*final(self)) == grid_cols(*old(self)),
            grid_rows(*final(self)) == grid_rows(*old(self)).update(
                r as int,
                grid_rows(*old(self))[r as int].update(c as int, v),
            ),
    {
        self.cells[(r, c)] = v;
    }

    /// Calls `QuantileExt::min`. It fails exactly on an array without cells
    /// (integers are totally ordered, so no comparison is undefined);
    /// otherwise it gives a cell's value that no cell is below.
    #[verifier::external_body]
    pub(crate) fn min(&self) -> (m: Result<i64, MinMaxError>)
        ensures
            m is Err <==> (grid_rows(*self).len() == 0 || grid_cols(*self) == 0),
            m is Ok ==> occurs_in(grid_rows(*self), m->Ok_0 as int) && bounds_below(
                grid_rows(*self),
                m->Ok_0 as int,
            ),
    {
        match self.cells.min() {
            Ok(v) => Ok(*v),
            Err(e) => Err(e),
        }
    }

    /// Calls `QuantileExt::max`. It fails exactly on an array without cells;
    /// otherwise it gives a cell's value that no cell is above.
    #[verifier::external_body]
    pub(crate) fn max(&self) -> (m: Result<i64, MinMaxError>)
        ensures
            m is Err <==> (grid_rows(*self).len() == 0 || grid_cols(*self) == 0),
            m is Ok ==> occurs_in(grid_rows(*self), m->Ok_0 as int) && bounds_above(
                grid_rows(*self),
                m->Ok_0 as int,
            ),
    {
        match self.cells.max() {
            Ok(v) => Ok(*v),
            Err(e) => Err(e),
        }
    }

    /// Calls `ArrayBase::mapv_inplace` with [`rescale`] from `lo` and `hi`:
    /// every cell is replaced by its rescaled value and the shape stays.
    #[verifier::external_body]
    pub(crate) fn rescale_cells(&mut self, lo: i64, hi: i64)
        requires
            lo < hi,
            bounds_below(grid_rows(*old(self)), lo as int),
            bounds_above(grid_rows(*old(self)), hi as int),
        ensures
            grid_cols(*final(self)) == grid_cols(*old(self)),
            grid_rows(*final(self)).len() == grid_rows(*old(self)).len(),
            forall|r: int|
                0 <= r < grid_rows(*old(self)).len() ==> (#[trigger] grid_rows(*final(self))[r]).len()
                    == grid_rows(*old(self))[r].len(),
            forall|r: int, c: int|
                0 <= r < grid_rows(*old(self)).len() && 0 <= c < grid_rows(*old(self))[r].len()
                    ==> #[trigger] grid_rows(*final(self))[r][c] == rescale_spec(
                    grid_rows(*old(self))[r][c] as int,
                    lo as int,
                    hi as int,
                ),
    {
        self.cells.mapv_inplace(|v| rescale(v, lo, hi));
    }
}

} // verus!
