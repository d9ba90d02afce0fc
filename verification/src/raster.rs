//! Writers that turn a terrain into pixels: rows from the top, four bytes a
//! pixel in the order red, green, blue, alpha.

use vstd::prelude::*;
use vstd::arithmetic::div_mod::*;
use crate::colour::{classify, classify_spec, Rgb};
use crate::fixed::ONE;
use crate::terrain::{Terrain, TerrainError};

verus! {

/// The number of bytes of a pixel.
pub const CHANNELS: usize = 4;

/// The alpha byte of every pixel written: opaque.
pub const OPAQUE: u8 = 255;

/// The value of every byte of a line drawn across a picture.
pub const LINE_LEVEL: u8 = 150;

/// The grey level of an elevation: `value * 255`, rounded to the nearest
/// integer, and kept within a byte for an elevation outside the unit interval.
pub open spec fn grey_level(value: int) -> int {
    if value <= 0 {
        0
    } else if value >= ONE {
        255
    } else {
        (value * 255 + ONE / 2) / (ONE as int)
    }
}

/// The grey level of an elevation.
pub fn grey(value: i64) -> (level: u8)
    ensures
        level == grey_level(value as int),
{
    if value <= 0 {
        0
    } else if value >= ONE {
        255
    } else {
        ((value * 255 + ONE / 2) / ONE) as u8
    }
}

/// Byte `i` of the grey picture of `rows`, of `width` columns.
pub open spec fn grey_byte(rows: Seq<Seq<i64>>, width: int, i: int) -> u8 {
    let cell = i / 4;
    if i % 4 == 3 {
        OPAQUE
    } else {
        grey_level(rows[cell / width][cell % width] as int) as u8
    }
}

/// Byte `i` of the palette picture of `rows`, of `width` columns.
pub open spec fn palette_byte(rows: Seq<Seq<i64>>, width: int, i: int) -> u8 {
    let cell = i / 4;
    let colour = classify_spec(rows[cell / width][cell % width] as int);
    if i % 4 == 0 {
        colour.r
    } else if i % 4 == 1 {
        colour.g
    } else if i % 4 == 2 {
        colour.b
    } else {
        OPAQUE
    }
}

/// The grey picture of `rows`, of `width` columns.
pub open spec fn grey_picture(rows: Seq<Seq<i64>>, width: nat) -> Seq<u8> {
    Seq::new(rows.len() * width * 4, |i: int| grey_byte(rows, width as int, i))
}

/// The palette picture of `rows`, of `width` columns.
pub open spec fn palette_picture(rows: Seq<Seq<i64>>, width: nat) -> Seq<u8> {
    Seq::new(rows.len() * width * 4, |i: int| palette_byte(rows, width as int, i))
}

/// The number of bytes of a picture of the terrain, which fits in a `usize`.
fn picture_len(grid: &Terrain) -> (n: usize)
    requires
        grid.wf(),
    ensures
        n == grid.spec_height() * grid.spec_width() * 4,
{
    let w: usize = grid.width();
    let h: usize = grid.height();
    if w == 0 || h == 0 {
        assert(h * w * 4 == 0) by (nonlinear_arith)
            requires w == 0 || h == 0;
        0
    } else {
        h * w * 4
    }
}

/// The cell with index `y * w + x` is the cell in column `x` of row `y`.
proof fn lemma_cell_of_index(x: int, y: int, w: int)
    requires
        0 <= x < w,
        0 <= y,
    ensures
        (y * w + x) / w == y,
        (y * w + x) % w == x,
{
    lemma_fundamental_div_mod_converse(y * w + x, w, y, x);
}

/// Writes the terrain as a grey picture: every pixel has its cell's
/// elevation as luminance in red, green and blue, and is opaque. The buffer
/// must hold four bytes for every cell; one of another length is left as it
/// is and the error says so.
pub fn write_grayscale(grid: &Terrain, out: &mut [u8]) -> (done: Result<(), TerrainError>)
    requires
        grid.wf(),
    ensures
        done is Err <==> old(out)@.len() != grid.spec_height() * grid.spec_width() * 4,
        done is Err ==> done == Err::<(), TerrainError>(TerrainError::BufferSizeMismatch) && final(out)@
            == old(out)@,
        done is Ok ==> final(out)@ == grey_picture(grid@, grid.spec_width()),
{
    let w: usize = grid.width();
    let h: usize = grid.height();
    let n: usize = picture_len(grid);
    if out.len() != n {
        return Err(TerrainError::BufferSizeMismatch);
    }
    let mut y: usize = 0;
    let mut k: usize = 0;
    while y < h
        invariant
            y <= h,
            k == y * w,
            grid.wf(),
            w == grid.spec_width(),
            h == grid.spec_height(),
            n == h * w * 4,
            out@.len() == n,
            forall|i: int| 0 <= i < 4 * k ==> #[trigger] out@[i] == grey_byte(grid@, w as int, i),
        decreases h - y,
    {
        let mut x: usize = 0;
        while x < w
            invariant
                y < h,
                x <= w,
                k == y * w + x,
                grid.wf(),
                w == grid.spec_width(),
                h == grid.spec_height(),
                n == h * w * 4,
                out@.len() == n,
                forall|i: int| 0 <= i < 4 * k ==> #[trigger] out@[i] == grey_byte(grid@, w as int, i),
            decreases w - x,
        {
            proof {
                lemma_cell_of_index(x as int, y as int, w as int);
                assert(y * w + x < h * w) by (nonlinear_arith)
                    requires y < h, x < w;
            }
            let level: u8 = grey(grid.get(x, y));
            let index: usize = k * CHANNELS;
            out[index] = level;
            out[index + 1] = level;
            out[index + 2] = level;
            out[index + 3] = OPAQUE;
            x = x + 1;
            k = k + 1;
        }
        proof {
            assert((y + 1) * w == y * w + w) by (nonlinear_arith);
        }
        y = y + 1;
    }
    Ok(())
}

/// Writes the terrain as a palette picture: every pixel has the colour of
/// its cell's elevation band, and is opaque. The buffer must hold four bytes
/// for every cell; one of another length is left as it is and the error says
/// so.
pub fn write_palette(grid: &Terrain, out: &mut [u8]) -> (done: Result<(), TerrainError>)
    requires
        grid.wf(),
    ensures
        done is Err <==> old(out)@.len() != grid.spec_height() * grid.spec_width() * 4,
        done is Err ==> done == Err::<(), TerrainError>(TerrainError::BufferSizeMismatch) && final(out)@
            == old(out)@,
        done is Ok ==> final(out)@ == palette_picture(grid@, grid.spec_width()),
{
    let w: usize = grid.width();
    let h: usize = grid.height();
    let n: usize = picture_len(grid);
    if out.len() != n {
        return Err(TerrainError::BufferSizeMismatch);
    }
    let mut y: usize = 0;
    let mut k: usize = 0;
    while y < h
        invariant
            y <= h,
            k == y * w,
            grid.wf(),
            w == grid.spec_width(),
            h == grid.spec_height(),
            n == h * w * 4,
            out@.len() == n,
            forall|i: int| 0 <= i < 4 * k ==> #[trigger] out@[i] == palette_byte(grid@, w as int, i),
        decreases h - y,
    {
        let mut x: usize = 0;
        while x < w
            invariant
                y < h,
                x <= w,
                k == y * w + x,
                grid.wf(),
                w == grid.spec_width(),
                h == grid.spec_height(),
                n == h * w * 4,
                out@.len() == n,
                forall|i: int| 0 <= i < 4 * k ==> #[trigger] out@[i] == palette_byte(grid@, w as int, i),
            decreases w - x,
        {
            proof {
                lemma_cell_of_index(x as int, y as int, w as int);
                assert(y * w + x < h * w) by (nonlinear_arith)
                    requires y < h, x < w;
            }
            let colour: Rgb = classify(grid.get(x, y));
            let index: usize = k * CHANNELS;
            out[index] = colour.r;
            out[index + 1] = colour.g;
            out[index + 2] = colour.b;
            out[index + 3] = OPAQUE;
            x = x + 1;
            k = k + 1;
        }
        proof {
            assert((y + 1) * w == y * w + w) by (nonlinear_arith);
        }
        y = y + 1;
    }
    Ok(())
}

/// Whether byte `i` of a picture of `width` columns belongs to row `y`.
pub open spec fn in_row(i: int, y: int, width: int) -> bool {
    y * width * 4 <= i < (y + 1) * width * 4
}

/// Draws a horizontal line across a picture of `width` by `height` pixels:
/// every byte of row `y`, alpha too, becomes [`LINE_LEVEL`]. A row below the
/// picture is not drawn.
pub fn draw_horizontal_line(data: &mut [u8], width: usize, height: usize, y: usize)
    requires
        y < height ==> (y + 1) * width * 4 <= old(data)@.len(),
    ensures
        final(data)@.len() == old(data)@.len(),
        y >= height ==> final(data)@ == old(data)@,
        y < height ==> forall|i: int|
            0 <= i < old(data)@.len() ==> #[trigger] final(data)@[i] == if in_row(
                i,
                y as int,
                width as int,
            ) {
                LINE_LEVEL
            } else {
                old(data)@[i]
            },
{
    if y >= height {
        return ;
    }
    let len: usize = data.len();
    proof {
        assert((y + 1) * width * 4 == y * width * 4 + width * 4) by (nonlinear_arith);
    }
    let start: usize = y * width;
    let mut x: usize = 0;
    while x < width
        invariant
            x <= width,
            start == y * width,
            len == data@.len(),
            data@.len() == old(data)@.len(),
            (start + width) * 4 <= data@.len(),
            forall|i: int|
                0 <= i < data@.len() ==> #[trigger] data@[i] == if start * 4 <= i < (start + x) * 4 {
                    LINE_LEVEL
                } else {
                    old(data)@[i]
                },
        decreases width - x,
    {
        let index: usize = (start + x) * CHANNELS;
        data[index] = LINE_LEVEL;
        data[index + 1] = LINE_LEVEL;
        data[index + 2] = LINE_LEVEL;
        data[index + 3] = LINE_LEVEL;
        x = x + 1;
    }
}

} // verus!
