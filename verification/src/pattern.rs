//! The moving test pattern.
//!
//! Each value of the pattern depends on the column alone or on the row alone. The values along
//! a row and along a column are given; here they are put together into a frame.
use vstd::prelude::*;

use crate::capture::{CaptureFrame, PixelFormat};

verus! {

/// The values of the pattern for one frame.
#[derive(Debug)]
pub struct PatternValues {
    /// The brightness of the wave, for each column.
    pub wave: Vec<u8>,
    /// The position of the sweep, for each row; its brightness grows along 256 positions and
    /// starts over.
    pub sweep: Vec<i32>,
    /// The first chroma value, for each column of chroma pixels.
    pub chroma_columns: Vec<u8>,
    /// The second chroma value, for each row of chroma pixels.
    pub chroma_rows: Vec<u8>,
}

/// How many rows of chroma pixels a frame has.
pub open spec fn chroma_height(height: u32, format: PixelFormat) -> u32 {
    match format {
        PixelFormat::Nv12 => height / 2,
        PixelFormat::Yuvj422p => height,
    }
}

/// How many rows of chroma pixels a frame has.
pub fn chroma_rows(height: u32, format: PixelFormat) -> (rows: u32)
    ensures
        rows == chroma_height(height, format),
        format == PixelFormat::Nv12 ==> rows == height / 2,
        format == PixelFormat::Yuvj422p ==> rows == height,
{
    match format {
        PixelFormat::Nv12 => height / 2,
        PixelFormat::Yuvj422p => height,
    }
}

impl PatternValues {
    /// There is a value for each column and each row of a frame.
    pub open spec fn covers(&self, width: u32, height: u32, format: PixelFormat) -> bool {
        &&& self.wave@.len() == width
        &&& self.sweep@.len() == height
        &&& self.chroma_columns@.len() == width / 2
        &&& self.chroma_rows@.len() == chroma_height(height, format)
    }

    /// There is a value for each column and each row of a frame.
    pub fn fits(&self, width: u32, height: u32, format: PixelFormat) -> (covered: bool)
        ensures
            covered == self.covers(width, height, format),
            covered == (self.wave@.len() == width && self.sweep@.len() == height
                && self.chroma_columns@.len() == width / 2 && self.chroma_rows@.len() == (
            if format == PixelFormat::Nv12 {
                height / 2
            } else {
                height
            })),
    {
        self.wave.len() as u64 == width as u64 && self.sweep.len() as u64 == height as u64
            && self.chroma_columns.len() as u64 == (width / 2) as u64
            && self.chroma_rows.len() as u64 == chroma_rows(height, format) as u64
    }
}

/// The brightness of the eight vertical bars at column `x`.
pub open spec fn bar(x: int, width: int) -> int {
    (x * 8) / width * 28
}

/// `a + b`, but no more than a byte holds.
pub open spec fn capped_sum(a: int, b: int) -> int {
    if a + b > 255 {
        255
    } else {
        a + b
    }
}

/// The brightness of the pixel at column `x` and row `y`: half of the sweep, the bars and the
/// wave each.
pub open spec fn luma(values: PatternValues, width: int, x: int, y: int) -> u8 {
    capped_sum(
        capped_sum(values.sweep@[y] as int % 256 / 2, bar(x, width) / 2),
        values.wave@[x] as int / 2,
    ) as u8
}

/// The luma plane of the pattern.
pub open spec fn luma_plane(values: PatternValues, width: nat, height: nat) -> Seq<u8> {
    Seq::new(
        width * height,
        |i: int| luma(values, width as int, i % (width as int), i / (width as int)),
    )
}

/// A plane whose value depends on the column alone.
pub open spec fn column_plane(columns: Seq<u8>, rows: nat) -> Seq<u8> {
    Seq::new(columns.len() * rows, |i: int| columns[i % (columns.len() as int)])
}

/// A plane whose value depends on the row alone.
pub open spec fn row_plane(rows: Seq<u8>, width: nat) -> Seq<u8> {
    Seq::new(width * rows.len(), |i: int| rows[i / (width as int)])
}

/// Two planes as one of pairs.
pub open spec fn interleaved(first: Seq<u8>, second: Seq<u8>) -> Seq<u8> {
    Seq::new(
        2 * first.len(),
        |i: int|
            if i % 2 == 0 {
                first[i / 2]
            } else {
                second[i / 2]
            },
    )
}

/// The chroma plane of an `Nv12` frame with these chroma values: the pairs, and as many zeros
/// behind them as fill up the rows of a frame with an odd width.
pub open spec fn nv12_chroma(
    first: Seq<u8>,
    second: Seq<u8>,
    width: u32,
    height: u32,
) -> Seq<u8> {
    interleaved(first, second) + Seq::new(nv12_fill(width, height), |i: int| 0u8)
}

/// How many bytes fill up the chroma plane of an `Nv12` frame: one for each row of chroma pixels
/// where the width is odd.
pub open spec fn nv12_fill(width: u32, height: u32) -> nat {
    if width % 2 == 1 {
        (height / 2) as nat
    } else {
        0
    }
}

/// The pairs and what fills them up come to one byte for each column and each row of chroma
/// pixels.
proof fn lemma_nv12_size(width: u32, height: u32)
    ensures
        2 * ((width / 2) as nat * (height / 2) as nat) + nv12_fill(width, height) == width as nat
            * (height / 2) as nat,
{
    let half = (width / 2) as int;
    let rows = (height / 2) as int;
    if width % 2 == 1 {
        assert(2 * (half * rows) + rows == (2 * half + 1) * rows) by (nonlinear_arith);
    } else {
        assert(2 * (half * rows) == (2 * half) * rows) by (nonlinear_arith);
    }
}

/// Position `row * width + column` of a plane is in column `column` of row `row`.
proof fn lemma_position(row: int, column: int, width: int, rows: int)
    requires
        0 <= row < rows,
        0 <= column < width,
    ensures
        (row * width + column) / width == row,
        (row * width + column) % width == column,
        0 <= row * width + column < width * rows,
{
    vstd::arithmetic::div_mod::lemma_fundamental_div_mod_converse(row * width + column, width, row, column);
    assert(0 <= row * width + column < width * rows) by (nonlinear_arith)
        requires
            0 <= row < rows,
            0 <= column < width,
    ;
}

/// The brightness of the sweep at `position`.
fn sweep_brightness(position: i32) -> (brightness: u8)
    ensures
        brightness == position as int % 256,
{
    let shifted: u64 = (position as i64 + 0x8000_0000) as u64;
    (shifted % 256) as u8
}

/// The pixel at column `x` and row `y`.
fn luma_at(values: &PatternValues, width: u32, x: usize, y: usize) -> (value: u8)
    requires
        x < width,
        x < values.wave@.len(),
        y < values.sweep@.len(),
    ensures
        value == luma(*values, width as int, x as int, y as int),
{
    let column: u64 = x as u64 * 8 / width as u64;
    proof {
        assert((x * 8) / (width as int) <= 7) by (nonlinear_arith)
            requires
                0 <= x < width,
        ;
    }
    let bars: u8 = (column * 28) as u8;
    (sweep_brightness(values.sweep[y]) / 2).saturating_add(bars / 2).saturating_add(values.wave[x] / 2)
}

/// The luma plane of the pattern.
fn draw_luma(values: &PatternValues, width: u32, height: u32) -> (plane: Vec<u8>)
    requires
        values.wave@.len() == width,
        values.sweep@.len() == height,
    ensures
        plane@ == luma_plane(*values, width as nat, height as nat),
{
    let mut plane: Vec<u8> = Vec::new();
    let ghost all = luma_plane(*values, width as nat, height as nat);
    let mut y: usize = 0;
    while y < values.sweep.len()
        invariant
            y <= values.sweep@.len(),
            values.wave@.len() == width,
            values.sweep@.len() == height,
            all == luma_plane(*values, width as nat, height as nat),
            plane@ == all.take(y * width),
            0 <= y * width <= all.len(),
        decreases values.sweep@.len() - y,
    {
        let mut x: usize = 0;
        proof {
            assert((y + 1) * width <= height * width) by (nonlinear_arith)
                requires
                    y + 1 <= height,
            ;
            assert((y + 1) * width == y * width + width) by (nonlinear_arith);
            assert(height * width == width * height) by (nonlinear_arith);
        }
        while x < values.wave.len()
            invariant
                x <= values.wave@.len(),
                y < values.sweep@.len(),
                values.wave@.len() == width,
                values.sweep@.len() == height,
                all == luma_plane(*values, width as nat, height as nat),
                plane@ == all.take(y * width + x),
                0 <= y * width,
                (y + 1) * width == y * width + width,
                (y + 1) * width <= all.len(),
            decreases values.wave@.len() - x,
        {
            proof {
                lemma_position(y as int, x as int, width as int, height as int);
            }
            plane.push(luma_at(values, width, x, y));
            assert(plane@ =~= all.take(y * width + x + 1));
            x += 1;
        }
        y += 1;
    }
    assert(height * width == width * height) by (nonlinear_arith);
    assert(all.take(all.len() as int) =~= all);
    plane
}

/// The two chroma planes of the pattern.
fn draw_chroma(columns: &[u8], rows: &[u8]) -> (planes: (Vec<u8>, Vec<u8>))
    ensures
        planes.0@ == column_plane(columns@, rows@.len()),
        planes.1@ == row_plane(rows@, columns@.len()),
{
    let mut first: Vec<u8> = Vec::new();
    let mut second: Vec<u8> = Vec::new();
    let ghost width = columns@.len() as int;
    let ghost height = rows@.len() as int;
    let ghost by_column = column_plane(columns@, rows@.len());
    let ghost by_row = row_plane(rows@, columns@.len());
    let mut y: usize = 0;
    while y < rows.len()
        invariant
            y <= rows@.len(),
            width == columns@.len(),
            height == rows@.len(),
            by_column == column_plane(columns@, rows@.len()),
            by_row == row_plane(rows@, columns@.len()),
            first@ == by_column.take(y * width),
            second@ == by_row.take(y * width),
            0 <= y * width <= width * height,
            by_column.len() == width * height,
            by_row.len() == width * height,
        decreases rows@.len() - y,
    {
        let mut x: usize = 0;
        proof {
            assert((y + 1) * width <= height * width) by (nonlinear_arith)
                requires
                    y + 1 <= height,
                    0 <= width,
            ;
            assert((y + 1) * width == y * width + width) by (nonlinear_arith);
            assert(height * width == width * height) by (nonlinear_arith);
        }
        while x < columns.len()
            invariant
                x <= columns@.len(),
                y < rows@.len(),
                width == columns@.len(),
                height == rows@.len(),
                by_column == column_plane(columns@, rows@.len()),
                by_row == row_plane(rows@, columns@.len()),
                first@ == by_column.take(y * width + x),
                second@ == by_row.take(y * width + x),
                0 <= y * width,
                (y + 1) * width == y * width + width,
                (y + 1) * width <= width * height,
                by_column.len() == width * height,
                by_row.len() == width * height,
            decreases columns@.len() - x,
        {
            proof {
                lemma_position(y as int, x as int, width, height);
            }
            first.push(columns[x]);
            second.push(rows[y]);
            assert(first@ =~= by_column.take(y * width + x + 1));
            assert(second@ =~= by_row.take(y * width + x + 1));
            x += 1;
        }
        y += 1;
    }
    assert(height * width == width * height) by (nonlinear_arith);
    assert(by_column.take(width * height) =~= by_column);
    assert(by_row.take(width * height) =~= by_row);
    (first, second)
}

/// Puts two planes together as one of pairs.
pub fn interleave(first: &[u8], second: &[u8]) -> (pairs: Vec<u8>)
    requires
        first@.len() == second@.len(),
    ensures
        pairs@ == interleaved(first@, second@),
        pairs@.len() == 2 * first@.len(),
        forall|i: int|
            0 <= i < first@.len() ==> pairs@[2 * i] == #[trigger] first@[i] && pairs@[2 * i + 1]
                == second@[i],
{
    let mut pairs: Vec<u8> = Vec::new();
    let ghost all = interleaved(first@, second@);
    let mut i: usize = 0;
    while i < first.len()
        invariant
            i <= first@.len(),
            first@.len() == second@.len(),
            all == interleaved(first@, second@),
            pairs@ == all.take(2 * i),
        decreases first@.len() - i,
    {
        pairs.push(first[i]);
        pairs.push(second[i]);
        assert(pairs@ =~= all.take(2 * i + 2));
        i += 1;
    }
    assert(all.take(all.len() as int) =~= all);
    pairs
}

/// `frame` is the frame of the test pattern with the given values.
pub open spec fn draws(
    frame: CaptureFrame,
    width: u32,
    height: u32,
    format: PixelFormat,
    values: PatternValues,
) -> bool {
    let columns = column_plane(values.chroma_columns@, values.chroma_rows@.len());
    let rows = row_plane(values.chroma_rows@, values.chroma_columns@.len());
    &&& frame.width == width
    &&& frame.height == height
    &&& frame.format == format
    &&& frame.y_data@ == luma_plane(values, width as nat, height as nat)
    &&& match format {
        PixelFormat::Nv12 => frame.u_data@ == nv12_chroma(columns, rows, width, height)
            && frame.v_data@.len() == 0,
        PixelFormat::Yuvj422p => frame.u_data@ == columns && frame.v_data@ == rows,
    }
}

/// The brightness of the pattern does not depend on the format: frames of one size with the same
/// wave and the same sweep have the same luma plane.
pub proof fn law_brightness_does_not_depend_on_the_format(
    width: u32,
    height: u32,
    a: CaptureFrame,
    a_format: PixelFormat,
    a_values: PatternValues,
    b: CaptureFrame,
    b_format: PixelFormat,
    b_values: PatternValues,
)
    requires
        draws(a, width, height, a_format, a_values),
        draws(b, width, height, b_format, b_values),
        a_values.wave@ == b_values.wave@,
        a_values.sweep@ == b_values.sweep@,
    ensures
        a.y_data@ == b.y_data@,
{
    assert(a.y_data@ =~= b.y_data@);
}

/// The frame of the test pattern with the given values.
pub fn generate_test_frame(
    width: u32,
    height: u32,
    format: PixelFormat,
    values: &PatternValues,
) -> (frame: CaptureFrame)
    requires
        width * height <= u32::MAX,
        values.covers(width, height, format),
    ensures
        draws(frame, width, height, format, *values),
        frame.width == width,
        frame.height == height,
        frame.format == format,
        frame.y_data@.len() == width as nat * height as nat,
        frame.u_data@.len() == match format {
            PixelFormat::Nv12 => width as nat * (height / 2) as nat,
            PixelFormat::Yuvj422p => (width / 2) as nat * height as nat,
        },
        frame.v_data@.len() == match format {
            PixelFormat::Nv12 => 0,
            PixelFormat::Yuvj422p => (width / 2) as nat * height as nat,
        },
{
    let y_data = draw_luma(values, width, height);
    let (columns, rows) = draw_chroma(
        values.chroma_columns.as_slice(),
        values.chroma_rows.as_slice(),
    );
    let (u_data, v_data) = match format {
        PixelFormat::Nv12 => {
            let fill_bytes: usize = if width % 2 == 1 {
                (height / 2) as usize
            } else {
                0
            };
            let fill: Vec<u8> = vec![0u8; fill_bytes];
            let mut pairs = interleave(columns.as_slice(), rows.as_slice());
            pairs.extend_from_slice(fill.as_slice());
            proof {
                lemma_nv12_size(width, height);
                assert(pairs@ =~= nv12_chroma(columns@, rows@, width, height));
            }
            (pairs, Vec::new())
        },
        PixelFormat::Yuvj422p => (columns, rows),
    };
    CaptureFrame { width, height, format, y_data, u_data, v_data }
}

/// The bars are eight of equal width, each twenty-eight steps brighter than the one before.
pub proof fn law_bars_are_of_equal_width(x: int, width: int, number: int)
    requires
        0 <= x < width,
        number * width <= 8 * x < (number + 1) * width,
    ensures
        0 <= number < 8,
        bar(x, width) == 28 * number,
{
    assert(0 <= number < 8) by (nonlinear_arith)
        requires
            0 <= x < width,
            number * width <= 8 * x < (number + 1) * width,
    ;
    assert((number + 1) * width == number * width + width) by (nonlinear_arith);
    vstd::arithmetic::div_mod::lemma_fundamental_div_mod_converse(
        x * 8,
        width,
        number,
        x * 8 - number * width,
    );
}

/// The brightness of a pixel is half of the sweep, the bar and the wave each, but never more than
/// a byte holds.
pub proof fn law_brightness_of_a_pixel(
    values: PatternValues,
    width: int,
    x: int,
    y: int,
    number: int,
    turn: int,
    sweep: int,
)
    requires
        0 <= x < width,
        number * width <= 8 * x < (number + 1) * width,
        values.sweep@[y] == 256 * turn + sweep,
        0 <= sweep < 256,
    ensures
        ({
            let sum = sweep / 2 + 14 * number + values.wave@[x] as int / 2;
            &&& sum <= 255 ==> luma(values, width, x, y) == sum
            &&& sum > 255 ==> luma(values, width, x, y) == 255
        }),
{
    law_bars_are_of_equal_width(x, width, number);
    vstd::arithmetic::div_mod::lemma_fundamental_div_mod_converse(
        values.sweep@[y] as int,
        256,
        turn,
        sweep,
    );
}

/// Every pixel of the pattern: its brightness goes by its column and row, its first chroma value
/// by its column alone and its second by its row alone; what fills up an odd width is zero.
pub proof fn law_pixels_of_the_pattern(
    frame: CaptureFrame,
    width: u32,
    height: u32,
    format: PixelFormat,
    values: PatternValues,
    x: int,
    y: int,
)
    requires
        values.covers(width, height, format),
        draws(frame, width, height, format, values),
    ensures
        0 <= x < width && 0 <= y < height ==> frame.y_data@[y * width + x] == luma(
            values,
            width as int,
            x,
            y,
        ),
        format == PixelFormat::Yuvj422p && 0 <= x < width / 2 && 0 <= y < height
            ==> frame.u_data@[y * (width / 2) + x] == values.chroma_columns@[x]
            && frame.v_data@[y * (width / 2) + x] == values.chroma_rows@[y],
        format == PixelFormat::Nv12 && 0 <= x < width / 2 && 0 <= y < height / 2 ==> frame.u_data@[2
            * (y * (width / 2) + x)] == values.chroma_columns@[x] && frame.u_data@[2 * (y * (width
            / 2) + x) + 1] == values.chroma_rows@[y],
        format == PixelFormat::Nv12 ==> frame.v_data@.len() == 0,
        format == PixelFormat::Nv12 ==> frame.u_data@.len() == width * (height / 2),
        format == PixelFormat::Nv12 ==> forall|i: int|
            2 * ((width / 2) * (height / 2)) <= i < frame.u_data@.len() ==> frame.u_data@[i] == 0,
{
    let half = (width / 2) as int;
    if 0 <= x < width && 0 <= y < height {
        lemma_position(y, x, width as int, height as int);
    }
    let rows = values.chroma_rows@.len() as int;
    if 0 <= x < half && 0 <= y < rows {
        lemma_position(y, x, half, rows);
    }
    if format == PixelFormat::Nv12 {
        lemma_nv12_size(width, height);
    }
}

}
