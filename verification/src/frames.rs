//! Turning decoded video into frames.
use vstd::prelude::*;

use crate::capture::{CaptureFrame, PixelFormat};

verus! {

/// The rows of a plane whose rows start `stride` bytes apart, put together without gaps.
pub open spec fn packed(source: Seq<u8>, stride: nat, row_bytes: nat, rows: nat) -> Seq<u8> {
    Seq::new(
        row_bytes * rows,
        |i: int| source[(i / row_bytes as int) * stride + i % (row_bytes as int)],
    )
}

/// The plane holds `rows` rows of `row_bytes` bytes that start `stride` bytes apart.
pub open spec fn holds_rows(len: nat, stride: nat, row_bytes: nat, rows: nat) -> bool {
    rows > 0 ==> (rows - 1) * stride + row_bytes <= len
}

/// Row `row` starts at `row * row_bytes` in a packed plane.
proof fn lemma_row_position(row: int, column: int, row_bytes: int)
    requires
        0 <= row,
        0 <= column < row_bytes,
    ensures
        (row * row_bytes + column) / row_bytes == row,
        (row * row_bytes + column) % row_bytes == column,
{
    vstd::arithmetic::div_mod::lemma_fundamental_div_mod_converse(row * row_bytes + column, row_bytes, row, column);
}

/// Copies the rows of a plane that may have gaps between them.
pub fn copy_plane(source: &[u8], stride: usize, row_bytes: usize, rows: usize) -> (plane: Vec<u8>)
    requires
        holds_rows(source@.len(), stride as nat, row_bytes as nat, rows as nat),
        row_bytes * rows <= usize::MAX,
    ensures
        plane@ == packed(source@, stride as nat, row_bytes as nat, rows as nat),
        plane@.len() == row_bytes * rows,
{
    let mut plane: Vec<u8> = Vec::new();
    let ghost all = packed(source@, stride as nat, row_bytes as nat, rows as nat);
    let mut row: usize = 0;
    assert(plane@ =~= all.take(0));
    while row < rows
        invariant
            row <= rows,
            row_bytes * rows <= usize::MAX,
            holds_rows(source@.len(), stride as nat, row_bytes as nat, rows as nat),
            all == packed(source@, stride as nat, row_bytes as nat, rows as nat),
            plane@ == all.take(row * row_bytes),
            0 <= row * row_bytes <= all.len(),
        decreases rows - row,
    {
        proof {
            assert(row * stride <= (rows - 1) * stride) by (nonlinear_arith)
                requires
                    row <= rows - 1,
            ;
            assert(0 <= row * stride) by (nonlinear_arith);
            assert(source@.len() == source.len());
            assert((row + 1) * row_bytes <= rows * row_bytes) by (nonlinear_arith)
                requires
                    row + 1 <= rows,
            ;
            assert((row + 1) * row_bytes == row * row_bytes + row_bytes) by (nonlinear_arith);
            assert(rows * row_bytes == row_bytes * rows) by (nonlinear_arith);
        }
        let start: usize = row * stride;
        let line = vstd::slice::slice_subrange(source, start, start + row_bytes);
        let ghost before = plane@;
        plane.extend_from_slice(line);
        proof {
            let end = (row + 1) * row_bytes;
            assert forall|i: int| 0 <= i < end implies plane@[i] == all.take(end)[i] by {
                if i >= row * row_bytes {
                    lemma_row_position(row as int, i - row * row_bytes, row_bytes as int);
                }
            }
            assert(plane@ =~= all.take(end));
        }
        row += 1;
    }
    assert(rows * row_bytes == row_bytes * rows) by (nonlinear_arith);
    assert(all.take(all.len() as int) =~= all);
    plane
}

/// A pixel format as the decoder names it. Formats that are not drawn go by their number.
#[derive(Debug, Clone, Copy, PartialEq, Eq, Structural)]
pub enum SourcePixel {
    Nv12,
    Yuvj422p,
    Other(i32),
}

/// One plane of a decoded frame. Its rows start `stride` bytes apart.
#[derive(Debug, Clone, Copy)]
pub struct PlaneView<'a> {
    pub data: &'a [u8],
    pub stride: usize,
}

/// A decoded frame.
#[derive(Debug)]
pub struct VideoView<'a> {
    pub width: u32,
    pub height: u32,
    pub format: SourcePixel,
    pub planes: Vec<PlaneView<'a>>,
}

/// The bytes in a row of the luma plane, of the second plane and of the third plane.
pub open spec fn row_bytes(format: PixelFormat, width: u32, plane: int) -> nat {
    if plane == 0 {
        width as nat
    } else {
        match format {
            PixelFormat::Nv12 => if plane == 1 {
                width as nat
            } else {
                0
            },
            PixelFormat::Yuvj422p => width as nat / 2,
        }
    }
}

/// The rows of the luma plane, of the second plane and of the third plane.
pub open spec fn row_count(format: PixelFormat, height: u32, plane: int) -> nat {
    if plane == 0 {
        height as nat
    } else {
        match format {
            PixelFormat::Nv12 => if plane == 1 {
                height as nat / 2
            } else {
                0
            },
            PixelFormat::Yuvj422p => height as nat,
        }
    }
}

/// How many planes a frame has.
pub open spec fn plane_count(format: PixelFormat) -> nat {
    match format {
        PixelFormat::Nv12 => 2,
        PixelFormat::Yuvj422p => 3,
    }
}

impl<'a> VideoView<'a> {
    /// The planes hold a frame in `format`.
    pub open spec fn holds(&self, format: PixelFormat) -> bool {
        &&& self.planes@.len() >= plane_count(format)
        &&& self.width * self.height <= usize::MAX
        &&& forall|p: int|
            0 <= p < plane_count(format) ==> holds_rows(
                (#[trigger] self.planes@[p]).data@.len(),
                self.planes@[p].stride as nat,
                row_bytes(format, self.width, p),
                row_count(format, self.height, p),
            )
    }

    /// Plane `plane` of the frame, without gaps between its rows.
    pub open spec fn packed_plane(&self, format: PixelFormat, plane: int) -> Seq<u8> {
        packed(
            self.planes@[plane].data@,
            self.planes@[plane].stride as nat,
            row_bytes(format, self.width, plane),
            row_count(format, self.height, plane),
        )
    }

    /// `frame` is this frame in `format`.
    pub open spec fn reads_as(&self, format: PixelFormat, frame: CaptureFrame) -> bool {
        &&& frame.width == self.width
        &&& frame.height == self.height
        &&& frame.format == format
        &&& frame.y_data@ == self.packed_plane(format, 0)
        &&& frame.u_data@ == self.packed_plane(format, 1)
        &&& frame.v_data@ == match format {
            PixelFormat::Nv12 => Seq::<u8>::empty(),
            PixelFormat::Yuvj422p => self.packed_plane(format, 2),
        }
    }
}

/// The rows and columns of a plane are no more than those of the frame.
proof fn lemma_plane_fits(format: PixelFormat, width: u32, height: u32, plane: int)
    requires
        width * height <= usize::MAX,
    ensures
        row_bytes(format, width, plane) * row_count(format, height, plane) <= usize::MAX,
{
    let r = row_bytes(format, width, plane);
    let n = row_count(format, height, plane);
    assert(r * n <= width * height) by (nonlinear_arith)
        requires
            r <= width,
            n <= height,
    ;
}

/// The plane holds `rows` rows of `row_bytes` bytes.
fn plane_holds(plane: &PlaneView, row_bytes: usize, rows: usize) -> (held: bool)
    ensures
        held == holds_rows(
            plane.data@.len(),
            plane.stride as nat,
            row_bytes as nat,
            rows as nat,
        ),
{
    if rows == 0 {
        return true;
    }
    assert(plane.data@.len() == plane.data.len());
    match (rows - 1).checked_mul(plane.stride) {
        Some(start) => start <= plane.data.len() && row_bytes <= plane.data.len() - start,
        None => false,
    }
}

/// The planes of a decoded frame hold a frame in `format`.
pub fn frame_holds(frame: &VideoView, format: PixelFormat) -> (held: bool)
    ensures
        held == frame.holds(format),
        format == PixelFormat::Nv12 ==> (held <==> {
            &&& frame.planes@.len() >= 2
            &&& frame.width * frame.height <= usize::MAX
            &&& frame.height > 0 ==> (frame.height - 1) * frame.planes@[0].stride + frame.width
                <= frame.planes@[0].data@.len()
            &&& frame.height >= 2 ==> (frame.height / 2 - 1) * frame.planes@[1].stride + frame.width
                <= frame.planes@[1].data@.len()
        }),
        format == PixelFormat::Yuvj422p ==> (held <==> {
            &&& frame.planes@.len() >= 3
            &&& frame.width * frame.height <= usize::MAX
            &&& frame.height > 0 ==> {
                &&& (frame.height - 1) * frame.planes@[0].stride + frame.width
                    <= frame.planes@[0].data@.len()
                &&& (frame.height - 1) * frame.planes@[1].stride + frame.width / 2
                    <= frame.planes@[1].data@.len()
                &&& (frame.height - 1) * frame.planes@[2].stride + frame.width / 2
                    <= frame.planes@[2].data@.len()
            }
        }),
{
    proof {
        law_planes_of_a_frame(*frame);
    }
    let width = frame.width as usize;
    let height = frame.height as usize;
    if width.checked_mul(height).is_none() {
        return false;
    }
    match format {
        PixelFormat::Nv12 => {
            let held = frame.planes.len() >= 2 && plane_holds(&frame.planes[0], width, height)
                && plane_holds(&frame.planes[1], width, height / 2);
            assert(held == frame.holds(format));
            held
        },
        PixelFormat::Yuvj422p => {
            let held = frame.planes.len() >= 3 && plane_holds(&frame.planes[0], width, height)
                && plane_holds(&frame.planes[1], width / 2, height) && plane_holds(
                &frame.planes[2],
                width / 2,
                height,
            );
            assert(held == frame.holds(format));
            held
        },
    }
}

/// The frame to draw for a decoded frame in `format`.
pub fn extract_supported_frame_with_format(frame: &VideoView, format: PixelFormat) -> (extracted:
    CaptureFrame)
    requires
        frame.holds(format),
    ensures
        frame.reads_as(format, extracted),
        extracted.width == frame.width,
        extracted.height == frame.height,
        extracted.format == format,
        extracted.y_data@.len() == frame.width * frame.height,
        format == PixelFormat::Nv12 ==> extracted.u_data@.len() == frame.width * (frame.height / 2)
            && extracted.v_data@.len() == 0,
        format == PixelFormat::Yuvj422p ==> extracted.u_data@.len() == (frame.width / 2)
            * frame.height && extracted.v_data@.len() == (frame.width / 2) * frame.height,
{
    let width = frame.width as usize;
    let height = frame.height as usize;
    proof {
        lemma_plane_fits(format, frame.width, frame.height, 0);
        lemma_plane_fits(format, frame.width, frame.height, 1);
        lemma_plane_fits(format, frame.width, frame.height, 2);
        assert(frame.planes@[0].data@.len() >= 0);
        assert(frame.planes@[1].data@.len() >= 0);
        assert(plane_count(format) == 3 ==> frame.planes@[2].data@.len() >= 0);
    }
    let y_data = copy_plane(frame.planes[0].data, frame.planes[0].stride, width, height);
    let u_data = match format {
        PixelFormat::Nv12 => copy_plane(
            frame.planes[1].data,
            frame.planes[1].stride,
            width,
            height / 2,
        ),
        PixelFormat::Yuvj422p => copy_plane(
            frame.planes[1].data,
            frame.planes[1].stride,
            width / 2,
            height,
        ),
    };
    let v_data = match format {
        PixelFormat::Nv12 => Vec::new(),
        PixelFormat::Yuvj422p => copy_plane(
            frame.planes[2].data,
            frame.planes[2].stride,
            width / 2,
            height,
        ),
    };
    CaptureFrame { width: frame.width, height: frame.height, format, y_data, u_data, v_data }
}

/// The format to draw a decoded format in, where it can be drawn as it is.
pub open spec fn drawn_as(format: SourcePixel) -> Option<PixelFormat> {
    match format {
        SourcePixel::Nv12 => Some(PixelFormat::Nv12),
        SourcePixel::Yuvj422p => Some(PixelFormat::Yuvj422p),
        SourcePixel::Other(_) => None,
    }
}

/// The frame to draw for a converted frame. `format_name` is what the decoder calls its format.
pub fn extract_supported_frame(frame: &VideoView, format_name: &str) -> (extracted: Result<
    CaptureFrame,
    String,
>)
    requires
        drawn_as(frame.format) is Some ==> frame.holds(drawn_as(frame.format)->0),
    ensures
        match drawn_as(frame.format) {
            Some(format) => extracted is Ok && frame.reads_as(format, extracted->Ok_0),
            None => extracted is Err && extracted->Err_0@ == "unsupported converted pixel format: "@
                + format_name@,
        },
        extracted is Err <==> frame.format is Other,
        frame.format is Nv12 ==> extracted->Ok_0.format == PixelFormat::Nv12,
        frame.format is Yuvj422p ==> extracted->Ok_0.format == PixelFormat::Yuvj422p,
{
    match frame.format {
        SourcePixel::Nv12 => Ok(extract_supported_frame_with_format(frame, PixelFormat::Nv12)),
        SourcePixel::Yuvj422p => Ok(
            extract_supported_frame_with_format(frame, PixelFormat::Yuvj422p),
        ),
        SourcePixel::Other(_) => {
            let mut message = "unsupported converted pixel format: ".to_owned();
            message.append(format_name);
            Err(message)
        },
    }
}

/// What a converter is set up for: from one format to another at the same size.
#[derive(Debug, Clone, Copy, PartialEq, Eq, Structural)]
pub struct ScalerSetup {
    pub input_format: SourcePixel,
    pub input_width: u32,
    pub input_height: u32,
    pub output_format: SourcePixel,
    pub output_width: u32,
    pub output_height: u32,
}

/// Why a frame could not be converted. Formats and causes are given in words.
#[derive(Debug)]
pub enum ConversionFailure {
    /// No converter between these formats could be set up.
    Setup { input: String, output: String, cause: String },
    /// The converter failed.
    Run(String),
}

impl ConversionFailure {
    /// The failure in words.
    pub open spec fn text(&self) -> Seq<char> {
        match *self {
            ConversionFailure::Setup { input, output, cause } => "unsupported pixel format "@
                + input@ + " and failed to initialize converter to "@ + output@ + ": "@ + cause@,
            ConversionFailure::Run(cause) => "failed to convert frame via swscale: "@ + cause@,
        }
    }

    /// The failure in words.
    pub fn message(&self) -> (message: String)
        ensures
            message@ == self.text(),
            match *self {
                ConversionFailure::Setup { input, output, cause } => message@
                    == "unsupported pixel format "@ + input@
                    + " and failed to initialize converter to "@ + output@ + ": "@ + cause@,
                ConversionFailure::Run(cause) => message@
                    == "failed to convert frame via swscale: "@ + cause@,
            },
    {
        match self {
            ConversionFailure::Setup { input, output, cause } => {
                let mut message = "unsupported pixel format ".to_owned();
                message.append(input.as_str());
                message.append(" and failed to initialize converter to ");
                message.append(output.as_str());
                message.append(": ");
                message.append(cause.as_str());
                message
            },
            ConversionFailure::Run(cause) => {
                let mut message = "failed to convert frame via swscale: ".to_owned();
                message.append(cause.as_str());
                message
            },
        }
    }
}

/// What becomes of a decoded frame.
#[derive(Debug)]
pub enum FrameStep {
    /// It can be drawn as it is.
    Ready(CaptureFrame),
    /// It has to be converted first, with a converter set up so; a new one where `rebuild` says.
    Convert { setup: ScalerSetup, rebuild: bool },
}

/// The conversion that a frame in a format that is not drawn needs.
pub open spec fn conversion(frame: VideoView, prefer_yuvj422p: bool) -> ScalerSetup {
    ScalerSetup {
        input_format: frame.format,
        input_width: frame.width,
        input_height: frame.height,
        output_format: if prefer_yuvj422p {
            SourcePixel::Yuvj422p
        } else {
            SourcePixel::Nv12
        },
        output_width: frame.width,
        output_height: frame.height,
    }
}

/// What becomes of a decoded frame, given the converter that is at hand.
pub fn capture_frame_from_video(
    frame: &VideoView,
    scaler: Option<ScalerSetup>,
    prefer_yuvj422p: bool,
) -> (step: FrameStep)
    requires
        drawn_as(frame.format) is Some ==> frame.holds(drawn_as(frame.format)->0),
    ensures
        match drawn_as(frame.format) {
            Some(format) => step is Ready && frame.reads_as(format, step->Ready_0),
            None => step == (FrameStep::Convert {
                setup: conversion(*frame, prefer_yuvj422p),
                rebuild: scaler != Some(conversion(*frame, prefer_yuvj422p)),
            }),
        },
        step is Ready <==> frame.format is Nv12 || frame.format is Yuvj422p,
        frame.format is Nv12 ==> step->Ready_0.format == PixelFormat::Nv12,
        frame.format is Yuvj422p ==> step->Ready_0.format == PixelFormat::Yuvj422p,
        step matches FrameStep::Convert { setup, rebuild } ==> {
            &&& setup.input_format == frame.format
            &&& setup.input_width == frame.width && setup.input_height == frame.height
            &&& setup.output_width == frame.width && setup.output_height == frame.height
            &&& prefer_yuvj422p ==> setup.output_format == SourcePixel::Yuvj422p
            &&& !prefer_yuvj422p ==> setup.output_format == SourcePixel::Nv12
            &&& !rebuild <==> scaler == Some(setup)
        },
{
    match frame.format {
        SourcePixel::Nv12 => FrameStep::Ready(
            extract_supported_frame_with_format(frame, PixelFormat::Nv12),
        ),
        SourcePixel::Yuvj422p => FrameStep::Ready(
            extract_supported_frame_with_format(frame, PixelFormat::Yuvj422p),
        ),
        SourcePixel::Other(_) => {
            let target = if prefer_yuvj422p {
                SourcePixel::Yuvj422p
            } else {
                SourcePixel::Nv12
            };
            let setup = ScalerSetup {
                input_format: frame.format,
                input_width: frame.width,
                input_height: frame.height,
                output_format: target,
                output_width: frame.width,
                output_height: frame.height,
            };
            let rebuild = match scaler {
                Some(existing) => existing != setup,
                None => true,
            };
            FrameStep::Convert { setup, rebuild }
        },
    }
}

/// Each byte of a packed plane is the one in its row and column of the source.
pub proof fn law_rows_are_kept(
    source: Seq<u8>,
    stride: nat,
    row_bytes: nat,
    rows: nat,
    row: int,
    column: int,
)
    requires
        0 <= row < rows,
        0 <= column < row_bytes,
    ensures
        packed(source, stride, row_bytes, rows).len() == row_bytes * rows,
        0 <= row * row_bytes + column < row_bytes * rows,
        packed(source, stride, row_bytes, rows)[row * row_bytes + column] == source[row * stride
            + column],
        holds_rows(source.len(), stride, row_bytes, rows) ==> 0 <= row * stride + column
            < source.len(),
{
    lemma_row_position(row, column, row_bytes as int);
    assert(0 <= row * row_bytes + column < row_bytes * rows) by (nonlinear_arith)
        requires
            0 <= row < rows,
            0 <= column < row_bytes,
    ;
    assert(0 <= row * stride <= (rows - 1) * stride) by (nonlinear_arith)
        requires
            0 <= row <= rows - 1,
            0 <= stride,
    ;
}

/// A plane without gaps between its rows is copied as it is.
pub proof fn law_packed_planes_stay_as_they_are(source: Seq<u8>, row_bytes: nat, rows: nat)
    requires
        source.len() == row_bytes * rows,
    ensures
        packed(source, row_bytes, row_bytes, rows) == source,
{
    let all = packed(source, row_bytes, row_bytes, rows);
    assert forall|i: int| 0 <= i < all.len() implies all[i] == source[i] by {
        if row_bytes == 0 {
            assert(row_bytes * rows == 0) by (nonlinear_arith)
                requires
                    row_bytes == 0,
            ;
        } else {
            vstd::arithmetic::div_mod::lemma_fundamental_div_mod(i, row_bytes as int);
            vstd::arithmetic::mul::lemma_mul_is_commutative(
                row_bytes as int,
                i / row_bytes as int,
            );
        }
    }
    assert(all =~= source);
}

/// A plane of one row more takes that row as well.
pub proof fn law_every_row_has_to_be_held(len: nat, stride: nat, row_bytes: nat, rows: nat)
    ensures
        holds_rows(len, stride, row_bytes, 0),
        holds_rows(len, stride, row_bytes, rows + 1) == (rows * stride + row_bytes <= len),
        holds_rows(len, stride, row_bytes, rows + 1) ==> holds_rows(len, stride, row_bytes, rows),
{
    if rows > 0 {
        assert((rows - 1) * stride <= rows * stride) by (nonlinear_arith);
    }
}

/// A frame in `Nv12` has a luma plane and a plane of pairs with half the rows; one in `Yuvj422p`
/// a luma plane and two planes of half the width.
pub proof fn law_planes_of_a_frame(frame: VideoView)
    ensures
        frame.holds(PixelFormat::Nv12) == {
            &&& frame.planes@.len() >= 2
            &&& frame.width * frame.height <= usize::MAX
            &&& frame.height > 0 ==> (frame.height - 1) * frame.planes@[0].stride + frame.width
                <= frame.planes@[0].data@.len()
            &&& frame.height >= 2 ==> (frame.height / 2 - 1) * frame.planes@[1].stride + frame.width
                <= frame.planes@[1].data@.len()
        },
        frame.holds(PixelFormat::Yuvj422p) == {
            &&& frame.planes@.len() >= 3
            &&& frame.width * frame.height <= usize::MAX
            &&& frame.height > 0 ==> {
                &&& (frame.height - 1) * frame.planes@[0].stride + frame.width
                    <= frame.planes@[0].data@.len()
                &&& (frame.height - 1) * frame.planes@[1].stride + frame.width / 2
                    <= frame.planes@[1].data@.len()
                &&& (frame.height - 1) * frame.planes@[2].stride + frame.width / 2
                    <= frame.planes@[2].data@.len()
            }
        },
{
    assert(frame.planes@[0].data@.len() >= 0);
    assert(frame.planes@[1].data@.len() >= 0);
    assert(frame.planes@[2].data@.len() >= 0);
}

/// The frame that is drawn has the pixels of the decoded one: each in its row and column.
pub proof fn law_pixels_are_those_of_the_video(
    video: VideoView,
    format: PixelFormat,
    frame: CaptureFrame,
    row: int,
    column: int,
)
    requires
        video.reads_as(format, frame),
    ensures
        0 <= row < video.height && 0 <= column < video.width ==> frame.y_data@[row * video.width
            + column] == video.planes@[0].data@[row * video.planes@[0].stride + column],
        format == PixelFormat::Nv12 && 0 <= row < video.height / 2 && 0 <= column < video.width
            ==> frame.u_data@[row * video.width + column] == video.planes@[1].data@[row
            * video.planes@[1].stride + column],
        format == PixelFormat::Nv12 ==> frame.v_data@.len() == 0,
        format == PixelFormat::Yuvj422p && 0 <= row < video.height && 0 <= column < video.width / 2
            ==> frame.u_data@[row * (video.width / 2) + column] == video.planes@[1].data@[row
            * video.planes@[1].stride + column] && frame.v_data@[row * (video.width / 2) + column]
            == video.planes@[2].data@[row * video.planes@[2].stride + column],
{
    let width = video.width as nat;
    let height = video.height as nat;
    if 0 <= row < height && 0 <= column < width {
        law_rows_are_kept(
            video.planes@[0].data@,
            video.planes@[0].stride as nat,
            width,
            height,
            row,
            column,
        );
    }
    if format == PixelFormat::Nv12 && 0 <= row < height / 2 && 0 <= column < width {
        law_rows_are_kept(
            video.planes@[1].data@,
            video.planes@[1].stride as nat,
            width,
            height / 2,
            row,
            column,
        );
    }
    if format == PixelFormat::Yuvj422p && 0 <= row < height && 0 <= column < width / 2 {
        law_rows_are_kept(
            video.planes@[1].data@,
            video.planes@[1].stride as nat,
            width / 2,
            height,
            row,
            column,
        );
        law_rows_are_kept(
            video.planes@[2].data@,
            video.planes@[2].stride as nat,
            width / 2,
            height,
            row,
            column,
        );
    }
}

/// A format is drawn as itself, and every other one has to be converted.
pub proof fn law_formats_are_drawn_as_themselves(number: i32)
    ensures
        drawn_as(SourcePixel::Nv12) == Some(PixelFormat::Nv12),
        drawn_as(SourcePixel::Yuvj422p) == Some(PixelFormat::Yuvj422p),
        drawn_as(SourcePixel::Other(number)) == None::<PixelFormat>,
{
}

/// What a converter gives can be drawn, and has the size of what went in.
pub proof fn law_conversion_gives_what_can_be_drawn(frame: VideoView, prefer_yuvj422p: bool)
    ensures
        ({
            let setup = conversion(frame, prefer_yuvj422p);
            &&& drawn_as(setup.output_format) == Some(
                if prefer_yuvj422p {
                    PixelFormat::Yuvj422p
                } else {
                    PixelFormat::Nv12
                },
            )
            &&& setup.output_width == setup.input_width == frame.width
            &&& setup.output_height == setup.input_height == frame.height
            &&& setup.input_format == frame.format
        }),
{
}

}
