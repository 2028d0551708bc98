//! Drawing: how the window's surface is set up and what is uploaded for each frame.
use vstd::prelude::*;

use crate::capture::{CaptureFrame, PixelFormat};
use crate::planes::{deinterleave_nv12, fits_rows, pad_rows};

verus! {

/// Why drawing failed. Causes outside of this library are given in words.
#[derive(Debug)]
pub enum RenderError {
    AdapterUnavailable,
    CreateSurface(String),
    OutOfMemory,
    RequestDevice(String),
    Surface(String),
    SurfaceFormatUnavailable,
}

impl RenderError {
    /// The error in words.
    pub open spec fn text(&self) -> Seq<char> {
        match *self {
            RenderError::AdapterUnavailable => "no suitable GPU adapter found"@,
            RenderError::CreateSurface(cause) => "failed to create surface: "@ + cause@,
            RenderError::OutOfMemory => "GPU ran out of memory"@,
            RenderError::RequestDevice(cause) => "failed to request device: "@ + cause@,
            RenderError::Surface(cause) => "surface error: "@ + cause@,
            RenderError::SurfaceFormatUnavailable => "surface reported no usable formats"@,
        }
    }

    /// The error in words.
    pub fn message(&self) -> (message: String)
        ensures
            message@ == self.text(),
            match *self {
                RenderError::AdapterUnavailable => message@ == "no suitable GPU adapter found"@,
                RenderError::CreateSurface(cause) => message@ == "failed to create surface: "@
                    + cause@,
                RenderError::OutOfMemory => message@ == "GPU ran out of memory"@,
                RenderError::RequestDevice(cause) => message@ == "failed to request device: "@
                    + cause@,
                RenderError::Surface(cause) => message@ == "surface error: "@ + cause@,
                RenderError::SurfaceFormatUnavailable => message@
                    == "surface reported no usable formats"@,
            },
    {
        match self {
            RenderError::AdapterUnavailable => "no suitable GPU adapter found".to_owned(),
            RenderError::CreateSurface(cause) => {
                let mut message = "failed to create surface: ".to_owned();
                message.append(cause.as_str());
                message
            },
            RenderError::OutOfMemory => "GPU ran out of memory".to_owned(),
            RenderError::RequestDevice(cause) => {
                let mut message = "failed to request device: ".to_owned();
                message.append(cause.as_str());
                message
            },
            RenderError::Surface(cause) => {
                let mut message = "surface error: ".to_owned();
                message.append(cause.as_str());
                message
            },
            RenderError::SurfaceFormatUnavailable => {
                "surface reported no usable formats".to_owned()
            },
        }
    }
}

/// A texture format that a surface offers.
#[derive(Debug, Clone, Copy, PartialEq, Eq, Structural)]
pub enum SurfaceFormat {
    Bgra8Unorm,
    Other,
}

/// How frames are handed to the display.
#[derive(Debug, Clone, Copy, PartialEq, Eq, Structural)]
pub enum PresentMode {
    AutoVsync,
    Fifo,
    Other,
}

/// How the window blends with what is behind it.
#[derive(Debug, Clone, Copy, PartialEq, Eq, Structural)]
pub enum AlphaMode {
    Opaque,
    Auto,
    Other,
}

/// How a surface is configured.
#[derive(Debug, Clone, Copy, PartialEq, Eq, Structural)]
pub struct SurfacePlan {
    /// The place of the chosen format among those that the surface offers.
    pub format: usize,
    pub width: u32,
    pub height: u32,
    pub present_mode: PresentMode,
    pub alpha_mode: AlphaMode,
    pub frame_latency: u32,
}

/// `n`, but at least one.
pub open spec fn at_least_one(n: u32) -> u32 {
    if n == 0 {
        1
    } else {
        n
    }
}

/// `n`, but at least one.
fn one_or_more(n: u32) -> (m: u32)
    ensures
        m == at_least_one(n),
{
    if n == 0 {
        1
    } else {
        n
    }
}

/// The place of the format to draw in: the first `Bgra8Unorm`, else the first format; none
/// where none is offered.
pub fn choose_surface_format(formats: &[SurfaceFormat]) -> (chosen: Option<usize>)
    ensures
        match chosen {
            Some(chosen) => chosen < formats@.len() && if formats@.contains(
                SurfaceFormat::Bgra8Unorm,
            ) {
                formats@[chosen as int] == SurfaceFormat::Bgra8Unorm && forall|i: int|
                    0 <= i < chosen ==> formats@[i] != SurfaceFormat::Bgra8Unorm
            } else {
                chosen == 0
            },
            None => formats@.len() == 0,
        },
{
    let mut i: usize = 0;
    while i < formats.len()
        invariant
            i <= formats.len(),
            forall|j: int| 0 <= j < i ==> formats@[j] != SurfaceFormat::Bgra8Unorm,
        decreases formats.len() - i,
    {
        if formats[i] == SurfaceFormat::Bgra8Unorm {
            return Some(i);
        }
        i += 1;
    }
    if formats.len() > 0 {
        Some(0)
    } else {
        None
    }
}

/// Vertical synchronisation where it is offered, else first in first out.
pub fn choose_present_mode(offered: &[PresentMode]) -> (chosen: PresentMode)
    ensures
        chosen == if offered@.contains(PresentMode::AutoVsync) {
            PresentMode::AutoVsync
        } else {
            PresentMode::Fifo
        },
{
    let mut i: usize = 0;
    while i < offered.len()
        invariant
            i <= offered.len(),
            forall|j: int| 0 <= j < i ==> offered@[j] != PresentMode::AutoVsync,
        decreases offered.len() - i,
    {
        if offered[i] == PresentMode::AutoVsync {
            return PresentMode::AutoVsync;
        }
        i += 1;
    }
    PresentMode::Fifo
}

/// An opaque window where it is offered, else whatever the system chooses.
pub fn choose_alpha_mode(offered: &[AlphaMode]) -> (chosen: AlphaMode)
    ensures
        chosen == if offered@.contains(AlphaMode::Opaque) {
            AlphaMode::Opaque
        } else {
            AlphaMode::Auto
        },
{
    let mut i: usize = 0;
    while i < offered.len()
        invariant
            i <= offered.len(),
            forall|j: int| 0 <= j < i ==> offered@[j] != AlphaMode::Opaque,
        decreases offered.len() - i,
    {
        if offered[i] == AlphaMode::Opaque {
            return AlphaMode::Opaque;
        }
        i += 1;
    }
    AlphaMode::Auto
}

/// How to configure the surface of a window of the given size.
pub fn plan_surface(
    width: u32,
    height: u32,
    formats: &[SurfaceFormat],
    present_modes: &[PresentMode],
    alpha_modes: &[AlphaMode],
) -> (plan: Result<SurfacePlan, RenderError>)
    ensures
        match plan {
            Ok(plan) => {
                &&& plan.format < formats@.len()
                &&& if formats@.contains(SurfaceFormat::Bgra8Unorm) {
                    formats@[plan.format as int] == SurfaceFormat::Bgra8Unorm && forall|i: int|
                        0 <= i < plan.format ==> formats@[i] != SurfaceFormat::Bgra8Unorm
                } else {
                    plan.format == 0
                }
                &&& plan.width == at_least_one(width)
                &&& plan.height == at_least_one(height)
                &&& plan.present_mode == if present_modes@.contains(PresentMode::AutoVsync) {
                    PresentMode::AutoVsync
                } else {
                    PresentMode::Fifo
                }
                &&& plan.alpha_mode == if alpha_modes@.contains(AlphaMode::Opaque) {
                    AlphaMode::Opaque
                } else {
                    AlphaMode::Auto
                }
                &&& plan.frame_latency == 2
            },
            Err(error) => formats@.len() == 0 && error == RenderError::SurfaceFormatUnavailable,
        },
        plan is Ok <==> formats@.len() > 0,
        plan is Ok && width > 0 ==> plan->Ok_0.width == width,
        plan is Ok && width == 0 ==> plan->Ok_0.width == 1,
        plan is Ok && height > 0 ==> plan->Ok_0.height == height,
        plan is Ok && height == 0 ==> plan->Ok_0.height == 1,
{
    match choose_surface_format(formats) {
        Some(format) => Ok(
            SurfacePlan {
                format,
                width: one_or_more(width),
                height: one_or_more(height),
                present_mode: choose_present_mode(present_modes),
                alpha_mode: choose_alpha_mode(alpha_modes),
                frame_latency: 2,
            },
        ),
        None => Err(RenderError::SurfaceFormatUnavailable),
    }
}

/// The size of the window and the size that its surface is configured for.
#[derive(Debug, Clone, Copy, PartialEq, Eq, Structural)]
pub struct SurfaceSize {
    pub width: u32,
    pub height: u32,
    pub configured_width: u32,
    pub configured_height: u32,
}

impl SurfaceSize {
    /// The surface is never configured without an extent, and a window with an extent has a
    /// surface of just its size.
    pub open spec fn valid(&self) -> bool {
        &&& self.configured_width > 0 && self.configured_height > 0
        &&& self.width > 0 && self.height > 0 ==> self.configured_width == self.width
            && self.configured_height == self.height
    }

    /// The surface of a new window.
    pub fn new(width: u32, height: u32) -> (size: SurfaceSize)
        ensures
            size == (SurfaceSize {
                width,
                height,
                configured_width: at_least_one(width),
                configured_height: at_least_one(height),
            }),
            size.valid(),
            width > 0 ==> size.configured_width == width,
            width == 0 ==> size.configured_width == 1,
            height > 0 ==> size.configured_height == height,
            height == 0 ==> size.configured_height == 1,
    {
        SurfaceSize {
            width,
            height,
            configured_width: one_or_more(width),
            configured_height: one_or_more(height),
        }
    }

    /// Takes on the window's new size. Says whether to configure the surface anew; it is left
    /// alone while the window has no extent.
    pub fn resize(&mut self, width: u32, height: u32) -> (configure: bool)
        requires
            old(self).valid(),
        ensures
            final(self).valid(),
            configure == (width > 0 && height > 0),
            *final(self) == if width > 0 && height > 0 {
                SurfaceSize { width, height, configured_width: width, configured_height: height }
            } else {
                SurfaceSize { width, height, ..*old(self) }
            },
    {
        self.width = width;
        self.height = height;
        if width == 0 || height == 0 {
            return false;
        }
        self.configured_width = width;
        self.configured_height = height;
        true
    }

    /// There is something to draw on.
    pub fn drawable(&self) -> (drawable: bool)
        ensures
            drawable == (self.width > 0 && self.height > 0),
    {
        self.width != 0 && self.height != 0
    }
}

/// What came of asking the surface for the next texture to draw on.
#[derive(Debug)]
pub enum Acquired {
    Texture,
    Lost,
    Outdated,
    Timeout,
    OutOfMemory,
    Other(String),
}

/// What to do about the next frame.
#[derive(Debug)]
pub enum DrawStep {
    /// Draw it.
    Draw,
    /// Configure the surface anew and leave the frame out.
    Configure,
    /// Leave the frame out.
    Skip,
    /// Give up.
    Fail(RenderError),
}

/// What to do about the next frame, after the surface was asked for a texture.
pub fn draw_step(acquired: Acquired) -> (step: DrawStep)
    ensures
        step == match acquired {
            Acquired::Texture => DrawStep::Draw,
            Acquired::Lost => DrawStep::Configure,
            Acquired::Outdated => DrawStep::Configure,
            Acquired::Timeout => DrawStep::Skip,
            Acquired::OutOfMemory => DrawStep::Fail(RenderError::OutOfMemory),
            Acquired::Other(cause) => DrawStep::Fail(RenderError::Surface(cause)),
        },
{
    match acquired {
        Acquired::Texture => DrawStep::Draw,
        Acquired::Lost => DrawStep::Configure,
        Acquired::Outdated => DrawStep::Configure,
        Acquired::Timeout => DrawStep::Skip,
        Acquired::OutOfMemory => DrawStep::Fail(RenderError::OutOfMemory),
        Acquired::Other(cause) => DrawStep::Fail(RenderError::Surface(cause)),
    }
}

/// The extent of the texture for a plane: at least one pixel each way.
pub fn texture_extent(width: u32, height: u32) -> (extent: (u32, u32))
    ensures
        extent == (at_least_one(width), at_least_one(height)),
        width > 0 ==> extent.0 == width,
        width == 0 ==> extent.0 == 1,
        height > 0 ==> extent.1 == height,
        height == 0 ==> extent.1 == 1,
{
    (one_or_more(width), one_or_more(height))
}

/// The extent of the chroma planes of a frame.
pub open spec fn chroma_extent(format: PixelFormat, width: u32, height: u32) -> (u32, u32) {
    match format {
        PixelFormat::Nv12 => (width / 2, height / 2),
        PixelFormat::Yuvj422p => (width / 2, height),
    }
}

/// The extent of the chroma planes of a frame.
pub fn chroma_size(format: PixelFormat, width: u32, height: u32) -> (extent: (u32, u32))
    ensures
        extent == chroma_extent(format, width, height),
        extent.0 == width / 2,
        format == PixelFormat::Nv12 ==> extent.1 == height / 2,
        format == PixelFormat::Yuvj422p ==> extent.1 == height,
{
    match format {
        PixelFormat::Nv12 => (width / 2, height / 2),
        PixelFormat::Yuvj422p => (width / 2, height),
    }
}

/// The parameters of the shader that turns planes into colours.
#[derive(Debug, Clone, Copy, PartialEq, Eq)]
pub struct VideoUniforms {
    pub format_mode: u32,
    pub padding: [u32; 7],
}

/// Byte `k` of `word`, counted from the lowest one.
pub open spec fn byte_of(word: u32, k: int) -> u8 {
    (if k == 0 {
        word % 256
    } else if k == 1 {
        word / 256 % 256
    } else if k == 2 {
        word / 65536 % 256
    } else {
        word / 16777216
    }) as u8
}

/// `words` byte by byte, the lowest byte of each word first.
pub open spec fn low_bytes_first(words: Seq<u32>) -> Seq<u8> {
    Seq::new(4 * words.len(), |i: int| byte_of(words[i / 4], i % 4))
}

/// `words` byte by byte, the highest byte of each word first.
pub open spec fn high_bytes_first(words: Seq<u32>) -> Seq<u8> {
    Seq::new(4 * words.len(), |i: int| byte_of(words[i / 4], 3 - i % 4))
}

/// `bytemuck::bytes_of`: the bytes of the words as they lie in memory. Which end of a word comes
/// first depends on the machine.
#[verifier::external_body]
fn memory_bytes(words: &[u32; 8]) -> (bytes: Vec<u8>)
    ensures
        bytes@ == low_bytes_first(words@) || bytes@ == high_bytes_first(words@),
{
    bytemuck::bytes_of(words).to_vec()
}

impl VideoUniforms {
    /// The parameters as words.
    pub open spec fn words(&self) -> Seq<u32> {
        seq![self.format_mode] + self.padding@
    }

    /// The parameters for frames in `format`.
    pub fn for_format(format: PixelFormat) -> (uniforms: VideoUniforms)
        ensures
            uniforms.words() == seq![
                match format {
                    PixelFormat::Nv12 => 0u32,
                    PixelFormat::Yuvj422p => 1u32,
                },
                0u32,
                0u32,
                0u32,
                0u32,
                0u32,
                0u32,
                0u32,
            ],
    {
        let format_mode: u32 = match format {
            PixelFormat::Nv12 => 0,
            PixelFormat::Yuvj422p => 1,
        };
        let uniforms = VideoUniforms { format_mode, padding: [0, 0, 0, 0, 0, 0, 0] };
        assert(uniforms.words() =~= seq![
            format_mode,
            0u32,
            0u32,
            0u32,
            0u32,
            0u32,
            0u32,
            0u32,
        ]);
        uniforms
    }

    /// The parameters as the bytes that the GPU reads, in the byte order of the machine.
    pub fn bytes(&self) -> (bytes: Vec<u8>)
        ensures
            bytes@ == low_bytes_first(self.words()) || bytes@ == high_bytes_first(self.words()),
            bytes@.len() == 32,
    {
        let words: [u32; 8] = [
            self.format_mode,
            self.padding[0],
            self.padding[1],
            self.padding[2],
            self.padding[3],
            self.padding[4],
            self.padding[5],
            self.padding[6],
        ];
        assert(words@ =~= self.words());
        memory_bytes(&words)
    }
}

/// What the textures of a video were made for.
#[derive(Debug, Clone, Copy, PartialEq, Eq, Structural)]
pub struct VideoKey {
    pub width: u32,
    pub height: u32,
    pub format: PixelFormat,
}

/// The pixels to write to the texture of one plane.
#[derive(Debug)]
pub struct PlaneUpload {
    pub width: u32,
    pub height: u32,
    pub bytes_per_row: u32,
    pub data: Vec<u8>,
}

impl PlaneUpload {
    /// The upload writes the plane `data` of `width` times `height` bytes, laid out for the GPU.
    pub open spec fn writes(&self, width: u32, height: u32, data: Seq<u8>) -> bool {
        &&& self.width == width
        &&& self.height == height
        &&& self.bytes_per_row == crate::planes::row_pitch(width as nat) as u32
        &&& self.data@ == crate::planes::padded(data, width as nat, height as nat)
    }
}

/// Reading the rows of an uploaded plane gives back the plane.
pub proof fn law_uploads_read_back(upload: PlaneUpload, width: u32, height: u32, data: Seq<u8>)
    requires
        upload.writes(width, height, data),
        crate::planes::row_pitch(width as nat) <= u32::MAX,
        width * height <= data.len(),
    ensures
        crate::frames::packed(
            upload.data@,
            upload.bytes_per_row as nat,
            width as nat,
            height as nat,
        ) == data.take(width * height),
{
    crate::planes::law_laid_out_rows_read_back(data, width as nat, height as nat);
}

/// What to upload for a frame.
#[derive(Debug)]
pub struct FrameUpload {
    pub key: VideoKey,
    /// New textures have to be made first.
    pub rebuild: bool,
    pub uniforms: Vec<u8>,
    pub y: PlaneUpload,
    pub u: PlaneUpload,
    pub v: PlaneUpload,
}

/// The planes of `frame` hold enough pixels to be uploaded.
pub open spec fn uploadable(frame: CaptureFrame) -> bool {
    let (width, height) = chroma_extent(frame.format, frame.width, frame.height);
    &&& crate::planes::can_pad(frame.y_data@.len(), frame.width as nat, frame.height as nat)
    &&& match frame.format {
        PixelFormat::Nv12 => {
            let pairs = crate::planes::pair_count(frame.width, frame.height);
            &&& 2 * pairs <= frame.u_data@.len()
            &&& crate::planes::can_pad(pairs, width as nat, height as nat)
        },
        PixelFormat::Yuvj422p => {
            &&& crate::planes::can_pad(frame.u_data@.len(), width as nat, height as nat)
            &&& crate::planes::can_pad(frame.v_data@.len(), width as nat, height as nat)
        },
    }
}

/// The first chroma plane of `frame`.
pub open spec fn u_plane(frame: CaptureFrame) -> Seq<u8> {
    match frame.format {
        PixelFormat::Nv12 => crate::planes::firsts(
            frame.u_data@,
            crate::planes::pair_count(frame.width, frame.height),
        ),
        PixelFormat::Yuvj422p => frame.u_data@,
    }
}

/// The second chroma plane of `frame`.
pub open spec fn v_plane(frame: CaptureFrame) -> Seq<u8> {
    match frame.format {
        PixelFormat::Nv12 => crate::planes::seconds(
            frame.u_data@,
            crate::planes::pair_count(frame.width, frame.height),
        ),
        PixelFormat::Yuvj422p => frame.v_data@,
    }
}

/// The planes of `frame` hold enough pixels to be uploaded.
pub fn can_upload(frame: &CaptureFrame) -> (can: bool)
    ensures
        can == uploadable(*frame),
        frame.format == PixelFormat::Nv12 ==> can == {
            &&& crate::planes::can_pad(frame.y_data@.len(), frame.width as nat, frame.height as nat)
            &&& 2 * ((frame.width / 2) * (frame.height / 2)) <= frame.u_data@.len()
            &&& crate::planes::can_pad(
                ((frame.width / 2) * (frame.height / 2)) as nat,
                (frame.width / 2) as nat,
                (frame.height / 2) as nat,
            )
        },
        frame.format == PixelFormat::Yuvj422p ==> can == {
            &&& crate::planes::can_pad(frame.y_data@.len(), frame.width as nat, frame.height as nat)
            &&& crate::planes::can_pad(
                frame.u_data@.len(),
                (frame.width / 2) as nat,
                frame.height as nat,
            )
            &&& crate::planes::can_pad(
                frame.v_data@.len(),
                (frame.width / 2) as nat,
                frame.height as nat,
            )
        },
{
    let (width, height) = chroma_size(frame.format, frame.width, frame.height);
    if !fits_rows(frame.y_data.len(), frame.width as usize, frame.height as usize) {
        return false;
    }
    match frame.format {
        PixelFormat::Nv12 => {
            let u_len: usize = frame.u_data.len();
            let pairs = match (width as usize).checked_mul(height as usize) {
                Some(pairs) => pairs,
                None => return false,
            };
            pairs <= u_len / 2 && fits_rows(pairs, width as usize, height as usize)
        },
        PixelFormat::Yuvj422p => fits_rows(frame.u_data.len(), width as usize, height as usize)
            && fits_rows(frame.v_data.len(), width as usize, height as usize),
    }
}

/// Lays out one plane for upload.
fn plane_upload(width: u32, height: u32, data: &[u8]) -> (upload: PlaneUpload)
    requires
        crate::planes::can_pad(data@.len(), width as nat, height as nat),
    ensures
        upload.writes(width, height, data@),
{
    let (data, bytes_per_row) = pad_rows(data, width as usize, height as usize);
    PlaneUpload { width, height, bytes_per_row, data }
}

/// What to upload for `frame`, given what the textures at hand were made for. Textures for
/// another size or format cannot be used.
pub fn upload_frame(textures: Option<VideoKey>, frame: &CaptureFrame) -> (upload: FrameUpload)
    requires
        uploadable(*frame),
    ensures
        upload.key == (VideoKey {
            width: frame.width,
            height: frame.height,
            format: frame.format,
        }),
        upload.rebuild == (textures != Some(upload.key)),
        ({
            let mode = match frame.format {
                PixelFormat::Nv12 => 0u32,
                PixelFormat::Yuvj422p => 1u32,
            };
            let words = seq![mode, 0u32, 0u32, 0u32, 0u32, 0u32, 0u32, 0u32];
            upload.uniforms@ == low_bytes_first(words) || upload.uniforms@ == high_bytes_first(
                words,
            )
        }),
        upload.y.writes(frame.width, frame.height, frame.y_data@),
        ({
            let (width, height) = chroma_extent(frame.format, frame.width, frame.height);
            &&& upload.u.writes(width, height, u_plane(*frame))
            &&& upload.v.writes(width, height, v_plane(*frame))
        }),
        upload.key.width == frame.width && upload.key.height == frame.height && upload.key.format
            == frame.format,
        upload.rebuild <==> textures is None || textures->0.width != frame.width
            || textures->0.height != frame.height || textures->0.format != frame.format,
        upload.uniforms@.len() == 32,
        upload.y.width == frame.width && upload.y.height == frame.height,
        upload.u.width == frame.width / 2 && upload.v.width == frame.width / 2,
        upload.u.height == upload.v.height,
        frame.format == PixelFormat::Nv12 ==> upload.u.height == frame.height / 2,
        frame.format == PixelFormat::Yuvj422p ==> upload.u.height == frame.height,
{
    let key = VideoKey { width: frame.width, height: frame.height, format: frame.format };
    let rebuild = match textures {
        Some(held) => held != key,
        None => true,
    };
    let uniforms = VideoUniforms::for_format(frame.format).bytes();
    let (width, height) = chroma_size(frame.format, frame.width, frame.height);
    let y = plane_upload(frame.width, frame.height, frame.y_data.as_slice());
    let (u, v) = match frame.format {
        PixelFormat::Nv12 => {
            let (u_data, v_data) = deinterleave_nv12(
                frame.width,
                frame.height,
                frame.u_data.as_slice(),
            );
            (
                plane_upload(width, height, u_data.as_slice()),
                plane_upload(width, height, v_data.as_slice()),
            )
        },
        PixelFormat::Yuvj422p => (
            plane_upload(width, height, frame.u_data.as_slice()),
            plane_upload(width, height, frame.v_data.as_slice()),
        ),
    };
    FrameUpload { key, rebuild, uniforms, y, u, v }
}

/// A frame whose rows fit the machine: its padded planes can be addressed.
pub open spec fn addressable(width: u32, height: u32) -> bool {
    &&& crate::planes::row_pitch(width as nat) <= usize::MAX
    &&& crate::planes::row_pitch(width as nat) * height <= usize::MAX
}

/// Smaller planes of an addressable frame are addressable.
pub proof fn lemma_smaller_planes(width: u32, height: u32, w: u32, h: u32)
    requires
        addressable(width, height),
        w <= width,
        h <= height,
    ensures
        addressable(w, h),
        w * h <= crate::planes::row_pitch(w as nat) * h,
{
    let pitch = crate::planes::row_pitch(width as nat);
    let smaller = crate::planes::row_pitch(w as nat);
    assert(smaller <= pitch);
    assert(smaller * h <= pitch * height) by (nonlinear_arith)
        requires
            smaller <= pitch,
            h <= height,
    ;
    assert(w * h <= smaller * h) by (nonlinear_arith)
        requires
            w <= smaller,
    ;
}

/// Every frame that is read from a decoded frame can be uploaded.
pub proof fn law_decoded_frames_upload(
    view: crate::frames::VideoView,
    format: PixelFormat,
    frame: CaptureFrame,
)
    requires
        view.reads_as(format, frame),
        addressable(view.width, view.height),
    ensures
        uploadable(frame),
{
    let (w, h) = chroma_extent(format, frame.width, frame.height);
    lemma_smaller_planes(frame.width, frame.height, frame.width, frame.height);
    lemma_smaller_planes(frame.width, frame.height, w, h);
    if format == PixelFormat::Nv12 {
        assert(2 * (w as nat * h as nat) <= frame.width as nat * (frame.height as nat / 2))
            by (nonlinear_arith)
            requires
                2 * w <= frame.width,
                h == frame.height as nat / 2,
        ;
    }
}

/// Every frame of the test pattern can be uploaded.
pub proof fn law_pattern_frames_upload(
    values: crate::pattern::PatternValues,
    width: u32,
    height: u32,
    frame: CaptureFrame,
)
    requires
        values.covers(width, height, frame.format),
        addressable(width, height),
        crate::pattern::draws(frame, width, height, frame.format, values),
    ensures
        uploadable(frame),
{
    let (w, h) = chroma_extent(frame.format, width, height);
    lemma_smaller_planes(width, height, width, height);
    lemma_smaller_planes(width, height, w, h);
}

/// The chroma planes that are uploaded for a frame of the test pattern are those of the pattern,
/// whichever format it is in.
pub proof fn law_pattern_chroma_is_uploaded(
    values: crate::pattern::PatternValues,
    width: u32,
    height: u32,
    frame: CaptureFrame,
)
    requires
        values.covers(width, height, frame.format),
        crate::pattern::draws(frame, width, height, frame.format, values),
    ensures
        u_plane(frame) == crate::pattern::column_plane(
            values.chroma_columns@,
            values.chroma_rows@.len(),
        ),
        v_plane(frame) == crate::pattern::row_plane(
            values.chroma_rows@,
            values.chroma_columns@.len(),
        ),
{
    let columns = crate::pattern::column_plane(values.chroma_columns@, values.chroma_rows@.len());
    let rows = crate::pattern::row_plane(values.chroma_rows@, values.chroma_columns@.len());
    crate::planes::law_pairs_come_apart_and_together(seq![], 0, columns, rows);
    if frame.format == PixelFormat::Nv12 {
        let pairs = crate::pattern::interleaved(columns, rows);
        assert(u_plane(frame) =~= crate::planes::firsts(pairs, columns.len()));
        assert(v_plane(frame) =~= crate::planes::seconds(pairs, columns.len()));
    }
}

/// What has an extent keeps it, and what has none gets the smallest.
pub proof fn law_extents_are_kept(n: u32)
    ensures
        at_least_one(n) >= 1,
        n >= 1 ==> at_least_one(n) == n,
        n == 0 ==> at_least_one(n) == 1,
{
}

/// The chroma planes have half the columns of a frame, and in `Nv12` half its rows.
pub proof fn law_chroma_has_half_the_columns(format: PixelFormat, width: u32, height: u32)
    ensures
        chroma_extent(format, width, height).0 == width / 2,
        chroma_extent(PixelFormat::Nv12, width, height).1 == height / 2,
        chroma_extent(PixelFormat::Yuvj422p, width, height).1 == height,
{
}

/// The bytes of a word make it up.
pub proof fn law_bytes_make_up_the_word(word: u32)
    ensures
        byte_of(word, 0) + 256 * byte_of(word, 1) + 65536 * byte_of(word, 2) + 16777216 * byte_of(
            word,
            3,
        ) == word,
{
}

/// The words lie one behind the other, four bytes each, in one of the two orders of bytes.
pub proof fn law_words_lie_behind_each_other(words: Seq<u32>, word: int, k: int)
    requires
        0 <= word < words.len(),
        0 <= k < 4,
    ensures
        low_bytes_first(words).len() == 4 * words.len(),
        high_bytes_first(words).len() == 4 * words.len(),
        low_bytes_first(words)[4 * word + k] == byte_of(words[word], k),
        high_bytes_first(words)[4 * word + 3 - k] == byte_of(words[word], k),
{
}

/// An upload has the extent of its plane, rows at a multiple of 256 bytes, and each pixel of the
/// plane in its row and column.
pub proof fn law_uploaded_pixels(
    upload: PlaneUpload,
    width: u32,
    height: u32,
    data: Seq<u8>,
    x: int,
    y: int,
)
    requires
        upload.writes(width, height, data),
        width <= u32::MAX - 255,
        width * height <= data.len(),
        0 <= x < width,
        0 <= y < height,
    ensures
        upload.width == width,
        upload.height == height,
        upload.bytes_per_row % 256 == 0,
        width <= upload.bytes_per_row < width + 256,
        upload.data@[y * upload.bytes_per_row + x] == data[y * width + x],
{
    crate::planes::law_rows_start_at_the_pitch(data, width as nat, height as nat, y, x);
}

/// The chroma planes of a frame are its second and third plane, or the first and the second of
/// each pair.
pub proof fn law_chroma_of_a_frame(frame: CaptureFrame, i: int)
    ensures
        frame.format == PixelFormat::Yuvj422p ==> u_plane(frame) == frame.u_data@ && v_plane(frame)
            == frame.v_data@,
        frame.format == PixelFormat::Nv12 ==> u_plane(frame).len() == (frame.width / 2) * (
        frame.height / 2) && v_plane(frame).len() == (frame.width / 2) * (frame.height / 2),
        frame.format == PixelFormat::Nv12 && 0 <= i < (frame.width / 2) * (frame.height / 2)
            ==> u_plane(frame)[i] == frame.u_data@[2 * i] && v_plane(frame)[i] == frame.u_data@[2
            * i + 1],
{
}

/// A frame with all its pixels can be uploaded, as far as its padded planes can be addressed.
pub proof fn law_whole_frames_upload(frame: CaptureFrame)
    requires
        (frame.width as int + 255) / 256 * 256 <= usize::MAX,
        (frame.width as int + 255) / 256 * 256 * frame.height <= usize::MAX,
        frame.width * frame.height <= frame.y_data@.len(),
        frame.format == PixelFormat::Nv12 ==> 2 * ((frame.width / 2) * (frame.height / 2))
            <= frame.u_data@.len(),
        frame.format == PixelFormat::Yuvj422p ==> (frame.width / 2) * frame.height
            <= frame.u_data@.len() && (frame.width / 2) * frame.height <= frame.v_data@.len(),
    ensures
        addressable(frame.width, frame.height),
        uploadable(frame),
{
    let (w, h) = chroma_extent(frame.format, frame.width, frame.height);
    lemma_smaller_planes(frame.width, frame.height, frame.width, frame.height);
    lemma_smaller_planes(frame.width, frame.height, w, h);
}

}
