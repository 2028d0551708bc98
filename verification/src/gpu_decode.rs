//! Decoding JPEG frames on the GPU: the order of the steps, what each failure means, and the
//! memory that decoded planes are copied to.
//!
//! The calls into the driver are made elsewhere; their status codes come in here.
use vstd::prelude::*;

use crate::capture::{CaptureFrame, PixelFormat};
use crate::text::signed_decimal;

verus! {

/// Why a frame could not be decoded.
#[derive(Debug)]
pub enum GpuDecodeError {
    /// A call into the CUDA driver failed with this code.
    Cuda(&'static str, i32),
    /// A call into nvJPEG failed with this code.
    Nvjpeg(&'static str, i32),
    InvalidData(String),
}

impl GpuDecodeError {
    /// The error in words.
    pub open spec fn text(&self) -> Seq<char> {
        match *self {
            GpuDecodeError::Cuda(call, code) => "CUDA "@ + call@ + " failed (error "@
                + crate::text::signed_digits(code as int) + ")"@,
            GpuDecodeError::Nvjpeg(call, code) => "nvJPEG "@ + call@ + " failed (error "@
                + crate::text::signed_digits(code as int) + ")"@,
            GpuDecodeError::InvalidData(cause) => "invalid JPEG data: "@ + cause@,
        }
    }

    /// The error in words.
    pub fn message(&self) -> (message: String)
        ensures
            message@ == self.text(),
            match *self {
                GpuDecodeError::Cuda(call, code) => message@ == "CUDA "@ + call@
                    + " failed (error "@ + crate::text::signed_digits(code as int) + ")"@,
                GpuDecodeError::Nvjpeg(call, code) => message@ == "nvJPEG "@ + call@
                    + " failed (error "@ + crate::text::signed_digits(code as int) + ")"@,
                GpuDecodeError::InvalidData(cause) => message@ == "invalid JPEG data: "@ + cause@,
            },
    {
        match self {
            GpuDecodeError::Cuda(call, code) => {
                let mut message = "CUDA ".to_owned();
                message.append(call);
                message.append(" failed (error ");
                message.append(signed_decimal(*code).as_str());
                message.append(")");
                message
            },
            GpuDecodeError::Nvjpeg(call, code) => {
                let mut message = "nvJPEG ".to_owned();
                message.append(call);
                message.append(" failed (error ");
                message.append(signed_decimal(*code).as_str());
                message.append(")");
                message
            },
            GpuDecodeError::InvalidData(cause) => {
                let mut message = "invalid JPEG data: ".to_owned();
                message.append(cause.as_str());
                message
            },
        }
    }
}

/// The status code of success, of the driver and of nvJPEG alike.
pub const STATUS_SUCCESS: i32 = 0;

/// How the chroma planes of an image relate to its luma plane.
#[derive(Debug, Clone, Copy, PartialEq, Eq, Structural)]
pub enum NvjpegChromaSubsampling {
    Css444,
    Css422,
    Css420,
    Css440,
    Css411,
    Css410,
    CssGray,
    CssUnknown,
}

impl NvjpegChromaSubsampling {
    /// The subsampling that nvJPEG reports as `code`.
    pub open spec fn of(code: i32) -> NvjpegChromaSubsampling {
        if code == 0 {
            NvjpegChromaSubsampling::Css444
        } else if code == 1 {
            NvjpegChromaSubsampling::Css422
        } else if code == 2 {
            NvjpegChromaSubsampling::Css420
        } else if code == 3 {
            NvjpegChromaSubsampling::Css440
        } else if code == 4 {
            NvjpegChromaSubsampling::Css411
        } else if code == 5 {
            NvjpegChromaSubsampling::Css410
        } else if code == 6 {
            NvjpegChromaSubsampling::CssGray
        } else {
            NvjpegChromaSubsampling::CssUnknown
        }
    }

    /// The subsampling that nvJPEG reports as `code`.
    pub fn from_code(code: i32) -> (subsampling: NvjpegChromaSubsampling)
        ensures
            subsampling == NvjpegChromaSubsampling::of(code),
            code == 0 <==> subsampling == NvjpegChromaSubsampling::Css444,
            code == 1 <==> subsampling == NvjpegChromaSubsampling::Css422,
            code == 2 <==> subsampling == NvjpegChromaSubsampling::Css420,
            code == 3 <==> subsampling == NvjpegChromaSubsampling::Css440,
            code == 4 <==> subsampling == NvjpegChromaSubsampling::Css411,
            code == 5 <==> subsampling == NvjpegChromaSubsampling::Css410,
            code == 6 <==> subsampling == NvjpegChromaSubsampling::CssGray,
            code < 0 || code > 6 <==> subsampling == NvjpegChromaSubsampling::CssUnknown,
    {
        match code {
            0 => NvjpegChromaSubsampling::Css444,
            1 => NvjpegChromaSubsampling::Css422,
            2 => NvjpegChromaSubsampling::Css420,
            3 => NvjpegChromaSubsampling::Css440,
            4 => NvjpegChromaSubsampling::Css411,
            5 => NvjpegChromaSubsampling::Css410,
            6 => NvjpegChromaSubsampling::CssGray,
            _ => NvjpegChromaSubsampling::CssUnknown,
        }
    }
}

/// The steps of setting up the decoder.
#[derive(Debug, Clone, Copy, PartialEq, Eq, Structural)]
pub enum InitStage {
    InitDriver,
    GetDevice,
    CreateContext,
    CreateStream,
    CreateHandle,
    CreateState,
    AllocateY,
    AllocateU,
    AllocateV,
}

/// What the decoder holds.
#[derive(Debug, Clone, Copy, PartialEq, Eq, Structural)]
pub enum Resource {
    Context,
    Stream,
    Handle,
    State,
    BufferY,
    BufferU,
    BufferV,
}

/// What to do after a step of setting up the decoder.
#[derive(Debug)]
pub enum InitStep {
    /// Take this step next.
    Next(InitStage),
    /// The decoder is set up.
    Ready,
    /// Give up, and release these in this order.
    Abandon(Vec<Resource>),
}

/// The step after `stage`.
pub open spec fn next_stage(stage: InitStage) -> Option<InitStage> {
    match stage {
        InitStage::InitDriver => Some(InitStage::GetDevice),
        InitStage::GetDevice => Some(InitStage::CreateContext),
        InitStage::CreateContext => Some(InitStage::CreateStream),
        InitStage::CreateStream => Some(InitStage::CreateHandle),
        InitStage::CreateHandle => Some(InitStage::CreateState),
        InitStage::CreateState => Some(InitStage::AllocateY),
        InitStage::AllocateY => Some(InitStage::AllocateU),
        InitStage::AllocateU => Some(InitStage::AllocateV),
        InitStage::AllocateV => None,
    }
}

/// What `stage` acquires when it succeeds.
pub open spec fn acquires(stage: InitStage) -> Seq<Resource> {
    match stage {
        InitStage::InitDriver => seq![],
        InitStage::GetDevice => seq![],
        InitStage::CreateContext => seq![Resource::Context],
        InitStage::CreateStream => seq![Resource::Stream],
        InitStage::CreateHandle => seq![Resource::Handle],
        InitStage::CreateState => seq![Resource::State],
        InitStage::AllocateY => seq![Resource::BufferY],
        InitStage::AllocateU => seq![Resource::BufferU],
        InitStage::AllocateV => seq![Resource::BufferV],
    }
}

/// What has been acquired, in order, when `stage` is reached.
pub open spec fn held_at(stage: InitStage) -> Seq<Resource> {
    match stage {
        InitStage::InitDriver => seq![],
        InitStage::GetDevice => seq![],
        InitStage::CreateContext => seq![],
        InitStage::CreateStream => seq![Resource::Context],
        InitStage::CreateHandle => seq![Resource::Context, Resource::Stream],
        InitStage::CreateState => seq![Resource::Context, Resource::Stream, Resource::Handle],
        InitStage::AllocateY => seq![
            Resource::Context,
            Resource::Stream,
            Resource::Handle,
            Resource::State,
        ],
        InitStage::AllocateU => seq![
            Resource::Context,
            Resource::Stream,
            Resource::Handle,
            Resource::State,
            Resource::BufferY,
        ],
        InitStage::AllocateV => seq![
            Resource::Context,
            Resource::Stream,
            Resource::Handle,
            Resource::State,
            Resource::BufferY,
            Resource::BufferU,
        ],
    }
}

/// What is released when `stage` fails, in order. When the first buffer cannot be had, nothing
/// is.
pub open spec fn released_after(stage: InitStage) -> Seq<Resource> {
    if stage == InitStage::AllocateY {
        seq![]
    } else {
        held_at(stage).reverse()
    }
}

/// What is held at a step is what was held at the step before and what that step acquired.
pub proof fn law_holdings_follow_the_steps(stage: InitStage)
    requires
        next_stage(stage) is Some,
    ensures
        held_at(next_stage(stage)->0) == held_at(stage) + acquires(stage),
{
    assert(held_at(next_stage(stage)->0) =~= held_at(stage) + acquires(stage));
}

/// A failed step releases everything that was acquired before it, the last acquired first.
pub proof fn law_failure_releases_everything(stage: InitStage)
    requires
        stage != InitStage::AllocateY,
    ensures
        released_after(stage).reverse() == held_at(stage),
{
    assert(held_at(stage).reverse().reverse() =~= held_at(stage));
}

/// What to do after `stage` ended with `status`.
pub fn init_step(stage: InitStage, status: i32) -> (step: InitStep)
    ensures
        match step {
            InitStep::Next(next) => status == STATUS_SUCCESS && next_stage(stage) == Some(next),
            InitStep::Ready => status == STATUS_SUCCESS && next_stage(stage) is None,
            InitStep::Abandon(resources) => status != STATUS_SUCCESS && resources@
                == released_after(stage),
        },
        status != 0 <==> step is Abandon,
        status == 0 && stage == InitStage::AllocateV <==> step is Ready,
{
    if status == STATUS_SUCCESS {
        return match stage {
            InitStage::InitDriver => InitStep::Next(InitStage::GetDevice),
            InitStage::GetDevice => InitStep::Next(InitStage::CreateContext),
            InitStage::CreateContext => InitStep::Next(InitStage::CreateStream),
            InitStage::CreateStream => InitStep::Next(InitStage::CreateHandle),
            InitStage::CreateHandle => InitStep::Next(InitStage::CreateState),
            InitStage::CreateState => InitStep::Next(InitStage::AllocateY),
            InitStage::AllocateY => InitStep::Next(InitStage::AllocateU),
            InitStage::AllocateU => InitStep::Next(InitStage::AllocateV),
            InitStage::AllocateV => InitStep::Ready,
        };
    }
    let resources: Vec<Resource> = match stage {
        InitStage::InitDriver => vec![],
        InitStage::GetDevice => vec![],
        InitStage::CreateContext => vec![],
        InitStage::CreateStream => vec![Resource::Context],
        InitStage::CreateHandle => vec![Resource::Stream, Resource::Context],
        InitStage::CreateState => vec![Resource::Handle, Resource::Stream, Resource::Context],
        InitStage::AllocateY => vec![],
        InitStage::AllocateU => vec![
            Resource::BufferY,
            Resource::State,
            Resource::Handle,
            Resource::Stream,
            Resource::Context,
        ],
        InitStage::AllocateV => vec![
            Resource::BufferU,
            Resource::BufferY,
            Resource::State,
            Resource::Handle,
            Resource::Stream,
            Resource::Context,
        ],
    };
    assert(resources@ =~= released_after(stage));
    InitStep::Abandon(resources)
}

/// What a decoder that is given up releases, in order.
pub fn teardown() -> (resources: Vec<Resource>)
    ensures
        resources@ == seq![
            Resource::BufferY,
            Resource::BufferU,
            Resource::BufferV,
            Resource::State,
            Resource::Handle,
            Resource::Stream,
            Resource::Context,
        ],
{
    let resources = vec![
        Resource::BufferY,
        Resource::BufferU,
        Resource::BufferV,
        Resource::State,
        Resource::Handle,
        Resource::Stream,
        Resource::Context,
    ];
    assert(resources@ =~= seq![
        Resource::BufferY,
        Resource::BufferU,
        Resource::BufferV,
        Resource::State,
        Resource::Handle,
        Resource::Stream,
        Resource::Context,
    ]);
    resources
}

/// What is released before new buffers are allocated, in order.
pub fn released_before_allocation() -> (resources: Vec<Resource>)
    ensures
        resources@ == seq![Resource::BufferY, Resource::BufferU, Resource::BufferV],
{
    let resources = vec![Resource::BufferY, Resource::BufferU, Resource::BufferV];
    assert(resources@ =~= seq![Resource::BufferY, Resource::BufferU, Resource::BufferV]);
    resources
}

/// The width that buffers are made for at first.
pub const INITIAL_WIDTH: u32 = 2560;

/// The height that buffers are made for at first.
pub const INITIAL_HEIGHT: u32 = 1440;

/// The bytes of the luma plane of an image.
pub open spec fn luma_size(width: u32, height: u32) -> nat {
    width as nat * height as nat
}

/// The bytes of each chroma plane of an image.
pub open spec fn chroma_plane_size(width: u32, height: u32) -> nat {
    (width / 2) as nat * height as nat
}

/// The bytes of the planes of an image.
#[derive(Debug, Clone, Copy, PartialEq, Eq, Structural)]
pub struct BufferSizes {
    pub y_size: usize,
    pub uv_size: usize,
}

/// The bytes of the planes of an image.
pub fn buffer_sizes(width: u32, height: u32) -> (sizes: BufferSizes)
    requires
        width * height <= u32::MAX,
    ensures
        sizes.y_size == luma_size(width, height),
        sizes.uv_size == chroma_plane_size(width, height),
        sizes.y_size == width * height,
        sizes.uv_size == (width / 2) * height,
{
    proof {
        lemma_chroma_is_smaller(width, height);
    }
    BufferSizes { y_size: (width * height) as usize, uv_size: ((width / 2) * height) as usize }
}

/// A chroma plane is no larger than the luma plane.
proof fn lemma_chroma_is_smaller(width: u32, height: u32)
    ensures
        chroma_plane_size(width, height) <= luma_size(width, height),
{
    let half = width / 2;
    assert(half as nat * height as nat <= width as nat * height as nat) by (nonlinear_arith)
        requires
            half <= width,
    ;
}

/// The distance between the rows of each decoded plane; there is no fourth plane.
pub fn output_pitches(width: u32) -> (pitches: [usize; 4])
    ensures
        pitches@ == seq![width as usize, (width / 2) as usize, (width / 2) as usize, 0usize],
{
    let pitches: [usize; 4] = [width as usize, (width / 2) as usize, (width / 2) as usize, 0];
    assert(pitches@ =~= seq![
        width as usize,
        (width / 2) as usize,
        (width / 2) as usize,
        0usize,
    ]);
    pitches
}

/// What nvJPEG says of an image.
#[derive(Debug, Clone, Copy, PartialEq, Eq, Structural)]
pub struct ImageInfo {
    pub width: u32,
    pub height: u32,
    pub subsampling: NvjpegChromaSubsampling,
    pub components: i32,
}

/// What nvJPEG's answer about an image comes to. Its width and height are those of the first
/// component.
pub fn image_info(
    status: i32,
    components: i32,
    subsampling: i32,
    first_width: i32,
    first_height: i32,
) -> (info: Result<ImageInfo, GpuDecodeError>)
    ensures
        info == if status == STATUS_SUCCESS {
            Ok(
                ImageInfo {
                    width: first_width as u32,
                    height: first_height as u32,
                    subsampling: NvjpegChromaSubsampling::of(subsampling),
                    components,
                },
            )
        } else {
            Err(GpuDecodeError::Nvjpeg("nvjpegGetImageInfo", status))
        },
        info is Ok <==> status == 0,
        info is Ok && first_width >= 0 ==> info->Ok_0.width == first_width,
        info is Ok && first_height >= 0 ==> info->Ok_0.height == first_height,
{
    if status != STATUS_SUCCESS {
        return Err(GpuDecodeError::Nvjpeg("nvjpegGetImageInfo", status));
    }
    Ok(
        ImageInfo {
            width: #[verifier::truncate] (first_width as u32),
            height: #[verifier::truncate] (first_height as u32),
            subsampling: NvjpegChromaSubsampling::from_code(subsampling),
            components,
        },
    )
}

/// The steps of decoding one image.
#[derive(Debug, Clone, Copy, PartialEq, Eq, Structural)]
pub enum DecodePhase {
    AllocateY,
    AllocateU,
    AllocateV,
    Decode,
    Synchronize,
    CopyY,
    CopyU,
    CopyV,
    Done,
}

/// The step after `phase`.
pub open spec fn next_phase(phase: DecodePhase) -> DecodePhase {
    match phase {
        DecodePhase::AllocateY => DecodePhase::AllocateU,
        DecodePhase::AllocateU => DecodePhase::AllocateV,
        DecodePhase::AllocateV => DecodePhase::Decode,
        DecodePhase::Decode => DecodePhase::Synchronize,
        DecodePhase::Synchronize => DecodePhase::CopyY,
        DecodePhase::CopyY => DecodePhase::CopyU,
        DecodePhase::CopyU => DecodePhase::CopyV,
        DecodePhase::CopyV => DecodePhase::Done,
        DecodePhase::Done => DecodePhase::Done,
    }
}

/// What a failure of `phase` is reported as.
pub open spec fn phase_error(phase: DecodePhase, status: i32) -> GpuDecodeError {
    match phase {
        DecodePhase::AllocateY => GpuDecodeError::Cuda("cuMemAlloc (Y)", status),
        DecodePhase::AllocateU => GpuDecodeError::Cuda("cuMemAlloc (U)", status),
        DecodePhase::AllocateV => GpuDecodeError::Cuda("cuMemAlloc (V)", status),
        DecodePhase::Decode => GpuDecodeError::Nvjpeg("nvjpegDecode", status),
        DecodePhase::Synchronize => GpuDecodeError::Cuda("cuStreamSynchronize", status),
        DecodePhase::CopyY => GpuDecodeError::Cuda("cuMemcpyDtoH (Y)", status),
        DecodePhase::CopyU => GpuDecodeError::Cuda("cuMemcpyDtoH (U)", status),
        DecodePhase::CopyV | DecodePhase::Done => GpuDecodeError::Cuda("cuMemcpyDtoH (V)", status),
    }
}

/// Where a run that is at `phase` gets with these status codes, one for each step.
pub open spec fn run_through(phase: DecodePhase, statuses: Seq<i32>) -> Result<
    DecodePhase,
    GpuDecodeError,
>
    decreases statuses.len(),
{
    if statuses.len() == 0 {
        Ok(phase)
    } else if statuses[0] == STATUS_SUCCESS {
        run_through(next_phase(phase), statuses.drop_first())
    } else {
        Err(phase_error(phase, statuses[0]))
    }
}

/// How many steps are left from `phase` on.
pub open spec fn steps_left(phase: DecodePhase) -> nat {
    match phase {
        DecodePhase::AllocateY => 8,
        DecodePhase::AllocateU => 7,
        DecodePhase::AllocateV => 6,
        DecodePhase::Decode => 5,
        DecodePhase::Synchronize => 4,
        DecodePhase::CopyY => 3,
        DecodePhase::CopyU => 2,
        DecodePhase::CopyV => 1,
        DecodePhase::Done => 0,
    }
}

/// A run whose every step succeeds is done after as many steps as were left.
pub proof fn law_success_completes(phase: DecodePhase, statuses: Seq<i32>)
    requires
        statuses.len() == steps_left(phase),
        forall|i: int| 0 <= i < statuses.len() ==> statuses[i] == STATUS_SUCCESS,
    ensures
        run_through(phase, statuses) == Ok::<DecodePhase, GpuDecodeError>(DecodePhase::Done),
    decreases statuses.len(),
{
    if statuses.len() > 0 {
        let rest = statuses.drop_first();
        assert(statuses[0] == STATUS_SUCCESS);
        assert(forall|i: int| 0 <= i < rest.len() ==> rest[i] == statuses[i + 1]);
        law_success_completes(next_phase(phase), rest);
    }
}

/// The first failed step decides what a run reports, whatever comes after it.
pub proof fn law_first_failure_is_reported(
    phase: DecodePhase,
    before: Seq<i32>,
    status: i32,
    after: Seq<i32>,
)
    requires
        forall|i: int| 0 <= i < before.len() ==> before[i] == STATUS_SUCCESS,
        status != STATUS_SUCCESS,
    ensures
        run_through(phase, before) is Ok,
        run_through(phase, before + seq![status] + after) == Err::<DecodePhase, GpuDecodeError>(
            phase_error(run_through(phase, before)->Ok_0, status),
        ),
    decreases before.len(),
{
    let all = before + seq![status] + after;
    if before.len() > 0 {
        let rest = before.drop_first();
        assert(before[0] == STATUS_SUCCESS);
        assert(forall|i: int| 0 <= i < rest.len() ==> rest[i] == before[i + 1]);
        assert(all.drop_first() =~= rest + seq![status] + after);
        assert(all[0] == before[0]);
        law_first_failure_is_reported(next_phase(phase), rest, status, after);
    } else {
        assert(all[0] == status);
    }
}

/// The decoding of one image under way.
#[derive(Debug, Clone, Copy, PartialEq, Eq, Structural)]
pub struct DecodeRun {
    pub width: u32,
    pub height: u32,
    pub phase: DecodePhase,
}

/// How the decoding of an image starts.
#[derive(Debug, Clone, Copy, PartialEq, Eq, Structural)]
pub enum DecodeStart {
    /// Ask nvJPEG about the image first.
    QueryInfo,
    /// The image has the size that the buffers are made for.
    Known { width: u32, height: u32 },
}

/// Data that starts like a JPEG image.
pub open spec fn starts_like_jpeg(data: Seq<u8>) -> bool {
    data.len() >= 2 && data[0] == 0xff && data[1] == 0xd8
}

/// The decoder's memory on the host, and what it knows of the images.
#[derive(Debug)]
pub struct NvjpegDecoder {
    pub h_y: Vec<u8>,
    pub h_u: Vec<u8>,
    pub h_v: Vec<u8>,
    pub alloc_width: u32,
    pub alloc_height: u32,
    pub validated: bool,
}

impl NvjpegDecoder {
    /// The buffers are of just the size of an image.
    pub open spec fn well_formed(&self) -> bool {
        &&& self.alloc_width * self.alloc_height <= u32::MAX
        &&& self.h_y@.len() == luma_size(self.alloc_width, self.alloc_height)
        &&& self.h_u@.len() == chroma_plane_size(self.alloc_width, self.alloc_height)
        &&& self.h_v@.len() == chroma_plane_size(self.alloc_width, self.alloc_height)
    }

    /// Once its buffers have been seen to, a run is for images of the size of the buffers.
    pub open spec fn agrees(&self, run: DecodeRun) -> bool {
        ||| run.phase == DecodePhase::AllocateY
        ||| run.phase == DecodePhase::AllocateU
        ||| run.phase == DecodePhase::AllocateV
        ||| run.width == self.alloc_width && run.height == self.alloc_height
    }

    /// A decoder with buffers of the initial size that has seen no image.
    pub fn new() -> (decoder: NvjpegDecoder)
        ensures
            decoder.well_formed(),
            decoder.alloc_width == INITIAL_WIDTH,
            decoder.alloc_height == INITIAL_HEIGHT,
            decoder.alloc_width == 2560,
            decoder.alloc_height == 1440,
            decoder.h_y@.len() == 2560 * 1440,
            decoder.h_u@.len() == 1280 * 1440,
            decoder.h_v@.len() == 1280 * 1440,
            !decoder.validated,
            forall|i: int| 0 <= i < decoder.h_y@.len() ==> decoder.h_y@[i] == 0,
            forall|i: int| 0 <= i < decoder.h_u@.len() ==> decoder.h_u@[i] == 0,
            forall|i: int| 0 <= i < decoder.h_v@.len() ==> decoder.h_v@[i] == 0,
    {
        let sizes = buffer_sizes(INITIAL_WIDTH, INITIAL_HEIGHT);
        NvjpegDecoder {
            h_y: vec![0u8; sizes.y_size],
            h_u: vec![0u8; sizes.uv_size],
            h_v: vec![0u8; sizes.uv_size],
            alloc_width: INITIAL_WIDTH,
            alloc_height: INITIAL_HEIGHT,
            validated: false,
        }
    }

    /// How the decoding of `jpeg_data` starts. The size of the first image is asked for; that of
    /// the others is taken to be the same.
    pub fn start(&self, jpeg_data: &[u8]) -> (start: Result<DecodeStart, GpuDecodeError>)
        ensures
            match start {
                Ok(start) => starts_like_jpeg(jpeg_data@) && start == if self.validated {
                    DecodeStart::Known { width: self.alloc_width, height: self.alloc_height }
                } else {
                    DecodeStart::QueryInfo
                },
                Err(error) => !starts_like_jpeg(jpeg_data@) && error is InvalidData
                    && error->InvalidData_0@
                    == "data does not start with JPEG SOI marker (FF D8)"@,
            },
            jpeg_data@.len() >= 2 && jpeg_data@[0] == 0xff && jpeg_data@[1] == 0xd8
                ==> start is Ok,
            start is Ok ==> jpeg_data@.len() >= 2 && jpeg_data@[0] == 0xff && jpeg_data@[1] == 0xd8,
            start is Ok ==> (start->Ok_0 is QueryInfo <==> !self.validated),
    {
        if jpeg_data.len() < 2 || jpeg_data[0] != 0xff || jpeg_data[1] != 0xd8 {
            return Err(
                GpuDecodeError::InvalidData(
                    "data does not start with JPEG SOI marker (FF D8)".to_owned(),
                ),
            );
        }
        if self.validated {
            Ok(DecodeStart::Known { width: self.alloc_width, height: self.alloc_height })
        } else {
            Ok(DecodeStart::QueryInfo)
        }
    }

    /// Takes in what nvJPEG answers about the first image.
    pub fn accept_info(
        &mut self,
        status: i32,
        components: i32,
        subsampling: i32,
        first_width: i32,
        first_height: i32,
    ) -> (info: Result<ImageInfo, GpuDecodeError>)
        ensures
            info == if status == STATUS_SUCCESS {
                Ok(
                    ImageInfo {
                        width: first_width as u32,
                        height: first_height as u32,
                        subsampling: NvjpegChromaSubsampling::of(subsampling),
                        components,
                    },
                )
            } else {
                Err(GpuDecodeError::Nvjpeg("nvjpegGetImageInfo", status))
            },
            *final(self) == (NvjpegDecoder {
                validated: old(self).validated || status == STATUS_SUCCESS,
                ..*old(self)
            }),
            info is Ok <==> status == 0,
            info is Ok && first_width >= 0 ==> info->Ok_0.width == first_width,
            info is Ok && first_height >= 0 ==> info->Ok_0.height == first_height,
            final(self).validated == (old(self).validated || status == 0),
    {
        let info = image_info(status, components, subsampling, first_width, first_height);
        if info.is_ok() {
            self.validated = true;
        }
        info
    }

    /// The run for an image of the given size. New buffers are allocated first where those at
    /// hand are for another size.
    pub fn ensure_buffers(&self, width: u32, height: u32) -> (run: DecodeRun)
        ensures
            run == (DecodeRun {
                width,
                height,
                phase: if width == self.alloc_width && height == self.alloc_height {
                    DecodePhase::Decode
                } else {
                    DecodePhase::AllocateY
                },
            }),
            self.agrees(run),
    {
        let phase = if width == self.alloc_width && height == self.alloc_height {
            DecodePhase::Decode
        } else {
            DecodePhase::AllocateY
        };
        DecodeRun { width, height, phase }
    }

    /// Goes on with a run after its step ended with `status`. Once the new buffers have been
    /// allocated, those on the host take on the new size; what they held at their start is kept.
    pub fn advance(&mut self, run: DecodeRun, status: i32) -> (next: Result<
        DecodeRun,
        GpuDecodeError,
    >)
        requires
            old(self).well_formed(),
            old(self).agrees(run),
            run.width * run.height <= u32::MAX,
        ensures
            final(self).well_formed(),
            next is Ok ==> final(self).agrees(next->Ok_0),
            next == match run_through(run.phase, seq![status]) {
                Ok(phase) => Ok(DecodeRun { phase, ..run }),
                Err(error) => Err(error),
            },
            status == STATUS_SUCCESS && run.phase == DecodePhase::AllocateV ==> {
                &&& final(self).alloc_width == run.width
                &&& final(self).alloc_height == run.height
                &&& final(self).validated == old(self).validated
                &&& final(self).h_y@ == resized(
                    old(self).h_y@,
                    luma_size(run.width, run.height),
                )
                &&& final(self).h_u@ == resized(
                    old(self).h_u@,
                    chroma_plane_size(run.width, run.height),
                )
                &&& final(self).h_v@ == resized(
                    old(self).h_v@,
                    chroma_plane_size(run.width, run.height),
                )
            },
            !(status == STATUS_SUCCESS && run.phase == DecodePhase::AllocateV) ==> *final(self)
                == *old(self),
            next is Ok <==> status == 0,
            next is Ok ==> next->Ok_0.width == run.width && next->Ok_0.height == run.height,
            status == 0 && run.phase == DecodePhase::AllocateV ==> {
                &&& final(self).h_y@.len() == run.width * run.height
                &&& final(self).h_u@.len() == (run.width / 2) * run.height
                &&& final(self).h_v@.len() == (run.width / 2) * run.height
                &&& forall|i: int|
                    0 <= i < final(self).h_y@.len() ==> #[trigger] final(self).h_y@[i] == (if i
                        < old(self).h_y@.len() {
                        old(self).h_y@[i]
                    } else {
                        0
                    })
                &&& forall|i: int|
                    0 <= i < final(self).h_u@.len() ==> #[trigger] final(self).h_u@[i] == (if i
                        < old(self).h_u@.len() {
                        old(self).h_u@[i]
                    } else {
                        0
                    })
                &&& forall|i: int|
                    0 <= i < final(self).h_v@.len() ==> #[trigger] final(self).h_v@[i] == (if i
                        < old(self).h_v@.len() {
                        old(self).h_v@[i]
                    } else {
                        0
                    })
            },
    {
        proof {
            reveal_with_fuel(run_through, 2);
            assert(seq![status].drop_first() =~= seq![]);
        }
        if status != STATUS_SUCCESS {
            return Err(
                match run.phase {
                    DecodePhase::AllocateY => GpuDecodeError::Cuda("cuMemAlloc (Y)", status),
                    DecodePhase::AllocateU => GpuDecodeError::Cuda("cuMemAlloc (U)", status),
                    DecodePhase::AllocateV => GpuDecodeError::Cuda("cuMemAlloc (V)", status),
                    DecodePhase::Decode => GpuDecodeError::Nvjpeg("nvjpegDecode", status),
                    DecodePhase::Synchronize => GpuDecodeError::Cuda(
                        "cuStreamSynchronize",
                        status,
                    ),
                    DecodePhase::CopyY => GpuDecodeError::Cuda("cuMemcpyDtoH (Y)", status),
                    DecodePhase::CopyU => GpuDecodeError::Cuda("cuMemcpyDtoH (U)", status),
                    DecodePhase::CopyV | DecodePhase::Done => GpuDecodeError::Cuda(
                        "cuMemcpyDtoH (V)",
                        status,
                    ),
                },
            );
        }
        let phase = match run.phase {
            DecodePhase::AllocateY => DecodePhase::AllocateU,
            DecodePhase::AllocateU => DecodePhase::AllocateV,
            DecodePhase::AllocateV => DecodePhase::Decode,
            DecodePhase::Decode => DecodePhase::Synchronize,
            DecodePhase::Synchronize => DecodePhase::CopyY,
            DecodePhase::CopyY => DecodePhase::CopyU,
            DecodePhase::CopyU => DecodePhase::CopyV,
            DecodePhase::CopyV => DecodePhase::Done,
            DecodePhase::Done => DecodePhase::Done,
        };
        if run.phase == DecodePhase::AllocateV {
            let sizes = buffer_sizes(run.width, run.height);
            self.h_y.resize(sizes.y_size, 0);
            self.h_u.resize(sizes.uv_size, 0);
            self.h_v.resize(sizes.uv_size, 0);
            self.alloc_width = run.width;
            self.alloc_height = run.height;
            proof {
                assert(self.h_y@ =~= resized(old(self).h_y@, sizes.y_size as nat));
                assert(self.h_u@ =~= resized(old(self).h_u@, sizes.uv_size as nat));
                assert(self.h_v@ =~= resized(old(self).h_v@, sizes.uv_size as nat));
            }
        }
        Ok(DecodeRun { phase, ..run })
    }

    /// The frame of a run that is done, from the planes copied to the host.
    pub fn finish(&self, run: DecodeRun) -> (frame: CaptureFrame)
        requires
            self.well_formed(),
            self.agrees(run),
            run.phase == DecodePhase::Done,
        ensures
            frame.width == run.width,
            frame.height == run.height,
            frame.format == PixelFormat::Yuvj422p,
            frame.y_data@ == self.h_y@,
            frame.u_data@ == self.h_u@,
            frame.v_data@ == self.h_v@,
            frame.y_data@.len() == run.width * run.height,
            frame.u_data@.len() == (run.width / 2) * run.height,
            frame.v_data@.len() == (run.width / 2) * run.height,
    {
        let sizes = buffer_sizes(run.width, run.height);
        let y = vstd::slice::slice_subrange(self.h_y.as_slice(), 0, sizes.y_size);
        let u = vstd::slice::slice_subrange(self.h_u.as_slice(), 0, sizes.uv_size);
        let v = vstd::slice::slice_subrange(self.h_v.as_slice(), 0, sizes.uv_size);
        assert(y@ =~= self.h_y@);
        assert(u@ =~= self.h_u@);
        assert(v@ =~= self.h_v@);
        CaptureFrame {
            width: run.width,
            height: run.height,
            format: PixelFormat::Yuvj422p,
            y_data: vstd::slice::slice_to_vec(y),
            u_data: vstd::slice::slice_to_vec(u),
            v_data: vstd::slice::slice_to_vec(v),
        }
    }
}

/// `buffer` cut or filled up with zeros to `len` bytes.
pub open spec fn resized(buffer: Seq<u8>, len: nat) -> Seq<u8> {
    Seq::new(
        len,
        |i: int|
            if i < buffer.len() {
                buffer[i]
            } else {
                0
            },
    )
}

/// Every frame decoded on the GPU can be uploaded.
pub proof fn law_gpu_frames_upload(decoder: NvjpegDecoder, frame: CaptureFrame)
    requires
        decoder.well_formed(),
        crate::render::addressable(decoder.alloc_width, decoder.alloc_height),
        frame.width == decoder.alloc_width,
        frame.height == decoder.alloc_height,
        frame.format == PixelFormat::Yuvj422p,
        frame.y_data@ == decoder.h_y@,
        frame.u_data@ == decoder.h_u@,
        frame.v_data@ == decoder.h_v@,
    ensures
        crate::render::uploadable(frame),
{
    let half = frame.width / 2;
    crate::render::lemma_smaller_planes(frame.width, frame.height, frame.width, frame.height);
    crate::render::lemma_smaller_planes(frame.width, frame.height, half, frame.height);
}

/// Data that starts like a JPEG image still does with any number of bytes behind it, and its
/// first two bytes alone decide.
pub proof fn law_first_two_bytes_decide(data: Seq<u8>, more: Seq<u8>)
    ensures
        starts_like_jpeg(seq![0xffu8, 0xd8u8] + more),
        starts_like_jpeg(data) ==> starts_like_jpeg(data + more),
        starts_like_jpeg(data) ==> data[0] == 0xff && data[1] == 0xd8,
        data.len() >= 2 ==> starts_like_jpeg(data) == (data.take(2) == seq![0xffu8, 0xd8u8]),
        data.len() < 2 ==> !starts_like_jpeg(data),
{
    if data.len() >= 2 {
        let first = data.take(2);
        assert(first[0] == data[0] && first[1] == data[1]);
        if starts_like_jpeg(data) {
            assert(first =~= seq![0xffu8, 0xd8u8]);
        }
    }
}

/// The decoder is set up in nine steps, one after another. The first two acquire nothing, each
/// of the others one thing; what fails in between gives back all that is held, the last first,
/// but for the first buffer, whose failure gives back nothing.
pub proof fn law_order_of_setting_up(i: int)
    requires
        0 <= i < 9,
    ensures
        ({
            let stages = seq![
                InitStage::InitDriver,
                InitStage::GetDevice,
                InitStage::CreateContext,
                InitStage::CreateStream,
                InitStage::CreateHandle,
                InitStage::CreateState,
                InitStage::AllocateY,
                InitStage::AllocateU,
                InitStage::AllocateV,
            ];
            let resources = seq![
                Resource::Context,
                Resource::Stream,
                Resource::Handle,
                Resource::State,
                Resource::BufferY,
                Resource::BufferU,
                Resource::BufferV,
            ];
            &&& next_stage(stages[i]) == if i < 8 {
                Some(stages[i + 1])
            } else {
                None
            }
            &&& acquires(stages[i]) == if i < 2 {
                seq![]
            } else {
                seq![resources[i - 2]]
            }
            &&& held_at(stages[i]) == if i < 2 {
                seq![]
            } else {
                resources.take(i - 2)
            }
            &&& released_after(stages[i]) == if i < 2 || i == 6 {
                seq![]
            } else {
                resources.take(i - 2).reverse()
            }
        }),
{
    let resources = seq![
        Resource::Context,
        Resource::Stream,
        Resource::Handle,
        Resource::State,
        Resource::BufferY,
        Resource::BufferU,
        Resource::BufferV,
    ];
    let stages = seq![
        InitStage::InitDriver,
        InitStage::GetDevice,
        InitStage::CreateContext,
        InitStage::CreateStream,
        InitStage::CreateHandle,
        InitStage::CreateState,
        InitStage::AllocateY,
        InitStage::AllocateU,
        InitStage::AllocateV,
    ];
    if i >= 2 {
        assert(held_at(stages[i]) =~= resources.take(i - 2));
    } else {
        assert(held_at(stages[i]) =~= seq![]);
        assert(held_at(stages[i]).reverse() =~= seq![]);
    }
}

/// An image is decoded in eight steps, one after another, the first three of them only where new
/// buffers are needed; as many steps are left as stand between a step and the end.
pub proof fn law_order_of_decoding(i: int)
    requires
        0 <= i < 9,
    ensures
        ({
            let phases = seq![
                DecodePhase::AllocateY,
                DecodePhase::AllocateU,
                DecodePhase::AllocateV,
                DecodePhase::Decode,
                DecodePhase::Synchronize,
                DecodePhase::CopyY,
                DecodePhase::CopyU,
                DecodePhase::CopyV,
                DecodePhase::Done,
            ];
            &&& next_phase(phases[i]) == if i < 8 {
                phases[i + 1]
            } else {
                phases[8]
            }
            &&& steps_left(phases[i]) == 8 - i
        }),
{
}

/// A failed step is reported by the name of the call it makes, with the code that came back.
pub proof fn law_failed_step_is_named(status: i32)
    ensures
        phase_error(DecodePhase::AllocateY, status) == GpuDecodeError::Cuda(
            "cuMemAlloc (Y)",
            status,
        ),
        phase_error(DecodePhase::AllocateU, status) == GpuDecodeError::Cuda(
            "cuMemAlloc (U)",
            status,
        ),
        phase_error(DecodePhase::AllocateV, status) == GpuDecodeError::Cuda(
            "cuMemAlloc (V)",
            status,
        ),
        phase_error(DecodePhase::Decode, status) == GpuDecodeError::Nvjpeg("nvjpegDecode", status),
        phase_error(DecodePhase::Synchronize, status) == GpuDecodeError::Cuda(
            "cuStreamSynchronize",
            status,
        ),
        phase_error(DecodePhase::CopyY, status) == GpuDecodeError::Cuda("cuMemcpyDtoH (Y)", status),
        phase_error(DecodePhase::CopyU, status) == GpuDecodeError::Cuda("cuMemcpyDtoH (U)", status),
        phase_error(DecodePhase::CopyV, status) == GpuDecodeError::Cuda("cuMemcpyDtoH (V)", status),
{
}

/// One step of a run goes on exactly when it succeeds.
pub proof fn law_one_step_of_a_run(phase: DecodePhase, status: i32)
    ensures
        status == 0 ==> run_through(phase, seq![status]) == Ok::<DecodePhase, GpuDecodeError>(
            next_phase(phase),
        ),
        status != 0 ==> run_through(phase, seq![status]) == Err::<DecodePhase, GpuDecodeError>(
            phase_error(phase, status),
        ),
{
    reveal_with_fuel(run_through, 2);
    assert(seq![status].drop_first() =~= seq![]);
}

/// A run can be finished only where its image has the size of the buffers.
pub proof fn law_runs_agree_once_buffers_are_there(decoder: NvjpegDecoder, run: DecodeRun)
    requires
        run.phase != DecodePhase::AllocateY,
        run.phase != DecodePhase::AllocateU,
        run.phase != DecodePhase::AllocateV,
    ensures
        decoder.agrees(run) == (run.width == decoder.alloc_width && run.height
            == decoder.alloc_height),
{
}

/// A buffer that is made longer keeps what it held and has zeros behind it; one that is made
/// shorter keeps its start.
pub proof fn law_resizing_keeps_the_start(buffer: Seq<u8>, len: nat)
    ensures
        resized(buffer, len).len() == len,
        len <= buffer.len() ==> resized(buffer, len) == buffer.take(len as int),
        len >= buffer.len() ==> resized(buffer, len).take(buffer.len() as int) == buffer,
        forall|i: int| buffer.len() <= i < len ==> resized(buffer, len)[i] == 0,
{
    if len <= buffer.len() {
        assert(resized(buffer, len) =~= buffer.take(len as int));
    } else {
        assert(resized(buffer, len).take(buffer.len() as int) =~= buffer);
    }
}

}
