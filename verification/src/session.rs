//! Running a capture: which pixel format and mode to try next, how to open the device, and what to do
//! with each packet and frame.
use vstd::prelude::*;

use crate::capture::{pixel_format_attempts, CaptureFrame, PixelFormat};
use crate::modes::{mode_list, CaptureMode};
use crate::pattern::{generate_test_frame, PatternValues};
use crate::text::{decimal, same_ignoring_case};

verus! {

/// An attempt to open a device: the mode it is asked for, and a pixel format by its name or the
/// device's own choice.
pub struct Attempt {
    pub mode: CaptureMode,
    pub format: Option<Seq<char>>,
}

/// The attempts for these formats and modes: every format for one mode after the other.
pub open spec fn all_attempts(
    formats: Seq<Option<Seq<char>>>,
    modes: Seq<CaptureMode>,
) -> Seq<Attempt> {
    Seq::new(
        modes.len() * formats.len(),
        |i: int|
            Attempt {
                mode: modes[i / formats.len() as int],
                format: formats[i % (formats.len() as int)],
            },
    )
}

/// The progress of the attempts to open a device.
#[verifier::ext_equal]
pub struct AttemptsState {
    pub device: Seq<char>,
    pub requested: CaptureMode,
    pub attempts: Seq<Attempt>,
    pub tried: nat,
    pub last_error: Option<Seq<char>>,
}

impl AttemptsState {
    /// There is an attempt left.
    pub open spec fn has_next(self) -> bool {
        self.tried < self.attempts.len()
    }

    /// The state once the next attempt is under way.
    pub open spec fn trying(self) -> AttemptsState {
        AttemptsState { tried: self.tried + 1, ..self }
    }

    /// The state once an attempt has failed with `error`.
    pub open spec fn failed(self, error: Seq<char>) -> AttemptsState {
        AttemptsState { last_error: Some(error), ..self }
    }

    /// What is reported when no attempt is left: the error of the last one.
    pub open spec fn report(self) -> Seq<char> {
        match self.last_error {
            Some(error) => error,
            None => "all capture attempts failed for '"@ + self.device + "'"@,
        }
    }

    /// The mode of the attempt under way, where that is not the requested one.
    pub open spec fn negotiated(self) -> Option<CaptureMode> {
        if 0 < self.tried <= self.attempts.len() && self.attempts[self.tried - 1].mode
            != self.requested {
            Some(self.attempts[self.tried - 1].mode)
        } else {
            None
        }
    }

    /// The state after one attempt for each of `errors`, each of which failed so.
    pub open spec fn after_failures(self, errors: Seq<Seq<char>>) -> AttemptsState
        decreases errors.len(),
    {
        if errors.len() == 0 {
            self
        } else {
            self.after_failures(errors.drop_last()).trying().failed(errors.last())
        }
    }
}

/// The state before the first attempt. The first of `modes` is the requested one.
pub open spec fn first_attempt(
    device: Seq<char>,
    requested_format: Seq<char>,
    modes: Seq<CaptureMode>,
) -> AttemptsState {
    AttemptsState {
        device,
        requested: modes[0],
        attempts: all_attempts(
            crate::capture::without_repetitions(crate::capture::candidates(requested_format)),
            modes,
        ),
        tried: 0,
        last_error: None,
    }
}

/// Every format of every mode is attempted.
pub proof fn law_every_format_of_every_mode_is_attempted(
    formats: Seq<Option<Seq<char>>>,
    modes: Seq<CaptureMode>,
    f: int,
    m: int,
)
    requires
        0 <= f < formats.len(),
        0 <= m < modes.len(),
    ensures
        all_attempts(formats, modes).contains(Attempt { mode: modes[m], format: formats[f] }),
{
    crate::modes::lemma_place(m, f, formats.len() as int, modes.len() as int);
    assert(all_attempts(formats, modes)[m * formats.len() + f] == (Attempt {
        mode: modes[m],
        format: formats[f],
    }));
}

/// The attempts number at least one.
proof fn lemma_attempts_exist(device: Seq<char>, requested_format: Seq<char>, mode: CaptureMode)
    ensures
        ({
            let formats = crate::capture::without_repetitions(
                crate::capture::candidates(requested_format),
            );
            &&& formats.len() > 0
            &&& crate::modes::modes(mode).len() > 0
            &&& first_attempt(device, requested_format, crate::modes::modes(mode)).attempts.len() > 0
        }),
{
    crate::capture::law_attempts_cover_every_format_once(requested_format);
    let formats = crate::capture::without_repetitions(
        crate::capture::candidates(requested_format),
    );
    assert(crate::capture::candidates(requested_format)[0] == Some(requested_format));
    assert(crate::capture::candidates(requested_format).contains(Some(requested_format)));
    assert(formats.contains(Some(requested_format)));
    let rows = crate::modes::sizes_from((mode.width, mode.height)).len() as int;
    let columns = crate::modes::rates_from(mode.fps).len() as int;
    crate::modes::lemma_place(0, 0, columns, rows);
    crate::modes::lemma_place(
        0,
        0,
        formats.len() as int,
        crate::modes::modes(mode).len() as int,
    );
}

/// Where every attempt fails, none is left after as many as there are, and the error of the last
/// one is reported.
pub proof fn law_last_error_is_reported(
    device: Seq<char>,
    requested_format: Seq<char>,
    mode: CaptureMode,
    errors: Seq<Seq<char>>,
)
    requires
        errors.len() == first_attempt(
            device,
            requested_format,
            crate::modes::modes(mode),
        ).attempts.len(),
    ensures
        ({
            let start = first_attempt(device, requested_format, crate::modes::modes(mode));
            &&& !start.after_failures(errors).has_next()
            &&& start.after_failures(errors).report() == errors.last()
        }),
{
    lemma_attempts_exist(device, requested_format, mode);
    lemma_after_failures(
        first_attempt(device, requested_format, crate::modes::modes(mode)),
        errors,
    );
}

/// Where every format of the first modes has failed and there is another mode, that mode is
/// tried next, and it is the one that is negotiated; nothing is reported before.
pub proof fn law_lower_modes_are_tried(
    device: Seq<char>,
    requested_format: Seq<char>,
    mode: CaptureMode,
    errors: Seq<Seq<char>>,
    m: int,
)
    requires
        0 < m < crate::modes::modes(mode).len(),
        errors.len() == m * crate::capture::without_repetitions(
            crate::capture::candidates(requested_format),
        ).len(),
    ensures
        ({
            let start = first_attempt(device, requested_format, crate::modes::modes(mode));
            let state = start.after_failures(errors);
            &&& state.has_next()
            &&& state.attempts[state.tried as int].mode == crate::modes::modes(mode)[m]
            &&& state.trying().negotiated() == Some(crate::modes::modes(mode)[m])
        }),
{
    let modes = crate::modes::modes(mode);
    let formats = crate::capture::without_repetitions(
        crate::capture::candidates(requested_format),
    );
    let start = first_attempt(device, requested_format, modes);
    lemma_attempts_exist(device, requested_format, mode);
    lemma_after_failures(start, errors);
    crate::modes::lemma_place(m, 0, formats.len() as int, modes.len() as int);
    crate::modes::law_modes_only_go_down(mode, m);
}

/// Failures count the attempts and keep what is attempted.
proof fn lemma_after_failures(state: AttemptsState, errors: Seq<Seq<char>>)
    ensures
        state.after_failures(errors).attempts == state.attempts,
        state.after_failures(errors).requested == state.requested,
        state.after_failures(errors).tried == state.tried + errors.len(),
    decreases errors.len(),
{
    if errors.len() > 0 {
        lemma_after_failures(state, errors.drop_last());
    }
}

/// What to do next about opening a device.
#[derive(Debug)]
pub enum AttemptStep {
    /// Stop: it was asked for.
    Stop,
    /// Try this pixel format in this mode; no format leaves the choice to the device.
    Try { format: Option<String>, mode: CaptureMode },
    /// Report this error: every format of every mode has been tried.
    Report(String),
}

/// The attempts to open a device with one pixel format and one mode after the other.
#[derive(Debug)]
pub struct CaptureAttempts {
    device_name: String,
    requested: CaptureMode,
    attempts: Vec<(CaptureMode, Option<String>)>,
    tried: usize,
    last_error: Option<String>,
}

/// What an entry of the list of attempts stands for.
pub open spec fn attempt_of(entry: (CaptureMode, Option<String>)) -> Attempt {
    Attempt {
        mode: entry.0,
        format: match entry.1 {
            Some(name) => Some(name@),
            None => None,
        },
    }
}

impl View for CaptureAttempts {
    type V = AttemptsState;

    closed spec fn view(&self) -> AttemptsState {
        AttemptsState {
            device: self.device_name@,
            requested: self.requested,
            attempts: self.attempts@.map_values(
                |entry: (CaptureMode, Option<String>)| attempt_of(entry),
            ),
            tried: self.tried as nat,
            last_error: match self.last_error {
                Some(error) => Some(error@),
                None => None,
            },
        }
    }
}

/// A copy of a format.
fn copy_format(format: &Option<String>) -> (copy: Option<String>)
    ensures
        copy is Some == format is Some,
        copy is Some ==> copy->0@ == format->0@,
{
    match format {
        Some(name) => Some(name.clone()),
        None => None,
    }
}

/// Lists every format for one mode after the other.
fn list_attempts(formats: &[Option<String>], modes: &[CaptureMode]) -> (list: Vec<
    (CaptureMode, Option<String>),
>)
    ensures
        list@.map_values(|entry: (CaptureMode, Option<String>)| attempt_of(entry)) == all_attempts(
            crate::capture::labels(formats@),
            modes@,
        ),
{
    let ghost all = all_attempts(crate::capture::labels(formats@), modes@);
    let ghost columns = formats@.len() as int;
    let ghost rows = modes@.len() as int;
    let ghost read = |entry: (CaptureMode, Option<String>)| attempt_of(entry);
    let mut list: Vec<(CaptureMode, Option<String>)> = Vec::new();
    assert(list@.map_values(read) =~= all.take(0));
    let mut m: usize = 0;
    while m < modes.len()
        invariant
            m <= modes.len(),
            columns == formats@.len(),
            rows == modes@.len(),
            all == all_attempts(crate::capture::labels(formats@), modes@),
            all.len() == rows * columns,
            read == (|entry: (CaptureMode, Option<String>)| attempt_of(entry)),
            list@.map_values(read) == all.take(m * columns),
            0 <= m * columns <= rows * columns,
        decreases modes.len() - m,
    {
        let mut f: usize = 0;
        proof {
            assert((m + 1) * columns <= rows * columns) by (nonlinear_arith)
                requires
                    m + 1 <= rows,
                    0 <= columns,
            ;
            assert((m + 1) * columns == m * columns + columns) by (nonlinear_arith);
        }
        while f < formats.len()
            invariant
                f <= formats.len(),
                m < modes.len(),
                columns == formats@.len(),
                rows == modes@.len(),
                all == all_attempts(crate::capture::labels(formats@), modes@),
                all.len() == rows * columns,
                read == (|entry: (CaptureMode, Option<String>)| attempt_of(entry)),
                list@.map_values(read) == all.take(m * columns + f),
                0 <= m * columns,
                (m + 1) * columns == m * columns + columns,
                (m + 1) * columns <= rows * columns,
            decreases formats.len() - f,
        {
            let ghost before = list@;
            let entry = (modes[m], copy_format(&formats[f]));
            list.push(entry);
            proof {
                crate::modes::lemma_place(m as int, f as int, columns, rows);
                assert(attempt_of(entry) == all[m * columns + f]);
                assert(list@.map_values(read) =~= before.map_values(read).push(attempt_of(entry)));
                assert(all.take(m * columns + f + 1) =~= all.take(m * columns + f).push(
                    all[m * columns + f],
                ));
            }
            f += 1;
        }
        m += 1;
    }
    assert(all.take(rows * columns) =~= all);
    list
}

impl CaptureAttempts {
    /// The attempts for a device that is asked for `requested_pixel_format` in the mode
    /// `requested`.
    pub fn new(
        device_name: String,
        requested_pixel_format: &str,
        requested: CaptureMode,
    ) -> (attempts: CaptureAttempts)
        ensures
            attempts@ == first_attempt(
                device_name@,
                requested_pixel_format@,
                crate::modes::modes(requested),
            ),
            attempts@.device == device_name@,
            attempts@.requested == requested,
            attempts@.tried == 0,
            attempts@.last_error is None,
            attempts@.attempts.len() > 0,
            attempts@.attempts[0] == (Attempt {
                mode: requested,
                format: Some(requested_pixel_format@),
            }),
    {
        let formats = pixel_format_attempts(requested_pixel_format);
        let modes = mode_list(requested);
        let attempts = list_attempts(formats.as_slice(), modes.as_slice());
        proof {
            lemma_attempts_exist(device_name@, requested_pixel_format@, requested);
            crate::modes::law_modes_only_go_down(requested, 0);
            law_attempts_in_order(
                crate::capture::without_repetitions(
                    crate::capture::candidates(requested_pixel_format@),
                ),
                crate::modes::modes(requested),
                0,
                0,
            );
            crate::capture::law_attempts_cover_every_format_once(requested_pixel_format@);
        }
        CaptureAttempts { device_name, requested, attempts, tried: 0, last_error: None }
    }

    /// What to do next, given whether capture was asked to stop.
    pub fn next_step(&mut self, stop_requested: bool) -> (step: AttemptStep)
        ensures
            match step {
                AttemptStep::Stop => {
                    &&& old(self)@.has_next()
                    &&& stop_requested
                    &&& final(self)@ == old(self)@
                },
                AttemptStep::Try { format, mode } => {
                    &&& old(self)@.has_next()
                    &&& !stop_requested
                    &&& final(self)@ == old(self)@.trying()
                    &&& old(self)@.attempts[old(self)@.tried as int] == attempt_of((mode, format))
                },
                AttemptStep::Report(error) => {
                    &&& !old(self)@.has_next()
                    &&& error@ == old(self)@.report()
                    &&& final(self)@ == old(self)@
                },
            },
            step is Report <==> old(self)@.tried >= old(self)@.attempts.len(),
            step is Stop <==> old(self)@.tried < old(self)@.attempts.len() && stop_requested,
            step is Try ==> final(self)@ == (AttemptsState {
                tried: old(self)@.tried + 1,
                ..old(self)@
            }),
            step matches AttemptStep::Report(error) ==> match old(self)@.last_error {
                Some(last) => error@ == last,
                None => error@ == "all capture attempts failed for '"@ + old(self)@.device + "'"@,
            },
    {
        if self.tried < self.attempts.len() {
            if stop_requested {
                return AttemptStep::Stop;
            }
            let mode = self.attempts[self.tried].0;
            let format = copy_format(&self.attempts[self.tried].1);
            self.tried = self.tried + 1;
            return AttemptStep::Try { format, mode };
        }
        match &self.last_error {
            Some(error) => AttemptStep::Report(error.clone()),
            None => {
                let mut message = "all capture attempts failed for '".to_owned();
                message.append(self.device_name.as_str());
                message.append("'");
                AttemptStep::Report(message)
            },
        }
    }

    /// The mode of the attempt under way, where that is not the requested one.
    pub fn negotiated(&self) -> (mode: Option<CaptureMode>)
        ensures
            mode == self@.negotiated(),
            self@.tried == 0 ==> mode is None,
            0 < self@.tried <= self@.attempts.len() ==> (mode is None
                <==> self@.attempts[self@.tried - 1].mode == self@.requested),
            mode is Some ==> 0 < self@.tried <= self@.attempts.len() && mode->0
                == self@.attempts[self@.tried - 1].mode,
    {
        if 0 < self.tried && self.tried <= self.attempts.len() {
            let mode = self.attempts[self.tried - 1].0;
            if mode != self.requested {
                return Some(mode);
            }
        }
        None
    }

    /// Notes that the attempt under way failed.
    pub fn record_failure(&mut self, error: String)
        ensures
            final(self)@ == old(self)@.failed(error@),
            final(self)@ == (AttemptsState { last_error: Some(error@), ..old(self)@ }),
    {
        self.last_error = Some(error);
    }
}

/// The names and values of options.
pub open spec fn option_texts(options: Seq<(String, String)>) -> Seq<(Seq<char>, Seq<char>)> {
    options.map_values(|option: (String, String)| (option.0@, option.1@))
}

/// The option that asks the device for a pixel format.
pub open spec fn format_option(format: Seq<char>) -> (Seq<char>, Seq<char>) {
    if crate::text::lower(format) == crate::text::lower("mjpeg"@) {
        ("vcodec"@, "mjpeg"@)
    } else {
        ("pixel_format"@, format)
    }
}

/// The options to open a device with.
pub open spec fn options_for(
    width: u32,
    height: u32,
    fps: u32,
    format: Option<Seq<char>>,
) -> Seq<(Seq<char>, Seq<char>)> {
    let common = seq![
        (
            "video_size"@,
            crate::text::digits(width as nat) + "x"@ + crate::text::digits(height as nat),
        ),
        ("framerate"@, crate::text::digits(fps as nat)),
        ("rtbufsize"@, "16M"@),
        ("probesize"@, "5000000"@),
        ("analyzeduration"@, "1000000"@),
    ];
    match format {
        Some(format) => common.push(format_option(format)),
        None => common,
    }
}

/// The options to open a device with, in the order in which they are set.
pub fn capture_options(
    width: u32,
    height: u32,
    fps: u32,
    pixel_format: Option<&str>,
) -> (options: Vec<(String, String)>)
    ensures
        option_texts(options@) == options_for(
            width,
            height,
            fps,
            match pixel_format {
                Some(format) => Some(format@),
                None => None,
            },
        ),
        options@.len() == if pixel_format is Some {
            6int
        } else {
            5int
        },
        options@[0].0@ == "video_size"@,
        options@[0].1@ == crate::text::digits(width as nat) + "x"@ + crate::text::digits(
            height as nat,
        ),
        options@[1].0@ == "framerate"@,
        options@[1].1@ == crate::text::digits(fps as nat),
        options@[2].0@ == "rtbufsize"@,
        options@[2].1@ == "16M"@,
        options@[3].0@ == "probesize"@,
        options@[3].1@ == "5000000"@,
        options@[4].0@ == "analyzeduration"@,
        options@[4].1@ == "1000000"@,
        pixel_format matches Some(format) ==> {
            let mjpeg = crate::text::lower(format@) == crate::text::lower("mjpeg"@);
            &&& mjpeg ==> options@[5].0@ == "vcodec"@ && options@[5].1@ == "mjpeg"@
            &&& !mjpeg ==> options@[5].0@ == "pixel_format"@ && options@[5].1@ == format@
        },
{
    let mut size = decimal(width as u64);
    size.append("x");
    size.append(decimal(height as u64).as_str());
    let mut options: Vec<(String, String)> = Vec::new();
    options.push(("video_size".to_owned(), size));
    options.push(("framerate".to_owned(), decimal(fps as u64)));
    options.push(("rtbufsize".to_owned(), "16M".to_owned()));
    options.push(("probesize".to_owned(), "5000000".to_owned()));
    options.push(("analyzeduration".to_owned(), "1000000".to_owned()));
    if let Some(format) = pixel_format {
        if same_ignoring_case(format, "mjpeg") {
            options.push(("vcodec".to_owned(), "mjpeg".to_owned()));
        } else {
            options.push(("pixel_format".to_owned(), format.to_owned()));
        }
    }
    assert(option_texts(options@) =~= options_for(
        width,
        height,
        fps,
        match pixel_format {
            Some(format) => Some(format@),
            None => None,
        },
    ));
    options
}

/// The address of a capture device.
pub fn capture_url(device_name: &str) -> (url: String)
    ensures
        url@ == "video="@ + device_name@,
{
    let mut url = "video=".to_owned();
    url.append(device_name);
    url
}

/// How many threads decode: at least one.
pub fn decoder_threads(decode_threads: usize) -> (threads: usize)
    ensures
        threads == if decode_threads == 0 {
            1
        } else {
            decode_threads
        },
{
    if decode_threads == 0 {
        1
    } else {
        decode_threads
    }
}

/// Frames that have to be converted become `Yuvj422p` above sixty frames a second, else `Nv12`.
pub fn prefers_yuvj422p(requested_fps: u32) -> (preferred: bool)
    ensures
        preferred == (requested_fps > 60),
{
    requested_fps > 60
}

/// Why a capture attempt failed.
#[derive(Debug)]
pub enum CaptureFailure {
    NoDirectShow,
    Open(String),
    NoVideoStream,
    DecoderContext(String),
    DecoderOpen(String),
    Conversion(String),
}

impl CaptureFailure {
    /// The failure in words.
    pub open spec fn text(&self, device_name: Seq<char>) -> Seq<char> {
        match *self {
            CaptureFailure::NoDirectShow => "DirectShow input format was not found in FFmpeg"@,
            CaptureFailure::Open(cause) => "failed to open DirectShow input for '"@ + device_name
                + "': "@ + cause@,
            CaptureFailure::NoVideoStream => "no video stream found for '"@ + device_name + "'"@,
            CaptureFailure::DecoderContext(cause) => "failed to create decoder context: "@ + cause@,
            CaptureFailure::DecoderOpen(cause) => "failed to open video decoder: "@ + cause@,
            CaptureFailure::Conversion(cause) => "failed to convert decoded frame: "@ + cause@,
        }
    }

    /// The failure in words.
    pub fn message(&self, device_name: &str) -> (message: String)
        ensures
            message@ == self.text(device_name@),
            match *self {
                CaptureFailure::NoDirectShow => message@
                    == "DirectShow input format was not found in FFmpeg"@,
                CaptureFailure::Open(cause) => message@ == "failed to open DirectShow input for '"@
                    + device_name@ + "': "@ + cause@,
                CaptureFailure::NoVideoStream => message@ == "no video stream found for '"@
                    + device_name@ + "'"@,
                CaptureFailure::DecoderContext(cause) => message@
                    == "failed to create decoder context: "@ + cause@,
                CaptureFailure::DecoderOpen(cause) => message@ == "failed to open video decoder: "@
                    + cause@,
                CaptureFailure::Conversion(cause) => message@
                    == "failed to convert decoded frame: "@ + cause@,
            },
    {
        match self {
            CaptureFailure::NoDirectShow => {
                "DirectShow input format was not found in FFmpeg".to_owned()
            },
            CaptureFailure::Open(cause) => {
                let mut message = "failed to open DirectShow input for '".to_owned();
                message.append(device_name);
                message.append("': ");
                message.append(cause.as_str());
                message
            },
            CaptureFailure::NoVideoStream => {
                let mut message = "no video stream found for '".to_owned();
                message.append(device_name);
                message.append("'");
                message
            },
            CaptureFailure::DecoderContext(cause) => {
                let mut message = "failed to create decoder context: ".to_owned();
                message.append(cause.as_str());
                message
            },
            CaptureFailure::DecoderOpen(cause) => {
                let mut message = "failed to open video decoder: ".to_owned();
                message.append(cause.as_str());
                message
            },
            CaptureFailure::Conversion(cause) => {
                let mut message = "failed to convert decoded frame: ".to_owned();
                message.append(cause.as_str());
                message
            },
        }
    }
}

/// How long a stretch of time frame rates are measured over, in nanoseconds.
pub const STATS_INTERVAL_NANOS: u128 = 300_000_000;

/// Counts the frames between two reports of the frame rate.
#[derive(Debug, Clone, Copy, PartialEq, Eq, Structural)]
pub struct StatsWindow {
    pub frames: u32,
}

impl StatsWindow {
    /// No frame counted yet.
    pub fn new() -> (window: StatsWindow)
        ensures
            window.frames == 0,
    {
        StatsWindow { frames: 0 }
    }

    /// Counts a frame, `elapsed_nanos` after the last report. Where that is long enough, gives
    /// the number of frames to report and starts over.
    pub fn count_frame(&mut self, elapsed_nanos: u128) -> (report: Option<u32>)
        requires
            old(self).frames < u32::MAX,
        ensures
            elapsed_nanos >= STATS_INTERVAL_NANOS ==> report == Some((old(self).frames + 1) as u32)
                && final(self).frames == 0,
            elapsed_nanos < STATS_INTERVAL_NANOS ==> report == None::<u32> && final(self).frames
                == old(self).frames + 1,
            report is Some <==> elapsed_nanos >= 300_000_000,
    {
        let frames: u32 = self.frames + 1;
        if elapsed_nanos >= STATS_INTERVAL_NANOS {
            self.frames = 0;
            Some(frames)
        } else {
            self.frames = frames;
            None
        }
    }
}

/// What to do with a packet.
#[derive(Debug, Clone, Copy, PartialEq, Eq, Structural)]
pub enum PacketAction {
    /// End the capture.
    Stop,
    /// Leave the packet out.
    Skip,
    /// Hand it to the decoder.
    Decode,
}

/// What to log of a decoded frame.
#[derive(Debug, Clone, Copy, PartialEq, Eq, Structural)]
pub struct FrameLog {
    pub first: bool,
    pub progress: bool,
}

/// The counters of a running capture.
#[derive(Debug, Clone, Copy, PartialEq, Eq, Structural)]
pub struct CaptureSession {
    pub stream_index: usize,
    pub packet_errors: u32,
    pub total_frames: u64,
    pub stats: StatsWindow,
}

impl CaptureSession {
    /// A capture of stream `stream_index` that has seen nothing yet.
    pub fn new(stream_index: usize) -> (session: CaptureSession)
        ensures
            session == (CaptureSession {
                stream_index,
                packet_errors: 0,
                total_frames: 0,
                stats: StatsWindow { frames: 0 },
            }),
    {
        CaptureSession {
            stream_index,
            packet_errors: 0,
            total_frames: 0,
            stats: StatsWindow::new(),
        }
    }

    /// What to do with a packet of stream `stream_index`: packets of other streams are left out.
    pub fn on_packet(&self, stop_requested: bool, stream_index: usize) -> (action: PacketAction)
        ensures
            action == if stop_requested {
                PacketAction::Stop
            } else if stream_index != self.stream_index {
                PacketAction::Skip
            } else {
                PacketAction::Decode
            },
    {
        if stop_requested {
            PacketAction::Stop
        } else if stream_index != self.stream_index {
            PacketAction::Skip
        } else {
            PacketAction::Decode
        }
    }

    /// Counts a packet that the decoder refused; capture goes on. Says whether to log it: the
    /// first ten, then every fiftieth.
    pub fn on_packet_error(&mut self) -> (log: bool)
        requires
            old(self).packet_errors < u32::MAX,
        ensures
            *final(self) == (CaptureSession {
                packet_errors: (old(self).packet_errors + 1) as u32,
                ..*old(self)
            }),
            log == (final(self).packet_errors <= 10 || final(self).packet_errors % 50 == 0),
    {
        self.packet_errors = self.packet_errors + 1;
        self.packet_errors <= 10 || self.packet_errors % 50 == 0
    }

    /// Counts a decoded frame. Says what to log: the first frame, and every hundred and
    /// twentieth.
    pub fn on_frame(&mut self) -> (log: FrameLog)
        requires
            old(self).total_frames < u64::MAX,
        ensures
            *final(self) == (CaptureSession {
                total_frames: (old(self).total_frames + 1) as u64,
                ..*old(self)
            }),
            log == (FrameLog {
                first: old(self).total_frames == 0,
                progress: final(self).total_frames % 120 == 0,
            }),
    {
        let first = self.total_frames == 0;
        self.total_frames = self.total_frames + 1;
        FrameLog { first, progress: self.total_frames % 120 == 0 }
    }

    /// Counts a frame that was handed on, `elapsed_nanos` after the last report of the frame
    /// rate. Gives the number of frames to report, where a report is due.
    pub fn on_frame_sent(&mut self, elapsed_nanos: u128) -> (report: Option<u32>)
        requires
            old(self).stats.frames < u32::MAX,
        ensures
            elapsed_nanos >= STATS_INTERVAL_NANOS ==> report == Some(
                (old(self).stats.frames + 1) as u32,
            ) && *final(self) == (CaptureSession {
                stats: StatsWindow { frames: 0 },
                ..*old(self)
            }),
            elapsed_nanos < STATS_INTERVAL_NANOS ==> report == None::<u32> && *final(self) == (
            CaptureSession {
                stats: StatsWindow { frames: (old(self).stats.frames + 1) as u32 },
                ..*old(self)
            }),
            report is Some <==> elapsed_nanos >= 300_000_000,
    {
        self.stats.count_frame(elapsed_nanos)
    }
}

/// How long to wait before the next frame, in nanoseconds: what is left of the interval.
pub fn frame_delay(interval_nanos: u128, spent_nanos: u128) -> (delay: Option<u128>)
    ensures
        delay == if spent_nanos < interval_nanos {
            Some((interval_nanos - spent_nanos) as u128)
        } else {
            None
        },
{
    if spent_nanos < interval_nanos {
        Some(interval_nanos - spent_nanos)
    } else {
        None
    }
}

/// The format of frame `index` of the test pattern: the forced one, or `Nv12`; where the formats
/// alternate, three seconds of `Nv12` and three of `Yuvj422p` in turn.
pub open spec fn pattern_format(
    force_format: Option<PixelFormat>,
    alternate_formats: bool,
    index: int,
    fps: int,
) -> PixelFormat {
    match force_format {
        Some(format) => format,
        None => if alternate_formats && (index / fps) % 6 >= 3 {
            PixelFormat::Yuvj422p
        } else {
            PixelFormat::Nv12
        },
    }
}

/// The format of frame `frame_index` of the test pattern.
pub fn test_pattern_format(
    force_format: Option<PixelFormat>,
    alternate_formats: bool,
    frame_index: u64,
    fps: u32,
) -> (format: PixelFormat)
    requires
        fps > 0,
    ensures
        format == pattern_format(force_format, alternate_formats, frame_index as int, fps as int),
        force_format is Some ==> format == force_format->0,
        force_format is None && !alternate_formats ==> format == PixelFormat::Nv12,
        force_format is None && alternate_formats ==> (format == PixelFormat::Yuvj422p
            <==> frame_index as int / (3 * fps) % 2 == 1),
{
    proof {
        lemma_stretches(frame_index as int, fps as int);
    }
    match force_format {
        Some(format) => format,
        None => if alternate_formats && (frame_index / fps as u64) % 6 >= 3 {
            PixelFormat::Yuvj422p
        } else {
            PixelFormat::Nv12
        },
    }
}

/// A frame of the test pattern that is due.
#[derive(Debug, Clone, Copy, PartialEq, Eq, Structural)]
pub struct PatternStep {
    pub index: u64,
    pub format: PixelFormat,
}

/// A run of the test pattern.
#[derive(Debug, Clone, Copy, PartialEq, Eq, Structural)]
pub struct PatternRun {
    pub width: u32,
    pub height: u32,
    pub fps: u32,
    pub alternate_formats: bool,
    pub force_format: Option<PixelFormat>,
    /// The number of the next frame.
    pub next: u64,
}

impl PatternRun {
    /// Frames of the run can be drawn.
    pub open spec fn valid(&self) -> bool {
        self.fps > 0 && self.width * self.height <= u32::MAX
    }

    /// The next frame.
    pub open spec fn step(&self) -> PatternStep {
        PatternStep {
            index: self.next,
            format: pattern_format(
                self.force_format,
                self.alternate_formats,
                self.next as int,
                self.fps as int,
            ),
        }
    }

    /// The run once its next frame was drawn.
    pub open spec fn stepped(&self) -> PatternRun {
        PatternRun { next: (self.next + 1) as u64, ..*self }
    }

    /// The run once its next `n` frames were drawn.
    pub open spec fn after(&self, n: nat) -> PatternRun
        decreases n,
    {
        if n == 0 {
            *self
        } else {
            self.after((n - 1) as nat).stepped()
        }
    }

    /// A run that has drawn nothing yet.
    pub fn new(
        width: u32,
        height: u32,
        fps: u32,
        alternate_formats: bool,
        force_format: Option<PixelFormat>,
    ) -> (run: PatternRun)
        ensures
            run == (PatternRun { width, height, fps, alternate_formats, force_format, next: 0 }),
    {
        PatternRun { width, height, fps, alternate_formats, force_format, next: 0 }
    }

    /// The frame that is due; none once the run was asked to stop.
    pub fn due(&self, stop_requested: bool) -> (step: Option<PatternStep>)
        requires
            self.valid(),
        ensures
            step == if stop_requested {
                None
            } else {
                Some(self.step())
            },
            step is Some <==> !stop_requested,
            step is Some ==> step->0.index == self.next,
    {
        if stop_requested {
            return None;
        }
        let format = test_pattern_format(
            self.force_format,
            self.alternate_formats,
            self.next,
            self.fps,
        );
        Some(PatternStep { index: self.next, format })
    }

    /// Draws the frame that is due, with the values for it, and goes on to the next one.
    pub fn draw(&mut self, values: &PatternValues) -> (frame: CaptureFrame)
        requires
            old(self).valid(),
            old(self).next < u64::MAX,
            values.covers(old(self).width, old(self).height, old(self).step().format),
        ensures
            crate::pattern::draws(
                frame,
                old(self).width,
                old(self).height,
                old(self).step().format,
                *values,
            ),
            frame.width == old(self).width,
            frame.height == old(self).height,
            frame.format == old(self).step().format,
            old(self).force_format is Some ==> frame.format == old(self).force_format->0,
            old(self).force_format is None && !old(self).alternate_formats ==> frame.format
                == PixelFormat::Nv12,
            *final(self) == old(self).stepped(),
            *final(self) == (PatternRun { next: final(self).next, ..*old(self) }),
            final(self).next == old(self).next + 1,
    {
        let format = test_pattern_format(
            self.force_format,
            self.alternate_formats,
            self.next,
            self.fps,
        );
        let frame = generate_test_frame(self.width, self.height, format, values);
        self.next = self.next + 1;
        frame
    }
}

/// The frames of a run are numbered from zero without a gap or a repetition, and each has the
/// format for its number.
pub proof fn law_frames_are_numbered_in_turn(run: PatternRun, k: nat)
    requires
        run.next == 0,
        k <= u64::MAX,
    ensures
        run.after(k).step() == (PatternStep {
            index: k as u64,
            format: pattern_format(
                run.force_format,
                run.alternate_formats,
                k as int,
                run.fps as int,
            ),
        }),
        run.after(k) == (PatternRun { next: k as u64, ..run }),
    decreases k,
{
    if k > 0 {
        law_frames_are_numbered_in_turn(run, (k - 1) as nat);
    }
}

/// The attempts are in order: every format for the first mode, in the order of the formats, then
/// every format for the second, and so on.
pub proof fn law_attempts_in_order(
    formats: Seq<Option<Seq<char>>>,
    modes: Seq<CaptureMode>,
    m: int,
    f: int,
)
    requires
        0 <= m < modes.len(),
        0 <= f < formats.len(),
    ensures
        all_attempts(formats, modes).len() == modes.len() * formats.len(),
        m * formats.len() + f < all_attempts(formats, modes).len(),
        all_attempts(formats, modes)[m * formats.len() + f] == (Attempt {
            mode: modes[m],
            format: formats[f],
        }),
{
    crate::modes::lemma_place(m, f, formats.len() as int, modes.len() as int);
}

/// Six seconds of frames are two stretches of three.
proof fn lemma_stretches(index: int, fps: int)
    requires
        0 <= index,
        0 < fps,
    ensures
        (index / fps) % 6 >= 3 <==> index / (3 * fps) % 2 == 1,
{
    let second = index / fps;
    vstd::arithmetic::div_mod::lemma_div_denominator(index, fps, 3);
    assert(fps * 3 == 3 * fps);
    assert(index / (3 * fps) == second / 3);
    vstd::arithmetic::div_mod::lemma_div_pos_is_pos(index, fps);
}

/// Where the formats alternate, three seconds of frames are `Nv12`, the next three `Yuvj422p`,
/// and so on without end.
pub proof fn law_formats_take_turns_of_three_seconds(turn: int, offset: int, fps: int)
    requires
        0 < fps,
        0 <= turn,
        0 <= offset < 3 * fps,
    ensures
        pattern_format(None, true, turn * (3 * fps) + offset, fps) == if turn % 2 == 0 {
            PixelFormat::Nv12
        } else {
            PixelFormat::Yuvj422p
        },
        pattern_format(None, false, turn * (3 * fps) + offset, fps) == PixelFormat::Nv12,
{
    let index = turn * (3 * fps) + offset;
    assert(0 <= turn * (3 * fps)) by (nonlinear_arith)
        requires
            0 <= turn,
            0 < fps,
    ;
    vstd::arithmetic::div_mod::lemma_fundamental_div_mod_converse(index, 3 * fps, turn, offset);
    lemma_stretches(index, fps);
}

/// A forced format is that of every frame.
pub proof fn law_forced_format_is_kept(
    format: PixelFormat,
    alternate_formats: bool,
    index: int,
    fps: int,
)
    ensures
        pattern_format(Some(format), alternate_formats, index, fps) == format,
{
}

/// A format that is "mjpeg" in any case is asked for as a codec, every other one as it is
/// written.
pub proof fn law_formats_are_asked_for_as_written(format: Seq<char>)
    ensures
        crate::text::lower(format) == crate::text::lower("mjpeg"@) ==> format_option(format) == (
            "vcodec"@,
            "mjpeg"@,
        ),
        crate::text::lower(format) != crate::text::lower("mjpeg"@) ==> format_option(format) == (
            "pixel_format"@,
            format,
        ),
{
}

/// A failure keeps the place in the list and is what is reported until there is another.
pub proof fn law_failures_are_kept(state: AttemptsState, error: Seq<char>)
    ensures
        state.failed(error).report() == error,
        state.failed(error).trying().report() == error,
        state.failed(error).tried == state.tried,
        state.failed(error).attempts == state.attempts,
        state.trying().tried == state.tried + 1,
        state.trying().last_error == state.last_error,
        state.has_next() == (state.tried < state.attempts.len()),
{
}

}
