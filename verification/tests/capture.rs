use std::f32::consts::PI;

use tacklecast::capture::{
    pixel_format_attempts, CaptureConfig, CaptureFrame, CaptureSource, PixelFormat,
};
use tacklecast::frames::{
    capture_frame_from_video, copy_plane, extract_supported_frame,
    extract_supported_frame_with_format, frame_holds, ConversionFailure, FrameStep, PlaneView,
    ScalerSetup, SourcePixel, VideoView,
};
use tacklecast::modes::{mode_list, CaptureMode};
use tacklecast::pattern::{chroma_rows, generate_test_frame, interleave, PatternValues};
use tacklecast::session::{
    capture_options, capture_url, decoder_threads, frame_delay, prefers_yuvj422p,
    test_pattern_format, AttemptStep, CaptureAttempts, CaptureFailure, CaptureSession, FrameLog,
    PacketAction, PatternRun, PatternStep, StatsWindow, STATS_INTERVAL_NANOS,
};

fn pattern_frame(width: u32, height: u32, frame_index: u64, format: PixelFormat) -> CaptureFrame {
    let columns = width / 2;
    let rows = chroma_rows(height, format);
    let (column_speed, row_speed) = match format {
        PixelFormat::Nv12 => (0.03f32, 0.05f32),
        PixelFormat::Yuvj422p => (0.06, 0.02),
    };
    let frame_index = frame_index as f32;
    let values = PatternValues {
        wave: (0..width)
            .map(|x| {
                let phase = (frame_index * 0.04) + (x as f32 / width as f32) * PI * 2.0;
                (((phase.sin() * 0.5) + 0.5) * 80.0) as u8
            })
            .collect(),
        sweep: (0..height)
            .map(|y| {
                ((y as f32 / height as f32) * 255.0 + frame_index * 2.0) as i32
            })
            .collect(),
        chroma_columns: (0..columns)
            .map(|x| {
                let phase = (x as f32 / columns as f32) * PI * 2.0 + frame_index * column_speed;
                ((phase.sin() * 0.5 + 0.5) * 255.0) as u8
            })
            .collect(),
        chroma_rows: (0..rows)
            .map(|y| {
                let phase = (y as f32 / rows as f32) * PI * 2.0 + frame_index * row_speed;
                ((phase.cos() * 0.5 + 0.5) * 255.0) as u8
            })
            .collect(),
    };
    assert!(values.fits(width, height, format));
    generate_test_frame(width, height, format, &values)
}

#[test]
fn generates_expected_plane_sizes_for_nv12() {
    let frame = pattern_frame(1280, 720, 0, PixelFormat::Nv12);
    assert_eq!(frame.y_data.len(), 1280 * 720);
    assert_eq!(frame.u_data.len(), 1280 * 720 / 2);
    assert!(frame.v_data.is_empty());
}

#[test]
fn generates_expected_plane_sizes_for_yuvj422p() {
    let frame = pattern_frame(1280, 720, 0, PixelFormat::Yuvj422p);
    assert_eq!(frame.y_data.len(), 1280 * 720);
    assert_eq!(frame.u_data.len(), 640 * 720);
    assert_eq!(frame.v_data.len(), 640 * 720);
}

#[test]
fn pattern_puts_sweep_bars_and_wave_together() {
    let values = PatternValues {
        wave: vec![80, 60, 40, 20],
        sweep: vec![10 + 512, -1],
        chroma_columns: vec![1, 2],
        chroma_rows: vec![7],
    };
    let frame = generate_test_frame(4, 2, PixelFormat::Nv12, &values);
    // Bars of the columns: 0, 56, 112, 168.
    assert_eq!(
        frame.y_data,
        vec![5 + 40, 5 + 28 + 30, 5 + 56 + 20, 5 + 84 + 10, 127 + 40, 127 + 28 + 30, 127 + 56 + 20, 127 + 84 + 10]
    );
    assert_eq!(frame.u_data, vec![1, 7, 2, 7]);
    assert!(frame.v_data.is_empty());
}

#[test]
fn pattern_fills_up_rows_of_odd_width() {
    let frame = pattern_frame(3, 2, 0, PixelFormat::Nv12);
    assert_eq!(frame.u_data.len(), 3);
    let values = PatternValues {
        wave: vec![0; 5],
        sweep: vec![0; 5],
        chroma_columns: vec![1, 2],
        chroma_rows: vec![7, 8],
    };
    let frame = generate_test_frame(5, 5, PixelFormat::Nv12, &values);
    assert_eq!(frame.u_data, vec![1, 7, 2, 7, 1, 8, 2, 8, 0, 0]);
    assert!(frame.v_data.is_empty());
}

#[test]
fn pattern_in_three_planes() {
    let values = PatternValues {
        wave: vec![0, 0, 0, 0, 0],
        sweep: vec![0, 0],
        chroma_columns: vec![1, 2],
        chroma_rows: vec![7, 8],
    };
    let frame = generate_test_frame(5, 2, PixelFormat::Yuvj422p, &values);
    assert_eq!(frame.width, 5);
    assert_eq!(frame.height, 2);
    assert_eq!(frame.format, PixelFormat::Yuvj422p);
    assert_eq!(frame.u_data, vec![1, 2, 1, 2]);
    assert_eq!(frame.v_data, vec![7, 7, 8, 8]);
    // Brightness never exceeds a byte.
    let bright = PatternValues {
        wave: vec![255; 8],
        sweep: vec![255],
        chroma_columns: vec![0; 4],
        chroma_rows: vec![0],
    };
    let frame = generate_test_frame(8, 1, PixelFormat::Yuvj422p, &bright);
    assert_eq!(frame.y_data, vec![254, 255, 255, 255, 255, 255, 255, 255]);
    assert!(!bright.fits(8, 2, PixelFormat::Yuvj422p));
    assert_eq!(interleave(&[1, 2], &[3, 4]), vec![1, 3, 2, 4]);
}

#[test]
fn pixel_format_attempts_include_fallbacks_without_duplicates() {
    let attempts = pixel_format_attempts("nv12");
    let labels: Vec<_> = attempts.iter().map(|s| s.as_deref().unwrap_or("auto")).collect();
    assert!(labels.contains(&"nv12"));
    assert!(labels.contains(&"mjpeg"));
    assert!(labels.contains(&"auto"));
    let nv12_count = labels.iter().filter(|v| **v == "nv12").count();
    assert_eq!(nv12_count, 1);
}

#[test]
fn pixel_format_attempts_start_with_the_request() {
    let labels = |requested: &str| -> Vec<String> {
        pixel_format_attempts(requested)
            .into_iter()
            .map(|label| label.unwrap_or("auto".to_string()))
            .collect()
    };
    assert_eq!(
        labels("nv12"),
        vec!["nv12", "mjpeg", "yuyv422", "uyvy422", "yuv420p", "auto"]
    );
    assert_eq!(
        labels("bgr24"),
        vec!["bgr24", "mjpeg", "nv12", "yuyv422", "uyvy422", "yuv420p", "auto"]
    );
    // Names are compared as they are written.
    assert_eq!(labels("NV12").len(), 7);
}

#[test]
fn frame_rate_is_at_least_one() {
    let config = |fps: u32| CaptureConfig {
        width: 1,
        height: 1,
        fps,
        source: CaptureSource::TestPattern { alternate_formats: false, force_format: None },
    };
    assert_eq!(config(0).effective_fps(), 1);
    assert_eq!(config(60).effective_fps(), 60);
}

const SMALL: CaptureMode = CaptureMode { width: 1280, height: 720, fps: 30 };

#[test]
fn attempts_run_until_the_last_error_is_reported() {
    let mut attempts = CaptureAttempts::new("Cam".to_string(), "mjpeg", SMALL);
    let mut tried = Vec::new();
    let report = loop {
        match attempts.next_step(false) {
            AttemptStep::Try { format, mode } => {
                assert_eq!(mode, SMALL);
                assert_eq!(attempts.negotiated(), None);
                let label = format.unwrap_or("auto".to_string());
                attempts.record_failure(format!("no {label}"));
                tried.push(label);
            }
            AttemptStep::Report(error) => break error,
            AttemptStep::Stop => panic!("nothing asked to stop"),
        }
    };
    assert_eq!(tried, vec!["mjpeg", "nv12", "yuyv422", "uyvy422", "yuv420p", "auto"]);
    assert_eq!(report, "no auto");
}

#[test]
fn attempts_fall_back_to_lower_modes() {
    let requested = CaptureMode { width: 1920, height: 1080, fps: 60 };
    let mut attempts = CaptureAttempts::new("Cam".to_string(), "nv12", requested);
    assert_eq!(attempts.negotiated(), None);
    let mut seen: Vec<CaptureMode> = Vec::new();
    let mut count = 0;
    loop {
        match attempts.next_step(false) {
            AttemptStep::Try { mode, .. } => {
                let expected = if mode == requested { None } else { Some(mode) };
                assert_eq!(attempts.negotiated(), expected);
                attempts.record_failure(format!("attempt {count}"));
                if seen.last() != Some(&mode) {
                    seen.push(mode);
                }
                count += 1;
            }
            AttemptStep::Report(error) => {
                assert_eq!(error, "attempt 23");
                break;
            }
            AttemptStep::Stop => panic!("nothing asked to stop"),
        }
    }
    assert_eq!(count, 4 * 6);
    assert_eq!(seen, mode_list(requested));
}

#[test]
fn modes_go_down_from_the_request() {
    let mode = |width: u32, height: u32, fps: u32| CaptureMode { width, height, fps };
    assert_eq!(
        mode_list(mode(1920, 1080, 60)),
        vec![
            mode(1920, 1080, 60),
            mode(1920, 1080, 30),
            mode(1280, 720, 60),
            mode(1280, 720, 30),
        ]
    );
    let all = mode_list(mode(3840, 2160, 240));
    assert_eq!(all.len(), 16);
    assert_eq!(all[1], mode(3840, 2160, 120));
    assert_eq!(all[15], mode(1280, 720, 30));
    assert_eq!(mode_list(mode(1280, 720, 30)), vec![mode(1280, 720, 30)]);
    assert_eq!(mode_list(mode(640, 480, 25)), vec![mode(640, 480, 25)]);
    assert_eq!(mode_list(mode(1280, 800, 30)), vec![mode(1280, 800, 30), mode(1280, 720, 30)]);
}

#[test]
fn attempts_stop_when_asked() {
    let mut attempts = CaptureAttempts::new("Cam".to_string(), "nv12", SMALL);
    assert!(matches!(attempts.next_step(true), AttemptStep::Stop));
    assert!(matches!(attempts.next_step(false), AttemptStep::Try { format: Some(_), .. }));
    for _ in 0..5 {
        assert!(matches!(attempts.next_step(false), AttemptStep::Try { .. }));
    }
    match attempts.next_step(true) {
        AttemptStep::Report(error) => assert_eq!(error, "all capture attempts failed for 'Cam'"),
        other => panic!("{other:?}"),
    }
}

#[test]
fn options_ask_for_the_format() {
    let texts = |format: Option<&str>| -> Vec<String> {
        capture_options(1920, 1080, 60, format)
            .into_iter()
            .map(|(name, value)| format!("{name}={value}"))
            .collect()
    };
    let common = vec![
        "video_size=1920x1080",
        "framerate=60",
        "rtbufsize=16M",
        "probesize=5000000",
        "analyzeduration=1000000",
    ];
    assert_eq!(texts(None), common);
    assert_eq!(texts(Some("MJPEG"))[5], "vcodec=mjpeg");
    assert_eq!(texts(Some("NV12"))[5], "pixel_format=NV12");
    assert_eq!(capture_url("ShadowCast 3"), "video=ShadowCast 3");
    assert_eq!(decoder_threads(0), 1);
    assert_eq!(decoder_threads(4), 4);
    assert!(!prefers_yuvj422p(60));
    assert!(prefers_yuvj422p(61));
}

#[test]
fn failures_are_put_in_words() {
    let cause = || "-5".to_string();
    assert_eq!(
        CaptureFailure::NoDirectShow.message("Cam"),
        "DirectShow input format was not found in FFmpeg"
    );
    assert_eq!(
        CaptureFailure::Open(cause()).message("Cam"),
        "failed to open DirectShow input for 'Cam': -5"
    );
    assert_eq!(CaptureFailure::NoVideoStream.message("Cam"), "no video stream found for 'Cam'");
    assert_eq!(
        CaptureFailure::DecoderContext(cause()).message("Cam"),
        "failed to create decoder context: -5"
    );
    assert_eq!(
        CaptureFailure::DecoderOpen(cause()).message("Cam"),
        "failed to open video decoder: -5"
    );
    assert_eq!(
        CaptureFailure::Conversion(cause()).message("Cam"),
        "failed to convert decoded frame: -5"
    );
    assert_eq!(
        ConversionFailure::Setup {
            input: "YUYV422".to_string(),
            output: "NV12".to_string(),
            cause: cause(),
        }
        .message(),
        "unsupported pixel format YUYV422 and failed to initialize converter to NV12: -5"
    );
    assert_eq!(
        ConversionFailure::Run(cause()).message(),
        "failed to convert frame via swscale: -5"
    );
}

#[test]
fn frame_rates_are_reported_every_interval() {
    let mut window = StatsWindow::new();
    assert_eq!(window.count_frame(STATS_INTERVAL_NANOS - 1), None);
    assert_eq!(window.count_frame(STATS_INTERVAL_NANOS), Some(2));
    assert_eq!(window.frames, 0);
    assert_eq!(STATS_INTERVAL_NANOS, 300_000_000);
}

#[test]
fn session_counts_packets_and_frames() {
    let mut session = CaptureSession::new(3);
    assert_eq!(session.on_packet(true, 3), PacketAction::Stop);
    assert_eq!(session.on_packet(false, 2), PacketAction::Skip);
    assert_eq!(session.on_packet(false, 3), PacketAction::Decode);

    let logged: Vec<u32> = (1..=120).filter(|_| session.on_packet_error()).collect();
    assert_eq!(logged, vec![1, 2, 3, 4, 5, 6, 7, 8, 9, 10, 50, 100]);

    let logs: Vec<FrameLog> = (0..240).map(|_| session.on_frame()).collect();
    assert!(logs[0].first && !logs[1].first);
    let progress: Vec<usize> = (0..240).filter(|i| logs[*i].progress).collect();
    assert_eq!(progress, vec![119, 239]);

    assert_eq!(session.on_frame_sent(0), None);
    assert_eq!(session.on_frame_sent(STATS_INTERVAL_NANOS), Some(2));
    assert_eq!(session.stats.frames, 0);
}

#[test]
fn pattern_waits_out_its_interval() {
    assert_eq!(frame_delay(10, 4), Some(6));
    assert_eq!(frame_delay(10, 10), None);
    assert_eq!(frame_delay(10, 11), None);
}

#[test]
fn pattern_formats_alternate_every_three_seconds() {
    let format = |index: u64| test_pattern_format(None, true, index, 60);
    assert_eq!(format(0), PixelFormat::Nv12);
    assert_eq!(format(179), PixelFormat::Nv12);
    assert_eq!(format(180), PixelFormat::Yuvj422p);
    assert_eq!(format(359), PixelFormat::Yuvj422p);
    assert_eq!(format(360), PixelFormat::Nv12);
    assert_eq!(test_pattern_format(None, false, 180, 60), PixelFormat::Nv12);
    assert_eq!(
        test_pattern_format(Some(PixelFormat::Yuvj422p), true, 0, 60),
        PixelFormat::Yuvj422p
    );
}

#[test]
fn pattern_frames_are_numbered_in_turn() {
    let mut run = PatternRun::new(2, 2, 1, true, None);
    for index in 0..12u64 {
        let format =
            if index % 6 >= 3 { PixelFormat::Yuvj422p } else { PixelFormat::Nv12 };
        assert_eq!(run.due(false), Some(PatternStep { index, format }));
        let values = PatternValues {
            wave: vec![0; 2],
            sweep: vec![2 * index as i32; 2],
            chroma_columns: vec![0],
            chroma_rows: vec![0; chroma_rows(2, format) as usize],
        };
        let frame = run.draw(&values);
        assert_eq!((frame.width, frame.height, frame.format), (2, 2, format));
        assert_eq!(frame.y_data[0], index as u8);
    }
    assert_eq!(run.next, 12);
    assert_eq!(run.due(true), None);
}

#[test]
fn brightness_does_not_depend_on_the_format() {
    let nv12 = pattern_frame(64, 48, 17, PixelFormat::Nv12);
    let yuvj422p = pattern_frame(64, 48, 17, PixelFormat::Yuvj422p);
    assert_eq!(nv12.y_data, yuvj422p.y_data);
    assert_ne!(nv12.y_data, pattern_frame(64, 48, 18, PixelFormat::Nv12).y_data);
}

#[test]
fn planes_are_copied_without_gaps() {
    assert_eq!(copy_plane(&[1, 2, 9, 3, 4, 9, 5, 6], 3, 2, 3), vec![1, 2, 3, 4, 5, 6]);
    assert!(copy_plane(&[1, 2], 3, 2, 0).is_empty());
    assert_eq!(copy_plane(&[1, 2, 3], 1, 2, 2), vec![1, 2, 2, 3]);
}

#[test]
fn decoded_frames_are_read_in_their_format() {
    let luma = [1u8, 2, 0, 3, 4, 0];
    let pairs = [5u8, 6, 0];
    let nv12 = VideoView {
        width: 2,
        height: 2,
        format: SourcePixel::Nv12,
        planes: vec![
            PlaneView { data: &luma, stride: 3 },
            PlaneView { data: &pairs, stride: 3 },
        ],
    };
    assert!(frame_holds(&nv12, PixelFormat::Nv12));
    assert!(!frame_holds(&nv12, PixelFormat::Yuvj422p));
    match capture_frame_from_video(&nv12, None, true) {
        FrameStep::Ready(frame) => {
            assert_eq!((frame.width, frame.height, frame.format), (2, 2, PixelFormat::Nv12));
            assert_eq!(frame.y_data, vec![1, 2, 3, 4]);
            assert_eq!(frame.u_data, vec![5, 6]);
            assert!(frame.v_data.is_empty());
        }
        other => panic!("{other:?}"),
    }

    let chroma = [7u8, 0, 8, 0];
    let yuvj422p = VideoView {
        width: 2,
        height: 2,
        format: SourcePixel::Yuvj422p,
        planes: vec![
            PlaneView { data: &luma, stride: 3 },
            PlaneView { data: &chroma, stride: 2 },
            PlaneView { data: &chroma, stride: 1 },
        ],
    };
    assert!(frame_holds(&yuvj422p, PixelFormat::Yuvj422p));
    let frame = extract_supported_frame(&yuvj422p, "YUVJ422P").unwrap();
    assert_eq!(frame.u_data, vec![7, 8]);
    assert_eq!(frame.v_data, vec![7, 0]);
    let frame = extract_supported_frame_with_format(&yuvj422p, PixelFormat::Yuvj422p);
    assert_eq!(frame.y_data, vec![1, 2, 3, 4]);
}

#[test]
fn short_planes_hold_no_frame() {
    let short = [0u8; 3];
    let view = VideoView {
        width: 2,
        height: 2,
        format: SourcePixel::Nv12,
        planes: vec![
            PlaneView { data: &short, stride: 2 },
            PlaneView { data: &short, stride: 2 },
        ],
    };
    assert!(!frame_holds(&view, PixelFormat::Nv12));
    let wide = VideoView {
        width: 2,
        height: 2,
        format: SourcePixel::Nv12,
        planes: vec![
            PlaneView { data: &short, stride: usize::MAX },
            PlaneView { data: &short, stride: usize::MAX },
        ],
    };
    assert!(!frame_holds(&wide, PixelFormat::Nv12));
}

#[test]
fn other_formats_are_converted() {
    let view = VideoView {
        width: 640,
        height: 480,
        format: SourcePixel::Other(1),
        planes: Vec::new(),
    };
    let setup = |output_format: SourcePixel| ScalerSetup {
        input_format: SourcePixel::Other(1),
        input_width: 640,
        input_height: 480,
        output_format,
        output_width: 640,
        output_height: 480,
    };
    let convert = |held: Option<ScalerSetup>, prefer: bool| {
        match capture_frame_from_video(&view, held, prefer) {
            FrameStep::Convert { setup, rebuild } => (setup, rebuild),
            FrameStep::Ready(_) => panic!("not drawn as it is"),
        }
    };
    assert_eq!(convert(None, false), (setup(SourcePixel::Nv12), true));
    assert_eq!(convert(None, true), (setup(SourcePixel::Yuvj422p), true));
    let held = setup(SourcePixel::Nv12);
    assert_eq!(convert(Some(held), false), (held, false));
    assert_eq!(convert(Some(held), true), (setup(SourcePixel::Yuvj422p), true));
    let other_size = ScalerSetup { input_width: 320, ..held };
    assert_eq!(convert(Some(other_size), false), (held, true));
    assert_eq!(
        extract_supported_frame(&view, "YUYV422").err(),
        Some("unsupported converted pixel format: YUYV422".to_string())
    );
}
