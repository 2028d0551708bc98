use tacklecast::capture::{CaptureSource, CaptureStats, PixelFormat};
use tacklecast::devices::AudioDevice;
use tacklecast::logs::{line_time, log_name, moment_at, stale_logs, KEPT_LOGS};
use tacklecast::modes::CaptureMode;
use tacklecast::settings::{audio_changed, get_capture_config, video_changed, Settings};
use tacklecast::text::{decimal, signed_decimal};
use tacklecast::viewer::{Action, App, CliArgs, Key, TestPatternMode, WindowEvent};

fn args(flags: &[&str]) -> Vec<String> {
    flags.iter().map(|flag| flag.to_string()).collect()
}

fn app(video_device: &str, found: &[&str], test_mode: bool) -> App {
    let settings = Settings { video_device: video_device.to_string(), ..Settings::default() };
    let mic = AudioDevice { index: 0, name: "Mic".to_string() };
    App::new(settings, test_mode, TestPatternMode::Nv12, args(found), vec![mic], vec![])
}

fn press(key: Key) -> WindowEvent {
    WindowEvent::Keyboard { key, pressed: true, repeat: false }
}

const STATS: CaptureStats = CaptureStats { fps_bits: 7, width: 640, height: 480 };

#[test]
fn command_line_turns_the_test_mode_on() {
    let parsed = CliArgs::parse(&args(&[]));
    assert_eq!(parsed, CliArgs { test_mode: false, test_pattern: TestPatternMode::Alternate });
    let parsed = CliArgs::parse(&args(&["--TEST"]));
    assert_eq!(parsed, CliArgs { test_mode: true, test_pattern: TestPatternMode::Alternate });
    let parsed = CliArgs::parse(&args(&["x", "--test-alt"]));
    assert_eq!(parsed, CliArgs { test_mode: true, test_pattern: TestPatternMode::Alternate });
    let parsed = CliArgs::parse(&args(&["--test-mjpeg", "--Test-NV12"]));
    assert_eq!(parsed, CliArgs { test_mode: true, test_pattern: TestPatternMode::Nv12 });
    let parsed = CliArgs::parse(&args(&["--test-mjpeg"]));
    assert_eq!(parsed, CliArgs { test_mode: true, test_pattern: TestPatternMode::Yuvj422p });
    let parsed = CliArgs::parse(&args(&["--test-yuvj422p"]));
    assert_eq!(parsed, CliArgs { test_mode: true, test_pattern: TestPatternMode::Yuvj422p });
    assert!(!CliArgs::parse(&args(&["--tests", "test"])).test_mode);
}

#[test]
fn escape_opens_and_closes_the_menu() {
    let mut app = app("", &[], false);
    assert_eq!(app.window_event(press(Key::Escape), true, false), vec![Action::OpenMenu]);
    assert_eq!(app.window_event(press(Key::Escape), true, true), vec![Action::CloseMenu]);
    assert!(app.window_event(press(Key::Escape), false, false).is_empty());
    let held = WindowEvent::Keyboard { key: Key::Escape, pressed: true, repeat: true };
    assert_eq!(app.window_event(held, true, false), vec![Action::ForwardToUi]);
    let released = WindowEvent::Keyboard { key: Key::F11, pressed: false, repeat: false };
    assert_eq!(app.window_event(released, true, false), vec![Action::ForwardToUi]);
    assert!(app.window_event(press(Key::Other), false, false).is_empty());
}

#[test]
fn fullscreen_key_twice_is_nothing() {
    let mut app = app("", &[], false);
    assert_eq!(
        app.window_event(press(Key::F11), true, false),
        vec![Action::SetFullscreen(true)]
    );
    assert!(app.is_fullscreen);
    assert_eq!(
        app.window_event(press(Key::F11), true, false),
        vec![Action::SetFullscreen(false)]
    );
    assert!(!app.is_fullscreen);
    assert!(app.toggle_fullscreen());
}

#[test]
fn capture_starts_before_audio() {
    assert_eq!(
        app("", &[], false).resumed(),
        vec![Action::StartCapture, Action::StartAudio, Action::RequestRedraw]
    );
}

#[test]
fn closing_stops_everything_and_saves() {
    let mut app = app("", &[], false);
    assert_eq!(
        app.window_event(WindowEvent::CloseRequested, true, false),
        vec![
            Action::ForwardToUi,
            Action::StopCapture,
            Action::StopAudio,
            Action::SaveSettings,
            Action::Exit,
        ]
    );
}

#[test]
fn hidden_windows_are_not_drawn() {
    let mut app = app("", &[], false);
    let redraw = WindowEvent::RedrawRequested;
    assert_eq!(app.window_event(redraw, false, false), vec![Action::Draw]);
    assert_eq!(
        app.window_event(WindowEvent::Resized { width: 0, height: 5 }, false, false),
        vec![Action::ResizeSurface { width: 0, height: 5 }]
    );
    assert!(app.window_event(redraw, false, false).is_empty());
    assert!(app.about_to_wait(false, None, None, None).is_empty());
    assert_eq!(
        app.window_event(WindowEvent::Resized { width: 4, height: 5 }, false, false),
        vec![Action::ResizeSurface { width: 4, height: 5 }, Action::RequestRedraw]
    );
    assert!(app.window_event(WindowEvent::Occluded(true), false, false).is_empty());
    assert!(app.window_event(redraw, false, false).is_empty());
    assert!(!app.overlay_info().show_overlay);
    assert_eq!(
        app.window_event(WindowEvent::Occluded(false), true, false),
        vec![Action::ForwardToUi, Action::RequestRedraw]
    );
    assert_eq!(app.about_to_wait(false, None, None, None), vec![Action::RequestRedraw]);
    assert_eq!(app.window_event(WindowEvent::Other, true, false), vec![Action::ForwardToUi]);
}

#[test]
fn menu_requests_run_in_order() {
    let mut app = app("", &[], false);
    assert!(app.frame_drawn(false, false, false).is_empty());
    assert_eq!(
        app.frame_drawn(true, true, true),
        vec![
            Action::SetFullscreen(true),
            Action::ApplySettings,
            Action::StopCapture,
            Action::StopAudio,
            Action::SaveSettings,
            Action::Exit,
        ]
    );
    assert!(app.is_fullscreen);
}

#[test]
fn settings_restart_only_what_changed() {
    let base = Settings::default;
    let change = |new: Settings, volume: bool| app("", &[], false).apply_settings(new, volume);
    assert_eq!(change(base(), false), vec![Action::SaveSettings]);
    assert_eq!(change(base(), true), vec![Action::SaveSettings, Action::SetVolume]);
    let video = vec![Action::SaveSettings, Action::StopCapture, Action::StartCapture];
    assert_eq!(change(Settings { resolution: "4K".to_string(), ..base() }, false), video);
    assert_eq!(change(Settings { fps_mode: "120".to_string(), ..base() }, false), video);
    assert_eq!(change(Settings { custom_fps: 90, ..base() }, false), video);
    let audio = vec![Action::SaveSettings, Action::StopAudio, Action::StartAudio];
    assert_eq!(change(Settings { audio_input: 3, ..base() }, true), audio);
    assert_eq!(change(Settings { audio_output: 3, ..base() }, false), audio);
    assert_eq!(
        change(Settings { video_device: "Cam".to_string(), ..base() }, false),
        vec![
            Action::SaveSettings,
            Action::StopCapture,
            Action::StartCapture,
            Action::StopAudio,
            Action::StartAudio,
        ]
    );
    assert_eq!(
        change(Settings { show_overlay: false, ..base() }, false),
        vec![Action::SaveSettings]
    );
    let mut app = app("", &[], false);
    app.apply_settings(Settings { audio_input: 3, ..base() }, false);
    assert_eq!(app.settings.audio_input, 3);
    assert!(!video_changed(&base(), &base()));
    assert!(!audio_changed(&base(), &base()));
}

#[test]
fn overlay_tells_of_errors_first() {
    let mut app = app("", &[], false);
    let info = app.overlay_info();
    assert_eq!(info.status_message.as_deref(), Some("Connecting..."));
    assert!(info.status_is_alert && info.show_overlay);
    assert_eq!((info.width, info.height, info.fps_bits), (None, None, None));

    app.about_to_wait(true, Some(STATS), None, None);
    let info = app.overlay_info();
    assert_eq!(info.status_message, None);
    assert!(!info.status_is_alert);
    assert_eq!((info.width, info.height, info.fps_bits), (Some(640), Some(480), Some(7)));

    app.about_to_wait(true, None, Some("lost".to_string()), None);
    let info = app.overlay_info();
    assert_eq!(info.status_message.as_deref(), Some("lost"));
    assert!(info.status_is_alert);
    assert_eq!(info.width, Some(640));

    app.about_to_wait(false, None, None, None);
    assert_eq!(app.latest_error.as_deref(), Some("lost"));
    app.about_to_wait(true, None, None, None);
    assert_eq!(app.latest_error, None);
}

#[test]
fn negotiated_modes_are_taken_on_and_saved() {
    let mut app = app("", &[], false);
    let agreed = CaptureMode { width: 1280, height: 720, fps: 30 };
    assert_eq!(
        app.about_to_wait(true, None, None, Some(agreed)),
        vec![Action::SaveSettings, Action::RequestRedraw]
    );
    assert_eq!(app.settings.resolution, "720p");
    assert_eq!(app.settings.fps_mode, "30");
    let config = app.start_capture();
    assert_eq!((config.width, config.height, config.fps), (1280, 720, 30));
}

#[test]
fn settings_take_on_what_was_agreed() {
    let mut settings = Settings::default();
    settings.apply_negotiated(2560, 1440, 120);
    assert_eq!((settings.resolution.as_str(), settings.get_fps()), ("1440p", Some(120)));
    assert_eq!(settings.custom_fps, 120);
    settings.apply_negotiated(3840, 2160, 75);
    assert_eq!((settings.resolution.as_str(), settings.get_fps()), ("4K", Some(75)));
    assert_eq!((settings.fps_mode.as_str(), settings.custom_fps), ("custom", 75));
    settings.apply_negotiated(640, 480, 60);
    assert_eq!((settings.resolution.as_str(), settings.get_fps()), ("4K", Some(60)));
    assert_eq!(settings.custom_fps, 75);
    settings.apply_negotiated(1920, 1080, 30);
    assert_eq!((settings.resolution.as_str(), settings.get_fps()), ("1080p", Some(30)));
}

#[test]
fn unknown_settings_are_replaced_by_the_default() {
    let asked = |resolution: &str, fps_mode: &str| {
        let config = Settings {
            resolution: resolution.to_string(),
            fps_mode: fps_mode.to_string(),
            ..Settings::default()
        }
        .capture_settings();
        (config.width, config.height, config.fps, config.pixel_format, config.decode_threads)
    };
    assert_eq!(asked("4K", "120"), (3840, 2160, 120, "mjpeg", 4));
    assert_eq!(asked("8K", "120"), (1920, 1080, 120, "mjpeg", 4));
    assert_eq!(asked("720p", "fast"), (1280, 720, 60, "nv12", 1));
    assert_eq!(asked("", ""), (1920, 1080, 60, "nv12", 1));
}

#[test]
fn capture_takes_the_configured_device_or_the_first() {
    let source = |mut app: App| app.start_capture().source;
    match source(app("Cam", &["Other"], false)) {
        CaptureSource::DirectShow { device_name, pixel_format, decode_threads } => {
            assert_eq!(device_name, "Cam");
            assert_eq!(pixel_format, "nv12");
            assert_eq!(decode_threads, 1);
        }
        other => panic!("{other:?}"),
    }
    match source(app("", &["First", "Second"], false)) {
        CaptureSource::DirectShow { device_name, .. } => assert_eq!(device_name, "First"),
        other => panic!("{other:?}"),
    }
    let pattern = |source: CaptureSource| match source {
        CaptureSource::TestPattern { alternate_formats, force_format } => {
            (alternate_formats, force_format)
        }
        other => panic!("{other:?}"),
    };
    assert_eq!(pattern(source(app("", &[], false))), (false, Some(PixelFormat::Nv12)));
    assert_eq!(pattern(source(app("", &[""], false))), (false, Some(PixelFormat::Nv12)));
    assert_eq!(pattern(source(app("Cam", &[], true))), (false, Some(PixelFormat::Nv12)));
}

#[test]
fn starting_a_capture_forgets_the_last_one() {
    let mut app = app("Cam", &[], false);
    app.about_to_wait(false, Some(STATS), Some("lost".to_string()), None);
    let config = app.start_capture();
    assert_eq!((config.width, config.height, config.fps), (1920, 1080, 60));
    assert!(app.latest_stats.is_none() && app.latest_error.is_none());
}

#[test]
fn test_pattern_follows_the_mode() {
    let mut app = app("", &[], true);
    let mut pattern = |mode: TestPatternMode| {
        app.test_pattern = mode;
        match app.start_test_capture(1, 2, 3).source {
            CaptureSource::TestPattern { alternate_formats, force_format } => {
                (alternate_formats, force_format)
            }
            other => panic!("{other:?}"),
        }
    };
    assert_eq!(pattern(TestPatternMode::Alternate), (true, None));
    assert_eq!(pattern(TestPatternMode::Nv12), (false, Some(PixelFormat::Nv12)));
    assert_eq!(pattern(TestPatternMode::Yuvj422p), (false, Some(PixelFormat::Yuvj422p)));
}

#[test]
fn audio_runs_where_there_is_a_video_device() {
    let request = app("Cam", &[], false).start_audio().unwrap();
    assert_eq!(request.video_device, "Cam");
    assert_eq!((request.input_index, request.output_index), (-1, -1));
    assert_eq!(app("", &["First"], false).start_audio().unwrap().video_device, "First");
    assert!(app("", &[], false).start_audio().is_none());
    assert!(app("Cam", &[], true).start_audio().is_none());
}

#[test]
fn resolutions_have_their_sizes() {
    let size = |resolution: &str| {
        get_capture_config(resolution, 60).map(|config| (config.width, config.height))
    };
    assert_eq!(size("720p"), Some((1280, 720)));
    assert_eq!(size("1080p"), Some((1920, 1080)));
    assert_eq!(size("1440p"), Some((2560, 1440)));
    assert_eq!(size("4K"), Some((3840, 2160)));
    assert_eq!(size("4k"), None);
    let slow = get_capture_config("720p", 60).unwrap();
    assert_eq!((slow.fps, slow.pixel_format, slow.decode_threads), (60, "nv12", 1));
    let fast = get_capture_config("720p", 61).unwrap();
    assert_eq!((fast.fps, fast.pixel_format, fast.decode_threads), (61, "mjpeg", 4));
}

#[test]
fn frame_rate_follows_the_mode() {
    let fps = |mode: &str| {
        Settings { fps_mode: mode.to_string(), custom_fps: 75, ..Settings::default() }.get_fps()
    };
    assert_eq!(fps("30"), Some(30));
    assert_eq!(fps("60"), Some(60));
    assert_eq!(fps("120"), Some(120));
    assert_eq!(fps("custom"), Some(75));
    assert_eq!(fps("144"), None);
    assert_eq!(f64::from_bits(Settings::default().volume_bits), 1.0);
}

#[test]
fn logs_are_named_by_their_time() {
    let moment = moment_at(951_827_696);
    assert_eq!(log_name(&moment), "tacklecast_20000229_123456.log");
    assert_eq!(line_time(&moment), "2000-02-29 12:34:56");
    assert_eq!(line_time(&moment_at(0)), "1970-01-01 00:00:00");
    assert_eq!(line_time(&moment_at(86_399)), "1970-01-01 23:59:59");
    assert_eq!(line_time(&moment_at(1_735_689_599)), "2024-12-31 23:59:59");
    assert_eq!(line_time(&moment_at(4_107_542_400)), "2100-03-01 00:00:00");
}

#[test]
fn newest_logs_are_kept() {
    let mut names: Vec<String> =
        (0..7).map(|i| log_name(&moment_at(1_000_000_000 + i * 100_000))).collect();
    names.insert(0, "notes.log".to_string());
    names.push("tacklecast_.txt".to_string());
    assert_eq!(stale_logs(&names), vec![1, 2]);
    assert_eq!(names.len() - 2 - stale_logs(&names).len(), KEPT_LOGS);
    assert!(stale_logs(&names[3..]).is_empty());
    assert!(stale_logs(&[]).is_empty());
}

#[test]
fn numbers_are_written_in_decimal() {
    assert_eq!(decimal(0), "0");
    assert_eq!(decimal(u64::MAX), "18446744073709551615");
    assert_eq!(signed_decimal(-1), "-1");
    assert_eq!(signed_decimal(i32::MIN), "-2147483648");
    assert_eq!(signed_decimal(42), "42");
}
