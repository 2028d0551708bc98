use tacklecast::devices::{
    device_supports_direction, enumerate_audio_devices, enumerate_audio_inputs,
    enumerate_audio_outputs, enumerate_video_devices, ffmpeg_path, find_audio_input_for_video,
    keywords_for_device_name, parse_video_device_line, video_devices_in, AudioDevice, DeviceProbe,
    Direction,
};

fn probe(name: Option<&str>, offers_input: bool, offers_output: bool) -> DeviceProbe {
    DeviceProbe { name: name.map(|name| name.to_string()), offers_input, offers_output }
}

fn device(index: i32, name: &str) -> AudioDevice {
    AudioDevice { index, name: name.to_string() }
}

#[test]
fn parses_ffmpeg_device_line() {
    let line = r#"[dshow @ 000001]  "ShadowCast 3" (video)"#;
    assert_eq!(parse_video_device_line(line).as_deref(), Some("ShadowCast 3"));
}

#[test]
fn lines_without_a_video_device_are_left_out() {
    assert_eq!(parse_video_device_line(r#"[dshow @ 0] "Mic" (audio)"#), None);
    assert_eq!(parse_video_device_line("(video)"), None);
    assert_eq!(parse_video_device_line(r#"only one " (video)"#), None);
    assert_eq!(parse_video_device_line(r#""" (video)"#).as_deref(), Some(""));
    assert_eq!(
        parse_video_device_line(r#""a" "b" (video) "c" (video)"#).as_deref(),
        Some("b")
    );
}

#[test]
fn video_devices_come_in_the_order_of_the_listing() {
    let listing = "[x]  \"ShadowCast 3\" (video)\r\n[x]   Alternative name \"@device\"\n[x]  \"Mic\" (audio)\n[x]  \"OBS Virtual Camera\" (video)";
    assert_eq!(video_devices_in(listing), vec!["ShadowCast 3", "OBS Virtual Camera"]);
    assert!(video_devices_in("").is_empty());
}

#[test]
fn video_devices_are_read_from_bytes() {
    let listing = "\"Kamera \u{e4}\" (video)\n".as_bytes();
    assert_eq!(enumerate_video_devices(Some(listing)), vec!["Kamera \u{e4}"]);
    let broken: &[u8] = b"\"a\xffb\" (video)\n";
    assert_eq!(enumerate_video_devices(Some(broken)), vec!["a\u{fffd}b"]);
    assert!(enumerate_video_devices(None).is_empty());
}

#[test]
fn auto_detect_matches_keyword_overlap() {
    let inputs = vec![
        AudioDevice {
            index: 2,
            name: "Microphone (USB Audio Device)".to_string(),
        },
        AudioDevice {
            index: 7,
            name: "ShadowCast Capture Audio".to_string(),
        },
    ];

    assert_eq!(find_audio_input_for_video("ShadowCast Capture", &inputs), Some(7));
}

#[test]
fn auto_detect_needs_two_keywords() {
    let inputs = vec![device(0, "Capture Thing"), device(1, "HD (ShadowCast 3)")];
    assert_eq!(find_audio_input_for_video("ShadowCast Capture", &inputs), None);
    assert_eq!(find_audio_input_for_video("ShadowCast 3", &inputs), None);
    assert_eq!(find_audio_input_for_video("HD Capture Thing", &inputs), Some(0));
    let elgato = vec![device(3, "Elgato Audio")];
    assert_eq!(find_audio_input_for_video("Elgato 4K", &elgato), None);
    assert_eq!(find_audio_input_for_video("3", &inputs), None);
    assert_eq!(find_audio_input_for_video("Elgato", &inputs), None);
}

#[test]
fn auto_detect_takes_the_first_of_the_best() {
    let inputs = vec![device(4, "cam link"), device(5, "CAM LINK 4K"), device(6, "Cam Link 4K")];
    assert_eq!(find_audio_input_for_video("Cam-Link", &inputs), Some(4));
}

#[test]
fn keywords_are_lower_case_words_of_three_characters() {
    assert_eq!(
        keywords_for_device_name("The Shadow-Cast 2 PRO and \u{fc}b \u{fc}bc"),
        vec!["shadow", "cast", "\u{fc}bc"]
    );
    assert_eq!(keywords_for_device_name("\u{e9}1 Cam"), vec!["cam"]);
    assert!(keywords_for_device_name("").is_empty());
}

#[test]
fn devices_are_listed_by_direction_under_their_place() {
    let probes = vec![
        probe(Some("Mic"), true, false),
        probe(None, true, true),
        probe(Some("Speakers"), false, true),
        probe(Some("Headset"), true, true),
    ];
    let both = Some(probes.as_slice());
    assert_eq!(enumerate_audio_inputs(both), vec![device(0, "Mic"), device(3, "Headset")]);
    assert_eq!(enumerate_audio_outputs(both), vec![device(2, "Speakers"), device(3, "Headset")]);
    assert_eq!(
        enumerate_audio_devices(both, Direction::Output),
        enumerate_audio_outputs(both)
    );
    assert!(enumerate_audio_inputs(None).is_empty());
    assert!(enumerate_audio_outputs(None).is_empty());
    assert!(device_supports_direction(&probes[0], Direction::Input));
    assert!(!device_supports_direction(&probes[0], Direction::Output));
}

#[test]
fn capture_tool_is_found() {
    let some = |text: &str| Some(text.to_string());
    assert_eq!(ffmpeg_path(some("C:\\ff.exe"), some("D:\\x")), "C:\\ff.exe");
    assert_eq!(ffmpeg_path(some(""), some("D:\\x\\/\\")), "D:\\x\\bin\\ffmpeg.exe");
    assert_eq!(ffmpeg_path(None, some("D:\\x")), "D:\\x\\bin\\ffmpeg.exe");
    assert_eq!(ffmpeg_path(None, some("")), "\\bin\\ffmpeg.exe");
    assert_eq!(ffmpeg_path(some(""), None), "ffmpeg");
    assert_eq!(ffmpeg_path(None, None), "ffmpeg");
}
