use tacklecast::audio::{
    choose_channel_count, choose_output_config, chunk_len, output_format_rank, plan_devices,
    plan_stream, resolve_device_by_index, resolve_input_device, resolve_input_index,
    resolve_output_device, resolve_output_index, sample_kind, with_fallback, DeviceChoice,
    DevicePlan, OutputConfigRange, SampleFormat, SampleKind, StreamRefusal, BUFFER_FRAMES,
    CHUNK_SAMPLES,
};
use tacklecast::devices::{enumerate_audio_inputs, AudioDevice, DeviceProbe, Direction};

fn config(channels: u16, low: u32, high: u32, sample_format: SampleFormat) -> OutputConfigRange {
    OutputConfigRange { channels, min_sample_rate: low, max_sample_rate: high, sample_format }
}

fn probe(name: &str, offers_input: bool, offers_output: bool) -> DeviceProbe {
    DeviceProbe { name: Some(name.to_string()), offers_input, offers_output }
}

#[test]
fn channels_are_limited_to_two() {
    let stereo = [config(2, 1, 96_000, SampleFormat::F32)];
    let mono = [config(1, 1, 96_000, SampleFormat::F32)];
    assert_eq!(choose_channel_count(6, &stereo), Some(2));
    assert_eq!(choose_channel_count(1, &stereo), Some(1));
    assert_eq!(choose_channel_count(2, &mono), Some(1));
    assert_eq!(choose_channel_count(0, &stereo), None);
    assert_eq!(choose_channel_count(2, &[]), None);
}

#[test]
fn output_config_prefers_the_encoding_then_the_channels() {
    let offered = [
        config(2, 44_100, 48_000, SampleFormat::I16),
        config(8, 44_100, 48_000, SampleFormat::F32),
        config(2, 44_100, 48_000, SampleFormat::F32),
        config(2, 48_000, 48_000, SampleFormat::F32),
        config(2, 96_000, 96_000, SampleFormat::F32),
    ];
    assert_eq!(choose_output_config(&offered, 48_000, 2), Some(offered[2]));
    assert_eq!(choose_output_config(&offered[..2], 48_000, 2), Some(offered[1]));
    assert_eq!(choose_output_config(&offered, 96_000, 2), Some(offered[4]));
    assert_eq!(choose_output_config(&offered, 8_000, 2), None);
    assert_eq!(choose_output_config(&offered, 48_000, 9), None);
}

#[test]
fn encodings_are_ranked() {
    let ranks: Vec<u8> = [
        SampleFormat::F32,
        SampleFormat::I16,
        SampleFormat::U16,
        SampleFormat::I8,
        SampleFormat::U8,
        SampleFormat::Other,
    ]
    .iter()
    .map(|format| output_format_rank(*format))
    .collect();
    assert_eq!(ranks, vec![0, 1, 2, 3, 4, 10]);
    assert_eq!(sample_kind(SampleFormat::F32), Some(SampleKind::F32));
    assert_eq!(sample_kind(SampleFormat::I8), Some(SampleKind::I8));
    assert_eq!(sample_kind(SampleFormat::Other), None);
}

#[test]
fn stream_runs_at_the_rate_of_the_input() {
    let offered = [config(2, 44_100, 48_000, SampleFormat::I16)];
    let plan = plan_stream(44_100, 2, &offered).unwrap();
    assert_eq!(plan.channels, 2);
    assert_eq!(plan.sample_rate, 44_100);
    assert_eq!(plan.buffer_frames, BUFFER_FRAMES);
    assert_eq!(plan.buffer_frames, 256);
    assert_eq!(plan.output, offered[0]);
    assert_eq!(
        plan_stream(96_000, 2, &offered),
        Err(StreamRefusal::RateUnsupported { channels: 2 })
    );
    assert_eq!(plan_stream(44_100, 0, &offered), Err(StreamRefusal::NoCommonChannels));
}

#[test]
fn samples_are_converted_in_chunks() {
    assert_eq!(chunk_len(5000, 0), CHUNK_SAMPLES);
    assert_eq!(chunk_len(5000, 4096), 904);
    assert_eq!(chunk_len(5000, 5000), 0);
    assert_eq!(CHUNK_SAMPLES, 2048);
}

#[test]
fn devices_are_resolved_by_index() {
    let probes = [probe("Mic", true, false), probe("Speakers", false, true)];
    let list = Some(&probes[..]);
    assert_eq!(resolve_device_by_index(list, 1, Direction::Output), Some(1));
    assert_eq!(resolve_device_by_index(list, 1, Direction::Input), None);
    assert_eq!(resolve_device_by_index(list, -1, Direction::Input), None);
    assert_eq!(resolve_device_by_index(None, 0, Direction::Input), None);
    assert_eq!(resolve_input_device(list, false, Some(0)), Ok(DeviceChoice::Listed(0)));
    assert_eq!(
        resolve_input_device(list, true, Some(7)),
        Err("input device index 7 was not found".to_string())
    );
    assert_eq!(
        resolve_output_device(list, true, Some(-2_147_483_648)),
        Err("output device index -2147483648 was not found".to_string())
    );
    assert_eq!(resolve_output_device(list, true, None), Ok(DeviceChoice::Default));
    assert_eq!(
        resolve_input_device(list, false, None),
        Err("no default input device found".to_string())
    );
    assert_eq!(
        resolve_output_device(None, false, None),
        Err("no default output device found".to_string())
    );
}

#[test]
fn listed_devices_resolve_to_themselves() {
    let probes = [
        probe("Speakers", false, true),
        probe("Mic", true, false),
        probe("Line", true, false),
    ];
    for input in enumerate_audio_inputs(Some(&probes)) {
        let position = resolve_device_by_index(Some(&probes), input.index, Direction::Input).unwrap();
        assert_eq!(probes[position].name, Some(input.name));
    }
}

#[test]
fn missing_devices_fall_back_to_the_default() {
    assert_eq!(
        with_fallback(Ok(DeviceChoice::Listed(3)), false),
        Some(DeviceChoice::Listed(3))
    );
    assert_eq!(with_fallback(Err("gone".to_string()), true), Some(DeviceChoice::Default));
    assert_eq!(with_fallback(Err("gone".to_string()), false), None);
}

#[test]
fn saved_input_wins_while_it_exists() {
    let inputs = [AudioDevice { index: 4, name: "Mic".to_string() }];
    assert_eq!(resolve_input_index(4, &inputs, Some(9)), Some(4));
    assert_eq!(resolve_input_index(5, &inputs, Some(9)), Some(9));
    assert_eq!(resolve_input_index(5, &inputs, None), None);
    assert_eq!(resolve_input_index(-1, &inputs, Some(9)), Some(9));
    assert_eq!(resolve_output_index(3), Some(3));
    assert_eq!(resolve_output_index(-1), None);
}

#[test]
fn passthrough_runs_from_the_detected_input() {
    let probes = [
        probe("Speakers", false, true),
        probe("ShadowCast Capture Audio", true, false),
        probe("Mic", true, false),
    ];
    let list = Some(&probes[..]);
    assert_eq!(
        plan_devices("ShadowCast Capture", -1, 0, list, true, true),
        Some(DevicePlan { input: DeviceChoice::Listed(1), output: DeviceChoice::Listed(0) })
    );
    assert_eq!(
        plan_devices("ShadowCast Capture", 2, -1, list, true, true),
        Some(DevicePlan { input: DeviceChoice::Listed(2), output: DeviceChoice::Default })
    );
    assert_eq!(
        plan_devices("Other", 17, 17, list, true, true),
        Some(DevicePlan { input: DeviceChoice::Default, output: DeviceChoice::Default })
    );
    assert_eq!(plan_devices("Other", -1, 0, list, false, true), None);
    assert_eq!(plan_devices("ShadowCast Capture", -1, 17, list, true, false), None);
    assert_eq!(plan_devices("ShadowCast Capture", -1, -1, None, false, true), None);
}
