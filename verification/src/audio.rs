//! Choosing the devices and the stream format for audio passthrough.
use vstd::prelude::*;

use crate::devices::{
    device_supports_direction, enumerate_audio_inputs, find_audio_input_for_video, AudioDevice,
    DeviceProbe, Direction,
};
use crate::text::signed_decimal;

verus! {

/// Frames per audio buffer.
pub const BUFFER_FRAMES: u32 = 256;

/// Samples that the queue between input and output holds.
pub const RING_BUFFER_CAPACITY: usize = 96_000;

/// Samples that an audio callback converts at a time.
pub const CHUNK_SAMPLES: usize = 2048;

/// How a stream encodes a sample.
#[derive(Debug, Clone, Copy, PartialEq, Eq, Structural)]
pub enum SampleFormat {
    I8,
    U8,
    I16,
    U16,
    F32,
    /// Any other encoding.
    Other,
}

/// The sample types that streams are built for.
#[derive(Debug, Clone, Copy, PartialEq, Eq, Structural)]
pub enum SampleKind {
    I8,
    U8,
    I16,
    U16,
    F32,
}

/// A range of stream configurations that an output offers.
#[derive(Debug, Clone, Copy, PartialEq, Eq, Structural)]
pub struct OutputConfigRange {
    pub channels: u16,
    pub min_sample_rate: u32,
    pub max_sample_rate: u32,
    pub sample_format: SampleFormat,
}

/// The sample type that a stream with encoding `format` is built for; none for an encoding
/// that streams cannot be built for.
pub fn sample_kind(format: SampleFormat) -> (kind: Option<SampleKind>)
    ensures
        kind == match format {
            SampleFormat::I8 => Some(SampleKind::I8),
            SampleFormat::U8 => Some(SampleKind::U8),
            SampleFormat::I16 => Some(SampleKind::I16),
            SampleFormat::U16 => Some(SampleKind::U16),
            SampleFormat::F32 => Some(SampleKind::F32),
            SampleFormat::Other => None,
        },
{
    match format {
        SampleFormat::I8 => Some(SampleKind::I8),
        SampleFormat::U8 => Some(SampleKind::U8),
        SampleFormat::I16 => Some(SampleKind::I16),
        SampleFormat::U16 => Some(SampleKind::U16),
        SampleFormat::F32 => Some(SampleKind::F32),
        SampleFormat::Other => None,
    }
}

/// How many of the samples from `offset` on, of `total`, are converted next.
pub fn chunk_len(total: usize, offset: usize) -> (len: usize)
    requires
        offset <= total,
    ensures
        len == if total - offset < CHUNK_SAMPLES {
            total - offset
        } else {
            CHUNK_SAMPLES as int
        },
        len <= 2048,
        len <= total - offset,
        len == 2048 || len == total - offset,
{
    if total - offset < CHUNK_SAMPLES {
        total - offset
    } else {
        CHUNK_SAMPLES
    }
}

/// The most channels that are passed through from an input with `input_channels`.
pub open spec fn wanted_channels(input_channels: u16) -> u16 {
    if input_channels < 2 {
        input_channels
    } else {
        2
    }
}

/// Some configuration has at least `channels` channels.
pub open spec fn offers_channels(configs: Seq<OutputConfigRange>, channels: u16) -> bool {
    exists|i: int| 0 <= i < configs.len() && (#[trigger] configs[i]).channels >= channels
}

/// Some configuration has at least `channels` channels.
fn has_channels(configs: &[OutputConfigRange], channels: u16) -> (found: bool)
    ensures
        found == offers_channels(configs@, channels),
{
    let mut i: usize = 0;
    while i < configs.len()
        invariant
            i <= configs.len(),
            forall|j: int| 0 <= j < i ==> (#[trigger] configs@[j]).channels < channels,
        decreases configs.len() - i,
    {
        if configs[i].channels >= channels {
            return true;
        }
        i += 1;
    }
    false
}

/// How many channels to pass through: as many as the input has, but no more than two and no
/// more than the output can take.
pub fn choose_channel_count(input_channels: u16, output_configs: &[OutputConfigRange]) -> (channels:
    Option<u16>)
    ensures
        match channels {
            Some(channels) => 1 <= channels <= wanted_channels(input_channels) && offers_channels(
                output_configs@,
                channels,
            ) && forall|more: u16|
                channels < more <= wanted_channels(input_channels) ==> !offers_channels(
                    output_configs@,
                    more,
                ),
            None => forall|some: u16|
                1 <= some <= wanted_channels(input_channels) ==> !offers_channels(
                    output_configs@,
                    some,
                ),
        },
        match channels {
            Some(channels) => {
                &&& 1 <= channels <= 2
                &&& channels <= input_channels
                &&& exists|i: int|
                    0 <= i < output_configs@.len() && (#[trigger] output_configs@[i]).channels
                        >= channels
                &&& channels == 2 || channels == input_channels || forall|i: int|
                    0 <= i < output_configs@.len() ==> (#[trigger] output_configs@[i]).channels
                        <= channels
            },
            None => input_channels == 0 || forall|i: int|
                0 <= i < output_configs@.len() ==> (#[trigger] output_configs@[i]).channels == 0,
        },
{
    let wanted: u16 = if input_channels < 2 {
        input_channels
    } else {
        2
    };
    let mut channels: u16 = wanted;
    while channels >= 1
        invariant
            channels <= wanted,
            wanted == wanted_channels(input_channels),
            forall|more: u16|
                channels < more <= wanted ==> !offers_channels(output_configs@, more),
        decreases channels,
    {
        if has_channels(output_configs, channels) {
            assert(channels < wanted ==> !offers_channels(output_configs@, 2));
            return Some(channels);
        }
        channels -= 1;
    }
    assert(wanted >= 1 ==> !offers_channels(output_configs@, 1));
    None
}

/// The place of an encoding in the order of preference for the output.
pub open spec fn format_rank(format: SampleFormat) -> u8 {
    match format {
        SampleFormat::F32 => 0,
        SampleFormat::I16 => 1,
        SampleFormat::U16 => 2,
        SampleFormat::I8 => 3,
        SampleFormat::U8 => 4,
        SampleFormat::Other => 10,
    }
}

/// The place of an encoding in the order of preference for the output.
pub fn output_format_rank(sample_format: SampleFormat) -> (rank: u8)
    ensures
        rank == format_rank(sample_format),
        rank == match sample_format {
            SampleFormat::F32 => 0int,
            SampleFormat::I16 => 1int,
            SampleFormat::U16 => 2int,
            SampleFormat::I8 => 3int,
            SampleFormat::U8 => 4int,
            SampleFormat::Other => 10int,
        },
{
    match sample_format {
        SampleFormat::F32 => 0,
        SampleFormat::I16 => 1,
        SampleFormat::U16 => 2,
        SampleFormat::I8 => 3,
        SampleFormat::U8 => 4,
        SampleFormat::Other => 10,
    }
}

/// The configuration takes `channels` channels at `sample_rate`.
pub open spec fn takes(config: OutputConfigRange, sample_rate: u32, channels: u16) -> bool {
    &&& config.channels >= channels
    &&& config.min_sample_rate <= sample_rate <= config.max_sample_rate
}

/// `a` is preferred to `b`: by its encoding, then by having just the right number of channels.
pub open spec fn preferred(a: OutputConfigRange, b: OutputConfigRange, channels: u16) -> bool {
    ||| format_rank(a.sample_format) < format_rank(b.sample_format)
    ||| format_rank(a.sample_format) == format_rank(b.sample_format) && a.channels == channels
        && b.channels != channels
}

/// Configuration `i` is the first of the most preferred ones that take the stream.
pub open spec fn best_config(
    configs: Seq<OutputConfigRange>,
    sample_rate: u32,
    channels: u16,
    i: int,
) -> bool {
    &&& 0 <= i < configs.len()
    &&& takes(configs[i], sample_rate, channels)
    &&& forall|j: int|
        0 <= j < configs.len() && takes(#[trigger] configs[j], sample_rate, channels)
            ==> !preferred(configs[j], configs[i], channels)
    &&& forall|j: int|
        0 <= j < i && takes(#[trigger] configs[j], sample_rate, channels) ==> preferred(
            configs[i],
            configs[j],
            channels,
        )
}

/// No more than one configuration is the one to choose.
pub proof fn law_best_config_is_unique(
    configs: Seq<OutputConfigRange>,
    sample_rate: u32,
    channels: u16,
    i: int,
    j: int,
)
    requires
        best_config(configs, sample_rate, channels, i),
        best_config(configs, sample_rate, channels, j),
    ensures
        i == j,
{
}

/// The output configuration for a stream: among those that take it, the one with the most
/// preferred encoding, then one with just the right number of channels, then the first.
pub fn choose_output_config(
    output_configs: &[OutputConfigRange],
    sample_rate: u32,
    channels: u16,
) -> (chosen: Option<OutputConfigRange>)
    ensures
        match chosen {
            Some(chosen) => exists|i: int|
                #![trigger output_configs@[i]]
                best_config(output_configs@, sample_rate, channels, i) && chosen
                    == output_configs@[i],
            None => forall|i: int|
                0 <= i < output_configs@.len() ==> !takes(
                    #[trigger] output_configs@[i],
                    sample_rate,
                    channels,
                ),
        },
        match chosen {
            Some(chosen) => {
                &&& output_configs@.contains(chosen)
                &&& chosen.channels >= channels
                &&& chosen.min_sample_rate <= sample_rate <= chosen.max_sample_rate
                &&& forall|i: int|
                    0 <= i < output_configs@.len() && (#[trigger] output_configs@[i]).channels
                        >= channels && output_configs@[i].min_sample_rate <= sample_rate
                        <= output_configs@[i].max_sample_rate ==> format_rank(
                        chosen.sample_format,
                    ) <= format_rank(output_configs@[i].sample_format) && (
                    output_configs@[i].sample_format == chosen.sample_format
                        && output_configs@[i].channels == channels ==> chosen.channels == channels)
            },
            None => forall|i: int|
                0 <= i < output_configs@.len() ==> (#[trigger] output_configs@[i]).channels
                    < channels || sample_rate < output_configs@[i].min_sample_rate || sample_rate
                    > output_configs@[i].max_sample_rate,
        },
{
    let mut best: Option<usize> = None;
    let mut i: usize = 0;
    while i < output_configs.len()
        invariant
            i <= output_configs.len(),
            match best {
                Some(b) => b < i && best_config(
                    output_configs@.take(i as int),
                    sample_rate,
                    channels,
                    b as int,
                ),
                None => forall|j: int|
                    0 <= j < i ==> !takes(#[trigger] output_configs@[j], sample_rate, channels),
            },
        decreases output_configs.len() - i,
    {
        let config = output_configs[i];
        let ghost seen = output_configs@.take(i as int);
        let ghost next = output_configs@.take(i + 1);
        assert(forall|j: int| 0 <= j < i ==> #[trigger] next[j] == seen[j]);
        assert(forall|j: int| 0 <= j < i ==> #[trigger] next[j] == output_configs@[j]);
        assert(next[i as int] == config);
        if config.channels >= channels && config.min_sample_rate <= sample_rate
            && config.max_sample_rate >= sample_rate {
            match best {
                Some(b) => {
                    let held = output_configs[b];
                    let rank = output_format_rank(config.sample_format);
                    let held_rank = output_format_rank(held.sample_format);
                    assert(forall|j: int| 0 <= j < i ==> #[trigger] seen[j] == next[j]);
                    if rank < held_rank || (rank == held_rank && config.channels == channels
                        && held.channels != channels) {
                        best = Some(i);
                        assert(best_config(next, sample_rate, channels, i as int));
                    } else {
                        assert(best_config(next, sample_rate, channels, b as int));
                    }
                },
                None => {
                    best = Some(i);
                    assert(best_config(next, sample_rate, channels, i as int));
                },
            }
        } else if let Some(b) = best {
            assert(forall|j: int| 0 <= j < i ==> #[trigger] seen[j] == next[j]);
            assert(best_config(next, sample_rate, channels, b as int));
        }
        i += 1;
    }
    assert(output_configs@.take(i as int) =~= output_configs@);
    match best {
        Some(b) => Some(output_configs[b]),
        None => None,
    }
}

/// How a passthrough stream is set up.
#[derive(Debug, Clone, Copy, PartialEq, Eq, Structural)]
pub struct StreamPlan {
    pub channels: u16,
    pub sample_rate: u32,
    pub buffer_frames: u32,
    pub output: OutputConfigRange,
}

/// Why no stream can be set up between an input and an output.
#[derive(Debug, Clone, Copy, PartialEq, Eq, Structural)]
pub enum StreamRefusal {
    /// The output takes no number of channels that the input has.
    NoCommonChannels,
    /// The output does not take this many channels at the rate of the input.
    RateUnsupported { channels: u16 },
}

/// The stream from an input with `input_channels` at `sample_rate` to an output that offers
/// `output_configs`. The stream runs at the rate of the input.
pub fn plan_stream(
    sample_rate: u32,
    input_channels: u16,
    output_configs: &[OutputConfigRange],
) -> (plan: Result<StreamPlan, StreamRefusal>)
    ensures
        match plan {
            Ok(plan) => {
                &&& 1 <= plan.channels <= wanted_channels(input_channels)
                &&& offers_channels(output_configs@, plan.channels)
                &&& forall|more: u16|
                    plan.channels < more <= wanted_channels(input_channels) ==> !offers_channels(
                        output_configs@,
                        more,
                    )
                &&& plan.sample_rate == sample_rate
                &&& plan.buffer_frames == BUFFER_FRAMES
                &&& exists|i: int|
                    #![trigger output_configs@[i]]
                    best_config(output_configs@, sample_rate, plan.channels, i) && plan.output
                        == output_configs@[i]
            },
            Err(StreamRefusal::NoCommonChannels) => forall|some: u16|
                1 <= some <= wanted_channels(input_channels) ==> !offers_channels(
                    output_configs@,
                    some,
                ),
            Err(StreamRefusal::RateUnsupported { channels }) => {
                &&& 1 <= channels <= wanted_channels(input_channels)
                &&& offers_channels(output_configs@, channels)
                &&& forall|more: u16|
                    channels < more <= wanted_channels(input_channels) ==> !offers_channels(
                        output_configs@,
                        more,
                    )
                &&& forall|i: int|
                    0 <= i < output_configs@.len() ==> !takes(
                        #[trigger] output_configs@[i],
                        sample_rate,
                        channels,
                    )
            },
        },
        plan matches Ok(plan) ==> {
            &&& 1 <= plan.channels <= 2 && plan.channels <= input_channels
            &&& plan.sample_rate == sample_rate
            &&& plan.buffer_frames == 256
            &&& output_configs@.contains(plan.output)
            &&& plan.output.channels >= plan.channels
            &&& plan.output.min_sample_rate <= sample_rate <= plan.output.max_sample_rate
        },
        plan == Err::<StreamPlan, StreamRefusal>(StreamRefusal::NoCommonChannels)
            <==> input_channels == 0 || forall|i: int|
            0 <= i < output_configs@.len() ==> (#[trigger] output_configs@[i]).channels == 0,
        forall|i: int|
            0 <= i < output_configs@.len() && (#[trigger] output_configs@[i]).channels >= 2
                && input_channels >= 2 && output_configs@[i].min_sample_rate <= sample_rate
                <= output_configs@[i].max_sample_rate ==> plan is Ok && plan->Ok_0.channels == 2,
{
    let channels = match choose_channel_count(input_channels, output_configs) {
        Some(channels) => channels,
        None => return Err(StreamRefusal::NoCommonChannels),
    };
    match choose_output_config(output_configs, sample_rate, channels) {
        Some(output) => Ok(
            StreamPlan { channels, sample_rate, buffer_frames: BUFFER_FRAMES, output },
        ),
        None => Err(StreamRefusal::RateUnsupported { channels }),
    }
}

/// Which device of a host is used.
#[derive(Debug, Clone, Copy, PartialEq, Eq, Structural)]
pub enum DeviceChoice {
    /// The device at this place of the host's list.
    Listed(usize),
    /// The host's default device.
    Default,
}

/// The device at `position` is the first one of the list that goes by `index` and offers
/// `direction`.
pub open spec fn goes_by(
    probes: Seq<DeviceProbe>,
    index: i32,
    direction: Direction,
    position: int,
) -> bool {
    &&& 0 <= position < probes.len()
    &&& position as i32 == index
    &&& probes[position].offers(direction)
    &&& forall|j: int|
        0 <= j < position ==> !(j as i32 == index && (#[trigger] probes[j]).offers(direction))
}

/// No device of the list goes by `index` and offers `direction`.
pub open spec fn none_goes_by(
    probes: Seq<DeviceProbe>,
    index: i32,
    direction: Direction,
) -> bool {
    forall|j: int|
        0 <= j < probes.len() ==> !(j as i32 == index && (#[trigger] probes[j]).offers(direction))
}

/// The place of the device that goes by `index` and offers `direction`; none where the host
/// gives no list.
pub fn resolve_device_by_index(
    probes: Option<&[DeviceProbe]>,
    index: i32,
    direction: Direction,
) -> (position: Option<usize>)
    ensures
        match position {
            Some(position) => probes is Some && goes_by(
                probes->0@,
                index,
                direction,
                position as int,
            ),
            None => probes is Some ==> none_goes_by(probes->0@, index, direction),
        },
        position is Some ==> probes is Some && position->0 < probes->0@.len(),
        probes is Some && probes->0@.len() <= i32::MAX + 1 ==> (position is Some <==> 0 <= index
            < probes->0@.len() && (direction == Direction::Input
            ==> probes->0@[index as int].offers_input) && (direction == Direction::Output
            ==> probes->0@[index as int].offers_output)),
        probes is Some && probes->0@.len() <= i32::MAX + 1 && position is Some ==> position->0
            == index,
{
    proof {
        if probes is Some && probes->0@.len() <= i32::MAX + 1 {
            assert forall|p: int| 0 <= p < probes->0@.len() && goes_by(
                probes->0@,
                index,
                direction,
                p,
            ) implies p == index by {
                law_devices_go_by_their_place(probes->0@, index, direction, p);
            }
            law_devices_go_by_their_place(probes->0@, index, direction, index as int);
        }
    }
    let list = match probes {
        Some(list) => list,
        None => return None,
    };
    let mut i: usize = 0;
    while i < list.len()
        invariant
            i <= list.len(),
            probes == Some(list),
            forall|j: int|
                0 <= j < i ==> !(j as i32 == index && (#[trigger] list@[j]).offers(direction)),
        decreases list.len() - i,
    {
        if #[verifier::truncate] (i as i32) == index && device_supports_direction(
            &list[i],
            direction,
        ) {
            assert(goes_by(list@, index, direction, i as int));
            return Some(i);
        }
        i += 1;
    }
    None
}

/// What choosing the device for `index` comes to: the device that goes by it; the default
/// device where no index is given; or why there is none.
pub open spec fn resolves_to(
    probes: Option<&[DeviceProbe]>,
    has_default: bool,
    index: Option<i32>,
    direction: Direction,
    label: Seq<char>,
    choice: Result<DeviceChoice, String>,
) -> bool {
    match index {
        Some(index) => match choice {
            Ok(DeviceChoice::Listed(position)) => probes is Some && goes_by(
                probes->0@,
                index,
                direction,
                position as int,
            ),
            Ok(DeviceChoice::Default) => false,
            Err(message) => (probes is Some ==> none_goes_by(probes->0@, index, direction))
                && message@ == label + " device index "@ + crate::text::signed_digits(
                index as int,
            ) + " was not found"@,
        },
        None => match choice {
            Ok(choice) => has_default && choice == DeviceChoice::Default,
            Err(message) => !has_default && message@ == "no default "@ + label
                + " device found"@,
        },
    }
}

/// Chooses the device for `index`.
fn resolve_device(
    probes: Option<&[DeviceProbe]>,
    has_default: bool,
    index: Option<i32>,
    direction: Direction,
    label: &str,
) -> (choice: Result<DeviceChoice, String>)
    ensures
        resolves_to(probes, has_default, index, direction, label@, choice),
{
    match index {
        Some(index) => match resolve_device_by_index(probes, index, direction) {
            Some(position) => Ok(DeviceChoice::Listed(position)),
            None => {
                let number = signed_decimal(index);
                let mut message = label.to_owned();
                message.append(" device index ");
                message.append(number.as_str());
                message.append(" was not found");
                Err(message)
            },
        },
        None => if has_default {
            Ok(DeviceChoice::Default)
        } else {
            let mut message = "no default ".to_owned();
            message.append(label);
            message.append(" device found");
            Err(message)
        },
    }
}

/// Chooses the device to capture from.
pub fn resolve_input_device(
    probes: Option<&[DeviceProbe]>,
    has_default: bool,
    index: Option<i32>,
) -> (choice: Result<DeviceChoice, String>)
    ensures
        resolves_to(probes, has_default, index, Direction::Input, "input"@, choice),
        index is None ==> (choice is Ok <==> has_default),
        index is None && choice is Ok ==> choice->Ok_0 == DeviceChoice::Default,
        index is None && choice is Err ==> choice->Err_0@ == "no default "@ + "input"@
            + " device found"@,
        index is Some && choice is Ok ==> choice->Ok_0 is Listed,
        index is Some && probes is None ==> choice is Err,
        index is Some && choice is Err ==> choice->Err_0@ == "input"@ + " device index "@
            + crate::text::signed_digits(index->0 as int) + " was not found"@,
{
    resolve_device(probes, has_default, index, Direction::Input, "input")
}

/// Chooses the device to play to.
pub fn resolve_output_device(
    probes: Option<&[DeviceProbe]>,
    has_default: bool,
    index: Option<i32>,
) -> (choice: Result<DeviceChoice, String>)
    ensures
        resolves_to(probes, has_default, index, Direction::Output, "output"@, choice),
        index is None ==> (choice is Ok <==> has_default),
        index is None && choice is Ok ==> choice->Ok_0 == DeviceChoice::Default,
        index is None && choice is Err ==> choice->Err_0@ == "no default "@ + "output"@
            + " device found"@,
        index is Some && choice is Ok ==> choice->Ok_0 is Listed,
        index is Some && probes is None ==> choice is Err,
        index is Some && choice is Err ==> choice->Err_0@ == "output"@ + " device index "@
            + crate::text::signed_digits(index->0 as int) + " was not found"@,
{
    resolve_device(probes, has_default, index, Direction::Output, "output")
}

/// The device that is used: the chosen one, or the default one where the choice failed; none
/// where there is no default either.
pub fn with_fallback(choice: Result<DeviceChoice, String>, has_default: bool) -> (used: Option<
    DeviceChoice,
>)
    ensures
        used == match choice {
            Ok(choice) => Some(choice),
            Err(_) => if has_default {
                Some(DeviceChoice::Default)
            } else {
                None
            },
        },
{
    match choice {
        Ok(choice) => Some(choice),
        Err(_) => if has_default {
            Some(DeviceChoice::Default)
        } else {
            None
        },
    }
}

/// Some input goes by `index`.
pub open spec fn has_index(inputs: Seq<AudioDevice>, index: i32) -> bool {
    exists|i: int| 0 <= i < inputs.len() && (#[trigger] inputs[i]).index == index
}

/// The input to capture from: the saved one where it still exists, else the one that was
/// detected for the video device. A negative saved index asks for detection.
pub fn resolve_input_index(
    input_index: i32,
    inputs: &[AudioDevice],
    detected: Option<i32>,
) -> (index: Option<i32>)
    ensures
        index == if input_index >= 0 && has_index(inputs@, input_index) {
            Some(input_index)
        } else {
            detected
        },
        forall|i: int|
            0 <= i < inputs@.len() && (#[trigger] inputs@[i]).index == input_index && input_index
                >= 0 ==> index == Some(input_index),
        input_index < 0 ==> index == detected,
        (forall|i: int| 0 <= i < inputs@.len() ==> (#[trigger] inputs@[i]).index != input_index)
            ==> index == detected,
{
    if input_index >= 0 {
        let mut i: usize = 0;
        while i < inputs.len()
            invariant
                i <= inputs.len(),
                input_index >= 0,
                forall|j: int| 0 <= j < i ==> (#[trigger] inputs@[j]).index != input_index,
            decreases inputs.len() - i,
        {
            if inputs[i].index == input_index {
                assert(inputs@[i as int].index == input_index);
                return Some(input_index);
            }
            i += 1;
        }
    }
    detected
}

/// The output that a saved index asks for; a negative one asks for the default.
pub open spec fn wanted_output(output_index: i32) -> Option<i32> {
    if output_index >= 0 {
        Some(output_index)
    } else {
        None
    }
}

/// The output to play to: the saved one, or none where the saved index is negative.
pub fn resolve_output_index(output_index: i32) -> (index: Option<i32>)
    ensures
        index == wanted_output(output_index),
        output_index >= 0 ==> index == Some(output_index),
        output_index < 0 ==> index == None::<i32>,
{
    if output_index >= 0 {
        Some(output_index)
    } else {
        None
    }
}

/// The devices that passthrough runs between.
#[derive(Debug, Clone, Copy, PartialEq, Eq, Structural)]
pub struct DevicePlan {
    pub input: DeviceChoice,
    pub output: DeviceChoice,
}

/// `used` is the device that passthrough uses for `index`: the one that goes by it and offers
/// `direction`, else the default one, else none.
pub open spec fn uses(
    probes: Option<&[DeviceProbe]>,
    has_default: bool,
    index: Option<i32>,
    direction: Direction,
    used: Option<DeviceChoice>,
) -> bool {
    let missing = index is None || probes is None || none_goes_by(
        probes->0@,
        index->0,
        direction,
    );
    match used {
        Some(DeviceChoice::Listed(position)) => index is Some && probes is Some && goes_by(
            probes->0@,
            index->0,
            direction,
            position as int,
        ),
        Some(DeviceChoice::Default) => missing && has_default,
        None => missing && !has_default,
    }
}

/// `index` is the input that passthrough asks for: the saved one where it is still listed,
/// else the one detected for the video device.
pub open spec fn asks_for(
    probes: Option<&[DeviceProbe]>,
    video_device_name: Seq<char>,
    input_index: i32,
    index: Option<i32>,
) -> bool {
    exists|inputs: Seq<AudioDevice>, detected: Option<i32>|
        {
            &&& (match probes {
                Some(probes) => crate::devices::lists(
                    inputs,
                    probes@,
                    crate::devices::listed_positions(probes@, Direction::Input),
                ),
                None => inputs.len() == 0,
            })
            &&& #[trigger] crate::devices::detects(video_device_name, inputs, detected)
            &&& index == if input_index >= 0 && has_index(inputs, input_index) {
                Some(input_index)
            } else {
                detected
            }
        }
}

/// The devices for passthrough of the sound that belongs to a video device; none where an
/// input or an output cannot be had.
pub fn plan_devices(
    video_device_name: &str,
    input_index: i32,
    output_index: i32,
    probes: Option<&[DeviceProbe]>,
    has_default_input: bool,
    has_default_output: bool,
) -> (plan: Option<DevicePlan>)
    ensures
        exists|index: Option<i32>, input: Option<DeviceChoice>, output: Option<DeviceChoice>|
            {
                &&& asks_for(probes, video_device_name@, input_index, index)
                &&& #[trigger] uses(probes, has_default_input, index, Direction::Input, input)
                &&& #[trigger] uses(
                    probes,
                    has_default_output,
                    wanted_output(output_index),
                    Direction::Output,
                    output,
                )
                &&& plan == if input is Some && output is Some {
                    Some(DevicePlan { input: input->0, output: output->0 })
                } else {
                    None
                }
            },
        has_default_input && has_default_output ==> plan is Some,
        probes is None ==> (plan is Some <==> has_default_input && has_default_output),
        probes is None && plan is Some ==> plan->0.input == DeviceChoice::Default && plan->0.output
            == DeviceChoice::Default,
        output_index < 0 && plan is Some ==> has_default_output && plan->0.output
            == DeviceChoice::Default,
        probes is Some && probes->0@.len() <= i32::MAX + 1 && plan is Some ==> {
            let list = probes->0@;
            &&& 0 <= output_index < list.len() && list[output_index as int].offers_output
                ==> plan->0.output == DeviceChoice::Listed(output_index as usize)
            &&& !(0 <= output_index < list.len() && list[output_index as int].offers_output)
                ==> plan->0.output == DeviceChoice::Default
            &&& 0 <= input_index < list.len() && list[input_index as int].name is Some
                && list[input_index as int].offers_input ==> plan->0.input == DeviceChoice::Listed(
                input_index as usize,
            )
        },
{
    let inputs = enumerate_audio_inputs(probes);
    let detected = find_audio_input_for_video(video_device_name, inputs.as_slice());
    let index = resolve_input_index(input_index, inputs.as_slice(), detected);
    assert(asks_for(probes, video_device_name@, input_index, index)) by {
        assert(crate::devices::detects(video_device_name@, inputs@, detected));
    }
    let input = with_fallback(
        resolve_input_device(probes, has_default_input, index),
        has_default_input,
    );
    let wanted = resolve_output_index(output_index);
    let output = with_fallback(
        resolve_output_device(probes, has_default_output, wanted),
        has_default_output,
    );
    assert(uses(probes, has_default_input, index, Direction::Input, input));
    assert(uses(probes, has_default_output, wanted, Direction::Output, output));
    proof {
        if let Some(list) = probes {
            if list@.len() <= i32::MAX + 1 {
                law_device_in_use(list, has_default_input, index, Direction::Input, input);
                law_device_in_use(
                    list,
                    has_default_output,
                    wanted,
                    Direction::Output,
                    output,
                );
                law_saved_input_is_asked_for(list, video_device_name@, input_index, index);
            }
        }
    }
    match (input, output) {
        (Some(input), Some(output)) => Some(DevicePlan { input, output }),
        _ => None,
    }
}

/// Every device in the list for a direction is found again by the index it is listed under.
pub proof fn law_listed_devices_resolve(
    probes: Seq<DeviceProbe>,
    direction: Direction,
    devices: Seq<AudioDevice>,
    i: int,
)
    requires
        probes.len() <= i32::MAX + 1,
        crate::devices::lists(
            devices,
            probes,
            crate::devices::listed_positions(probes, direction),
        ),
        0 <= i < devices.len(),
    ensures
        goes_by(probes, devices[i].index, direction, devices[i].index as int),
        probes[devices[i].index as int].name is Some,
        devices[i].name@ == probes[devices[i].index as int].name->0@,
{
    let positions = crate::devices::listed_positions(probes, direction);
    crate::devices::lemma_listed_positions(probes, direction);
    assert(crate::devices::describes(devices[i], probes, positions[i]));
    assert(probes[positions[i]].listed(direction));
}

/// Passthrough takes the channels of the input, but no more than two.
pub proof fn law_no_more_than_two_channels(input_channels: u16)
    ensures
        wanted_channels(input_channels) <= 2,
        wanted_channels(input_channels) <= input_channels,
        wanted_channels(input_channels) == 2 || wanted_channels(input_channels) == input_channels,
{
}

/// One more configuration offers the channels that it has, and takes none away.
pub proof fn law_each_config_offers_its_channels(
    configs: Seq<OutputConfigRange>,
    config: OutputConfigRange,
    channels: u16,
)
    ensures
        !offers_channels(seq![], channels),
        offers_channels(configs.push(config), channels) == (offers_channels(configs, channels)
            || config.channels >= channels),
{
    let more = configs.push(config);
    if offers_channels(configs, channels) {
        let i = choose|i: int| 0 <= i < configs.len() && (#[trigger] configs[i]).channels >= channels;
        assert(more[i].channels >= channels);
    }
    if config.channels >= channels {
        assert(more[configs.len() as int].channels >= channels);
    }
    if offers_channels(more, channels) {
        let i = choose|i: int| 0 <= i < more.len() && (#[trigger] more[i]).channels >= channels;
        if i < configs.len() {
            assert(configs[i].channels >= channels);
        }
    }
}

/// A configuration takes a stream exactly when it has channels enough and the rate lies in its
/// range, the ends included.
pub proof fn law_config_takes_what_is_in_its_range(
    config: OutputConfigRange,
    sample_rate: u32,
    channels: u16,
)
    ensures
        takes(config, sample_rate, channels) == !(config.channels < channels || sample_rate
            < config.min_sample_rate || sample_rate > config.max_sample_rate),
        config.min_sample_rate <= config.max_sample_rate ==> takes(
            config,
            config.min_sample_rate,
            config.channels,
        ) && takes(config, config.max_sample_rate, config.channels),
{
}

/// Encodings are preferred in the order floats, signed and unsigned 16 bits, signed and unsigned
/// 8 bits, and any other last.
pub proof fn law_encodings_are_preferred_in_order()
    ensures
        format_rank(SampleFormat::F32) < format_rank(SampleFormat::I16),
        format_rank(SampleFormat::I16) < format_rank(SampleFormat::U16),
        format_rank(SampleFormat::U16) < format_rank(SampleFormat::I8),
        format_rank(SampleFormat::I8) < format_rank(SampleFormat::U8),
        format_rank(SampleFormat::U8) < format_rank(SampleFormat::Other),
{
}

/// The chosen configuration takes the stream. Every other one that takes it has no better
/// encoding; with the same encoding it has the right number of channels only where the chosen one
/// has; and where both are alike in that, it does not stand before the chosen one.
pub proof fn law_first_of_the_best_configs_is_chosen(
    configs: Seq<OutputConfigRange>,
    sample_rate: u32,
    channels: u16,
    i: int,
    j: int,
)
    requires
        best_config(configs, sample_rate, channels, i),
        0 <= j < configs.len(),
        configs[j].channels >= channels,
        configs[j].min_sample_rate <= sample_rate <= configs[j].max_sample_rate,
    ensures
        0 <= i < configs.len(),
        configs[i].channels >= channels,
        configs[i].min_sample_rate <= sample_rate <= configs[i].max_sample_rate,
        format_rank(configs[i].sample_format) <= format_rank(configs[j].sample_format),
        configs[i].sample_format == configs[j].sample_format && configs[j].channels == channels
            ==> configs[i].channels == channels,
        configs[i].sample_format == configs[j].sample_format && (configs[i].channels == channels)
            == (configs[j].channels == channels) ==> i <= j,
{
}

/// A device goes by its place in the list, and only if it offers the direction.
pub proof fn law_devices_go_by_their_place(
    probes: Seq<DeviceProbe>,
    index: i32,
    direction: Direction,
    position: int,
)
    requires
        probes.len() <= i32::MAX + 1,
    ensures
        goes_by(probes, index, direction, position) == (position == index && 0 <= position
            < probes.len() && (direction == Direction::Input ==> probes[position].offers_input) && (
        direction == Direction::Output ==> probes[position].offers_output)),
        none_goes_by(probes, index, direction) == !(0 <= index < probes.len() && (direction
            == Direction::Input ==> probes[index as int].offers_input) && (direction
            == Direction::Output ==> probes[index as int].offers_output)),
{
    if 0 <= index < probes.len() {
        assert(probes[index as int].offers(direction) == probes[index as int].offers(direction));
    }
}

/// The device in use is the one that the index asks for, where the list has it and it offers the
/// direction; else the default one; and none where there is no default.
pub proof fn law_device_in_use(
    list: &[DeviceProbe],
    has_default: bool,
    index: Option<i32>,
    direction: Direction,
    used: Option<DeviceChoice>,
)
    requires
        list@.len() <= i32::MAX + 1,
        uses(Some(list), has_default, index, direction, used),
    ensures
        ({
            let listed = index is Some && 0 <= index->0 < list@.len() && (direction
                == Direction::Input ==> list@[index->0 as int].offers_input) && (direction
                == Direction::Output ==> list@[index->0 as int].offers_output);
            &&& listed ==> used == Some(DeviceChoice::Listed(index->0 as usize))
            &&& !listed && has_default ==> used == Some(DeviceChoice::Default)
            &&& !listed && !has_default ==> used == None::<DeviceChoice>
        }),
{
    if let Some(DeviceChoice::Listed(position)) = used {
        law_devices_go_by_their_place(list@, index->0, direction, position as int);
    }
    if let Some(i) = index {
        law_devices_go_by_their_place(list@, i, direction, i as int);
    }
}

/// Without a list there is the default device, or none.
pub proof fn law_device_in_use_without_a_list(
    has_default: bool,
    index: Option<i32>,
    direction: Direction,
    used: Option<DeviceChoice>,
)
    requires
        uses(None, has_default, index, direction, used),
    ensures
        has_default ==> used == Some(DeviceChoice::Default),
        !has_default ==> used == None::<DeviceChoice>,
{
}

/// The saved input is asked for as long as it is listed under its index. Otherwise an input is
/// asked for only where it was detected, and then it is a listed one.
pub proof fn law_saved_input_is_asked_for(
    list: &[DeviceProbe],
    video_device_name: Seq<char>,
    input_index: i32,
    index: Option<i32>,
)
    requires
        list@.len() <= i32::MAX + 1,
        asks_for(Some(list), video_device_name, input_index, index),
    ensures
        0 <= input_index < list@.len() && list@[input_index as int].name is Some
            && list@[input_index as int].offers_input ==> index == Some(input_index),
        index is Some ==> 0 <= index->0 < list@.len() && list@[index->0 as int].name is Some
            && list@[index->0 as int].offers_input,
{
    let (inputs, detected) = choose|inputs: Seq<AudioDevice>, detected: Option<i32>|
        {
            &&& crate::devices::lists(
                inputs,
                list@,
                crate::devices::listed_positions(list@, Direction::Input),
            )
            &&& #[trigger] crate::devices::detects(video_device_name, inputs, detected)
            &&& index == if input_index >= 0 && has_index(inputs, input_index) {
                Some(input_index)
            } else {
                detected
            }
        };
    crate::devices::law_list_holds_the_devices_that_offer(list@, Direction::Input, inputs);
    if 0 <= input_index < list@.len() && list@[input_index as int].name is Some
        && list@[input_index as int].offers_input {
        let i = choose|i: int| 0 <= i < inputs.len() && (#[trigger] inputs[i]).index == input_index;
        assert(has_index(inputs, input_index));
    }
    if index is Some && index == detected {
        crate::devices::law_first_of_the_best_is_detected(video_device_name, inputs, index->0);
    }
}

/// A choice of a device succeeds exactly when the device that is asked for is there, and is
/// refused in words that name what was asked for.
pub proof fn law_choice_of_a_device(
    list: &[DeviceProbe],
    has_default: bool,
    index: Option<i32>,
    direction: Direction,
    label: Seq<char>,
    choice: Result<DeviceChoice, String>,
)
    requires
        list@.len() <= i32::MAX + 1,
        resolves_to(Some(list), has_default, index, direction, label, choice),
    ensures
        index is None && has_default ==> choice == Ok::<DeviceChoice, String>(
            DeviceChoice::Default,
        ),
        index is None && !has_default ==> choice is Err && choice->Err_0@ == "no default "@ + label
            + " device found"@,
        index is Some ==> {
            let there = 0 <= index->0 < list@.len() && (direction == Direction::Input
                ==> list@[index->0 as int].offers_input) && (direction == Direction::Output
                ==> list@[index->0 as int].offers_output);
            &&& there ==> choice == Ok::<DeviceChoice, String>(
                DeviceChoice::Listed(index->0 as usize),
            )
            &&& !there ==> choice is Err && choice->Err_0@ == label + " device index "@
                + crate::text::signed_digits(index->0 as int) + " was not found"@
        },
{
    if let Some(i) = index {
        law_devices_go_by_their_place(list@, i, direction, i as int);
        if let Ok(DeviceChoice::Listed(position)) = choice {
            law_devices_go_by_their_place(list@, i, direction, position as int);
        }
    }
}

/// A buffer is 256 frames long, sound is converted 2048 samples at a time, and the queue holds a
/// second of two channels at 48 kHz.
pub proof fn law_sizes_of_the_buffers()
    ensures
        BUFFER_FRAMES == 256,
        CHUNK_SAMPLES == 2048,
        RING_BUFFER_CAPACITY == 2 * 48_000,
{
}

/// Two names that read the same hold the same keywords.
proof fn lemma_score_goes_by_the_name(words: Seq<Seq<char>>, a: AudioDevice, b: AudioDevice)
    requires
        a.name@ == b.name@,
    ensures
        crate::devices::match_score(words, a) == crate::devices::match_score(words, b),
{
    let held = |word: Seq<char>|
        crate::text::occurs_in(crate::text::lower(a.name@), word);
    let also = |word: Seq<char>|
        crate::text::occurs_in(crate::text::lower(b.name@), word);
    assert(held =~= also);
}

/// Where no saved input is listed, an input is asked for as soon as the name of a listed one holds
/// two keywords of the video device.
pub proof fn law_detected_input_is_asked_for(
    list: &[DeviceProbe],
    video_device_name: Seq<char>,
    input_index: i32,
    index: Option<i32>,
    p: int,
)
    requires
        list@.len() <= i32::MAX + 1,
        asks_for(Some(list), video_device_name, input_index, index),
        0 <= p < list@.len(),
        list@[p].name is Some,
        list@[p].offers_input,
        crate::devices::match_score(
            crate::devices::keywords(video_device_name),
            AudioDevice { index: p as i32, name: list@[p].name->0 },
        ) >= 2,
    ensures
        index is Some,
{
    let (inputs, detected) = choose|inputs: Seq<AudioDevice>, detected: Option<i32>|
        {
            &&& crate::devices::lists(
                inputs,
                list@,
                crate::devices::listed_positions(list@, Direction::Input),
            )
            &&& #[trigger] crate::devices::detects(video_device_name, inputs, detected)
            &&& index == if input_index >= 0 && has_index(inputs, input_index) {
                Some(input_index)
            } else {
                detected
            }
        };
    crate::devices::law_list_holds_the_devices_that_offer(list@, Direction::Input, inputs);
    let i = choose|i: int| 0 <= i < inputs.len() && (#[trigger] inputs[i]).index == p;
    lemma_score_goes_by_the_name(
        crate::devices::keywords(video_device_name),
        inputs[i],
        AudioDevice { index: p as i32, name: list@[p].name->0 },
    );
}

}
