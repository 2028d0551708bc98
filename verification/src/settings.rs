//! The user's settings and the capture they stand for.
use vstd::prelude::*;

use crate::text::same;

verus! {

/// The user's settings. The volume is given by the bit pattern of a 64-bit float.
#[derive(Debug, Clone)]
pub struct Settings {
    pub video_device: String,
    pub audio_input: i32,
    pub audio_output: i32,
    pub resolution: String,
    pub fps_mode: String,
    pub custom_fps: u32,
    pub volume_bits: u64,
    pub show_overlay: bool,
}

impl Default for Settings {
    /// No device is chosen, and the volume is full.
    fn default() -> (settings: Settings)
        ensures
            settings.video_device@ == ""@,
            settings.audio_input == -1,
            settings.audio_output == -1,
            settings.resolution@ == "1080p"@,
            settings.fps_mode@ == "60"@,
            settings.custom_fps == 120,
            settings.volume_bits == 0x3ff0_0000_0000_0000,
            settings.show_overlay,
    {
        Settings {
            video_device: "".to_owned(),
            audio_input: -1,
            audio_output: -1,
            resolution: "1080p".to_owned(),
            fps_mode: "60".to_owned(),
            custom_fps: 120,
            volume_bits: 0x3ff0_0000_0000_0000,
            show_overlay: true,
        }
    }
}

/// What to ask a capture device for.
#[derive(Debug, Clone, Copy)]
pub struct CaptureSettings {
    pub width: u32,
    pub height: u32,
    pub fps: u32,
    pub pixel_format: &'static str,
    pub decode_threads: usize,
}

/// The size of a resolution by its name.
pub open spec fn size_of(resolution: Seq<char>) -> Option<(u32, u32)> {
    if resolution == "720p"@ {
        Some((1280, 720))
    } else if resolution == "1080p"@ {
        Some((1920, 1080))
    } else if resolution == "1440p"@ {
        Some((2560, 1440))
    } else if resolution == "4K"@ {
        Some((3840, 2160))
    } else {
        None
    }
}

/// The size of a resolution by its name.
fn resolution_size(resolution: &str) -> (size: Option<(u32, u32)>)
    ensures
        size == size_of(resolution@),
{
    if same(resolution, "720p") {
        Some((1280, 720))
    } else if same(resolution, "1080p") {
        Some((1920, 1080))
    } else if same(resolution, "1440p") {
        Some((2560, 1440))
    } else if same(resolution, "4K") {
        Some((3840, 2160))
    } else {
        None
    }
}

/// `config` asks for frames of `size` at the rate `fps`: raw ones up to sixty frames a second,
/// compressed ones and more threads to decode them above.
pub open spec fn asks_for(config: CaptureSettings, size: (u32, u32), fps: u32) -> bool {
    &&& config.width == size.0
    &&& config.height == size.1
    &&& config.fps == fps
    &&& config.pixel_format@ == if fps <= 60 {
        "nv12"@
    } else {
        "mjpeg"@
    }
    &&& config.decode_threads == if fps <= 60 {
        1usize
    } else {
        4usize
    }
}

/// What to ask a capture device for, for frames of `size` at the rate `fps`.
fn config_for(size: (u32, u32), fps: u32) -> (config: CaptureSettings)
    ensures
        asks_for(config, size, fps),
{
    let (pixel_format, decode_threads): (&'static str, usize) = if fps <= 60 {
        ("nv12", 1)
    } else {
        ("mjpeg", 4)
    };
    CaptureSettings { width: size.0, height: size.1, fps, pixel_format, decode_threads }
}

/// What to ask a capture device for; nothing for a resolution that is not known.
pub fn get_capture_config(resolution: &str, fps: u32) -> (config: Option<CaptureSettings>)
    ensures
        match size_of(resolution@) {
            Some(size) => config is Some && asks_for(config->0, size, fps),
            None => config is None,
        },
        resolution@ == "720p"@ ==> config is Some && config->0.width == 1280 && config->0.height
            == 720,
        resolution@ == "1080p"@ ==> config is Some && config->0.width == 1920 && config->0.height
            == 1080,
        resolution@ == "1440p"@ ==> config is Some && config->0.width == 2560 && config->0.height
            == 1440,
        resolution@ == "4K"@ ==> config is Some && config->0.width == 3840 && config->0.height
            == 2160,
        resolution@ != "720p"@ && resolution@ != "1080p"@ && resolution@ != "1440p"@ && resolution@
            != "4K"@ ==> config is None,
        config is Some ==> config->0.fps == fps,
        config is Some && fps <= 60 ==> config->0.pixel_format@ == "nv12"@
            && config->0.decode_threads == 1,
        config is Some && fps > 60 ==> config->0.pixel_format@ == "mjpeg"@
            && config->0.decode_threads == 4,
{
    proof {
        reveal_names();
    }
    match resolution_size(resolution) {
        Some(size) => Some(config_for(size, fps)),
        None => None,
    }
}

impl Settings {
    /// The frame rate that the settings ask for: that of the mode, or the custom one; nothing
    /// for a mode that is not known.
    pub open spec fn rate(&self) -> Option<u32> {
        if self.fps_mode@ == "30"@ {
            Some(30u32)
        } else if self.fps_mode@ == "60"@ {
            Some(60u32)
        } else if self.fps_mode@ == "120"@ {
            Some(120u32)
        } else if self.fps_mode@ == "custom"@ {
            Some(self.custom_fps)
        } else {
            None
        }
    }

    /// The size that is captured: that of the resolution, or the default one where the
    /// resolution is not known.
    pub open spec fn captured_size(&self) -> (u32, u32) {
        match size_of(self.resolution@) {
            Some(size) => size,
            None => (1920, 1080),
        }
    }

    /// The frame rate that is captured at: the one asked for, or the default one where the mode
    /// is not known.
    pub open spec fn captured_rate(&self) -> u32 {
        match self.rate() {
            Some(fps) => fps,
            None => 60,
        }
    }

    /// The frame rate that the settings ask for.
    pub fn get_fps(&self) -> (fps: Option<u32>)
        ensures
            fps == self.rate(),
            self.fps_mode@ == "30"@ ==> fps == Some(30u32),
            self.fps_mode@ == "60"@ ==> fps == Some(60u32),
            self.fps_mode@ == "120"@ ==> fps == Some(120u32),
            self.fps_mode@ == "custom"@ ==> fps == Some(self.custom_fps),
            self.fps_mode@ != "30"@ && self.fps_mode@ != "60"@ && self.fps_mode@ != "120"@
                && self.fps_mode@ != "custom"@ ==> fps == None::<u32>,
    {
        proof {
            reveal_names();
        }
        let mode = self.fps_mode.as_str();
        if same(mode, "30") {
            Some(30)
        } else if same(mode, "60") {
            Some(60)
        } else if same(mode, "120") {
            Some(120)
        } else if same(mode, "custom") {
            Some(self.custom_fps)
        } else {
            None
        }
    }

    /// What the settings ask a capture device for. A resolution or a frame rate that is not known
    /// is replaced by the default one.
    pub fn capture_settings(&self) -> (config: CaptureSettings)
        ensures
            asks_for(config, self.captured_size(), self.captured_rate()),
            config.fps <= 60 ==> config.pixel_format@ == "nv12"@ && config.decode_threads == 1,
            config.fps > 60 ==> config.pixel_format@ == "mjpeg"@ && config.decode_threads == 4,
            (config.width, config.height) == (if self.resolution@ == "720p"@ {
                (1280u32, 720u32)
            } else if self.resolution@ == "1440p"@ {
                (2560u32, 1440u32)
            } else if self.resolution@ == "4K"@ {
                (3840u32, 2160u32)
            } else {
                (1920u32, 1080u32)
            }),
            config.fps == (if self.fps_mode@ == "30"@ {
                30
            } else if self.fps_mode@ == "120"@ {
                120
            } else if self.fps_mode@ == "custom"@ {
                self.custom_fps
            } else {
                60
            }),
    {
        proof {
            reveal_names();
        }
        let size = match resolution_size(self.resolution.as_str()) {
            Some(size) => size,
            None => (1920, 1080),
        };
        let fps = match self.get_fps() {
            Some(fps) => fps,
            None => 60,
        };
        config_for(size, fps)
    }

    /// Takes on the size and the frame rate that a device agreed to. A size that no resolution
    /// stands for leaves the resolution as it is.
    pub fn apply_negotiated(&mut self, width: u32, height: u32, fps: u32)
        ensures
            agrees_to(*old(self), *final(self), width, height, fps),
            final(self).resolution@ == (if width == 1280 && height == 720 {
                "720p"@
            } else if width == 1920 && height == 1080 {
                "1080p"@
            } else if width == 2560 && height == 1440 {
                "1440p"@
            } else if width == 3840 && height == 2160 {
                "4K"@
            } else {
                old(self).resolution@
            }),
            final(self).fps_mode@ == (if fps == 30 {
                "30"@
            } else if fps == 60 {
                "60"@
            } else if fps == 120 {
                "120"@
            } else {
                "custom"@
            }),
            final(self).custom_fps == (if fps == 30 || fps == 60 || fps == 120 {
                old(self).custom_fps
            } else {
                fps
            }),
            final(self).video_device == old(self).video_device,
            final(self).audio_input == old(self).audio_input,
            final(self).audio_output == old(self).audio_output,
            final(self).volume_bits == old(self).volume_bits,
            final(self).show_overlay == old(self).show_overlay,
    {
        proof {
            reveal_names();
        }
        if let Some(name) = resolution_name(width, height) {
            self.resolution = name.to_owned();
        }
        if fps == 30 {
            self.fps_mode = "30".to_owned();
        } else if fps == 60 {
            self.fps_mode = "60".to_owned();
        } else if fps == 120 {
            self.fps_mode = "120".to_owned();
        } else {
            self.fps_mode = "custom".to_owned();
            self.custom_fps = fps;
        }
    }
}

/// Some resolution stands for this size.
pub open spec fn is_known_size(width: u32, height: u32) -> bool {
    crate::modes::known_sizes().contains((width, height))
}

/// `after` is `before` with the size and the frame rate that a device agreed to.
pub open spec fn agrees_to(
    before: Settings,
    after: Settings,
    width: u32,
    height: u32,
    fps: u32,
) -> bool {
    &&& is_known_size(width, height) ==> size_of(after.resolution@) == Some((width, height))
    &&& !is_known_size(width, height) ==> after.resolution == before.resolution
    &&& after.rate() == Some(fps)
    &&& after.fps_mode@ == if fps == 30 {
        "30"@
    } else if fps == 60 {
        "60"@
    } else if fps == 120 {
        "120"@
    } else {
        "custom"@
    }
    &&& crate::modes::known_rates().contains(fps) ==> after.custom_fps == before.custom_fps
    &&& !crate::modes::known_rates().contains(fps) ==> after.custom_fps == fps
    &&& after.video_device == before.video_device
    &&& after.audio_input == before.audio_input
    &&& after.audio_output == before.audio_output
    &&& after.volume_bits == before.volume_bits
    &&& after.show_overlay == before.show_overlay
}

/// The names of the resolutions and of the frame rate modes differ.
proof fn reveal_names()
    ensures
        size_of("720p"@) == Some((1280u32, 720u32)),
        size_of("1080p"@) == Some((1920u32, 1080u32)),
        size_of("1440p"@) == Some((2560u32, 1440u32)),
        size_of("4K"@) == Some((3840u32, 2160u32)),
        "60"@ != "30"@,
        "120"@ != "30"@,
        "120"@ != "60"@,
        "custom"@ != "30"@,
        "custom"@ != "60"@,
        "custom"@ != "120"@,
        crate::modes::known_rates().contains(30),
        crate::modes::known_rates().contains(60),
        crate::modes::known_rates().contains(120),
{
    reveal_strlit("720p");
    reveal_strlit("1080p");
    reveal_strlit("1440p");
    reveal_strlit("4K");
    reveal_strlit("30");
    reveal_strlit("60");
    reveal_strlit("120");
    reveal_strlit("custom");
    assert("1080p"@[1] != "1440p"@[1]);
    assert("4K"@.len() == 2 && "720p"@.len() == 4 && "1080p"@.len() == 5 && "1440p"@.len() == 5);
    assert("custom"@.len() == 6 && "120"@.len() == 3 && "60"@.len() == 2 && "30"@.len() == 2);
    assert("30"@[0] != "60"@[0]);
    assert(crate::modes::known_rates()[0] == 120);
    assert(crate::modes::known_rates()[1] == 60);
    assert(crate::modes::known_rates()[2] == 30);
}

/// The resolution that stands for a size.
fn resolution_name(width: u32, height: u32) -> (name: Option<&'static str>)
    ensures
        match name {
            Some(name) => is_known_size(width, height) && size_of(name@) == Some((width, height)),
            None => !is_known_size(width, height),
        },
        width == 1280 && height == 720 ==> name is Some && name->0@ == "720p"@,
        width == 1920 && height == 1080 ==> name is Some && name->0@ == "1080p"@,
        width == 2560 && height == 1440 ==> name is Some && name->0@ == "1440p"@,
        width == 3840 && height == 2160 ==> name is Some && name->0@ == "4K"@,
        name is Some ==> (width, height) == (1280u32, 720u32) || (width, height) == (
        1920u32,
        1080u32,
        ) || (width, height) == (2560u32, 1440u32) || (width, height) == (3840u32, 2160u32),
{
    proof {
        reveal_names();
        assert(crate::modes::known_sizes()[0] == (3840u32, 2160u32));
        assert(crate::modes::known_sizes()[1] == (2560u32, 1440u32));
        assert(crate::modes::known_sizes()[2] == (1920u32, 1080u32));
        assert(crate::modes::known_sizes()[3] == (1280u32, 720u32));
    }
    if width == 1280 && height == 720 {
        Some("720p")
    } else if width == 1920 && height == 1080 {
        Some("1080p")
    } else if width == 2560 && height == 1440 {
        Some("1440p")
    } else if width == 3840 && height == 2160 {
        Some("4K")
    } else {
        None
    }
}

/// Every mode that a capture falls back to is one that the settings take on: what they ask for
/// afterwards is that mode.
pub proof fn law_negotiated_modes_are_taken_on(
    before: Settings,
    after: Settings,
    mode: crate::modes::CaptureMode,
    i: int,
)
    requires
        ({
            let requested = crate::modes::CaptureMode {
                width: before.captured_size().0,
                height: before.captured_size().1,
                fps: before.captured_rate(),
            };
            &&& 0 <= i < crate::modes::modes(requested).len()
            &&& mode == crate::modes::modes(requested)[i]
        }),
        agrees_to(before, after, mode.width, mode.height, mode.fps),
    ensures
        after.captured_size() == (mode.width, mode.height),
        after.captured_rate() == mode.fps,
{
    reveal_names();
    crate::modes::lemma_sizes_are_known(before.captured_size(), before.captured_rate(), i);
    let known = crate::modes::known_sizes();
    assert(known[0] == (3840u32, 2160u32) && known[1] == (2560u32, 1440u32));
    assert(known[2] == (1920u32, 1080u32) && known[3] == (1280u32, 720u32));
}

/// The settings differ in what is captured.
pub open spec fn video_differs(a: Settings, b: Settings) -> bool {
    ||| a.video_device@ != b.video_device@
    ||| a.resolution@ != b.resolution@
    ||| a.fps_mode@ != b.fps_mode@
    ||| a.custom_fps != b.custom_fps
}

/// The settings differ in which devices sound runs between.
pub open spec fn audio_differs(a: Settings, b: Settings) -> bool {
    ||| a.video_device@ != b.video_device@
    ||| a.audio_input != b.audio_input
    ||| a.audio_output != b.audio_output
}

/// The settings differ in what is captured.
pub fn video_changed(a: &Settings, b: &Settings) -> (changed: bool)
    ensures
        changed == video_differs(*a, *b),
        changed == !(a.video_device@ == b.video_device@ && a.resolution@ == b.resolution@
            && a.fps_mode@ == b.fps_mode@ && a.custom_fps == b.custom_fps),
{
    !same(a.video_device.as_str(), b.video_device.as_str()) || !same(
        a.resolution.as_str(),
        b.resolution.as_str(),
    ) || !same(a.fps_mode.as_str(), b.fps_mode.as_str()) || a.custom_fps != b.custom_fps
}

/// The settings differ in which devices sound runs between.
pub fn audio_changed(a: &Settings, b: &Settings) -> (changed: bool)
    ensures
        changed == audio_differs(*a, *b),
        changed == !(a.video_device@ == b.video_device@ && a.audio_input == b.audio_input
            && a.audio_output == b.audio_output),
{
    !same(a.video_device.as_str(), b.video_device.as_str()) || a.audio_input != b.audio_input
        || a.audio_output != b.audio_output
}

/// Each resolution stands for its size; a name that is none of them for the default one.
pub proof fn law_resolutions_stand_for_their_sizes(settings: Settings)
    ensures
        settings.resolution@ == "720p"@ ==> settings.captured_size() == (1280u32, 720u32),
        settings.resolution@ == "1080p"@ ==> settings.captured_size() == (1920u32, 1080u32),
        settings.resolution@ == "1440p"@ ==> settings.captured_size() == (2560u32, 1440u32),
        settings.resolution@ == "4K"@ ==> settings.captured_size() == (3840u32, 2160u32),
        settings.resolution@ != "720p"@ && settings.resolution@ != "1440p"@ && settings.resolution@
            != "4K"@ ==> settings.captured_size() == (1920u32, 1080u32),
{
    reveal_names();
}

/// Each mode stands for its frame rate, the custom one for the custom rate; a name that is none of
/// them for the default rate.
pub proof fn law_modes_stand_for_their_frame_rates(settings: Settings)
    ensures
        settings.fps_mode@ == "30"@ ==> settings.captured_rate() == 30,
        settings.fps_mode@ == "60"@ ==> settings.captured_rate() == 60,
        settings.fps_mode@ == "120"@ ==> settings.captured_rate() == 120,
        settings.fps_mode@ == "custom"@ ==> settings.captured_rate() == settings.custom_fps,
        settings.fps_mode@ != "30"@ && settings.fps_mode@ != "120"@ && settings.fps_mode@
            != "custom"@ ==> settings.captured_rate() == 60,
{
    reveal_names();
}

/// Frames come raw up to sixty a second, and compressed above.
pub proof fn law_fast_capture_is_compressed(config: CaptureSettings, size: (u32, u32), fps: u32)
    requires
        asks_for(config, size, fps),
    ensures
        (config.width, config.height) == size,
        config.fps == fps,
        fps <= 60 ==> config.pixel_format@ == "nv12"@ && config.decode_threads == 1,
        fps > 60 ==> config.pixel_format@ == "mjpeg"@ && config.decode_threads == 4,
{
}

/// Settings that have agreed to one of the known sizes ask for it and for the frame rate agreed
/// to; nothing else of them changes.
pub proof fn law_agreed_settings(
    before: Settings,
    after: Settings,
    width: u32,
    height: u32,
    fps: u32,
)
    requires
        agrees_to(before, after, width, height, fps),
    ensures
        after.captured_rate() == fps,
        (width, height) == (1280u32, 720u32) || (width, height) == (1920u32, 1080u32) || (
            width,
            height,
        ) == (2560u32, 1440u32) || (width, height) == (3840u32, 2160u32) ==> after.captured_size()
            == (width, height),
        !((width, height) == (1280u32, 720u32) || (width, height) == (1920u32, 1080u32) || (
            width,
            height,
        ) == (2560u32, 1440u32) || (width, height) == (3840u32, 2160u32)) ==> after.resolution
            == before.resolution,
        fps == 30 || fps == 60 || fps == 120 ==> after.custom_fps == before.custom_fps,
        after.video_device == before.video_device,
        after.audio_input == before.audio_input,
        after.audio_output == before.audio_output,
        after.volume_bits == before.volume_bits,
        after.show_overlay == before.show_overlay,
{
    reveal_names();
    let known = crate::modes::known_sizes();
    assert(known[0] == (3840u32, 2160u32) && known[1] == (2560u32, 1440u32));
    assert(known[2] == (1920u32, 1080u32) && known[3] == (1280u32, 720u32));
    assert(known.contains(known[0]) && known.contains(known[1]) && known.contains(known[2])
        && known.contains(known[3]));
}

/// What is captured changes with the video device, the resolution and the frame rate alone; where
/// sound runs with the video device and the two audio devices alone.
pub proof fn law_what_a_change_touches(a: Settings, b: Settings)
    ensures
        !video_differs(a, b) <==> a.video_device@ == b.video_device@ && a.resolution@
            == b.resolution@ && a.fps_mode@ == b.fps_mode@ && a.custom_fps == b.custom_fps,
        !audio_differs(a, b) <==> a.video_device@ == b.video_device@ && a.audio_input
            == b.audio_input && a.audio_output == b.audio_output,
{
}

}
