//! The application: what each event of the window, the menu and the capture leads to.
use vstd::prelude::*;

use crate::capture::{CaptureConfig, CaptureSource, CaptureStats, PixelFormat};
use crate::devices::AudioDevice;
use crate::modes::CaptureMode;
use crate::settings::{audio_changed, video_changed, Settings};
use crate::text::same_ignoring_case;

verus! {

/// Which formats the test pattern runs in.
#[derive(Debug, Clone, Copy, PartialEq, Eq, Structural)]
pub enum TestPatternMode {
    Alternate,
    Nv12,
    Yuvj422p,
}

/// The command line.
#[derive(Debug, Clone, Copy, PartialEq, Eq, Structural)]
pub struct CliArgs {
    pub test_mode: bool,
    pub test_pattern: TestPatternMode,
}

/// `name` is among the arguments, in any case.
pub open spec fn has_flag(args: Seq<String>, name: Seq<char>) -> bool {
    exists|i: int|
        0 <= i < args.len() && crate::text::lower((#[trigger] args[i])@) == crate::text::lower(name)
}

/// `name` is among the arguments, in any case.
fn flag_given(args: &[String], name: &str) -> (given: bool)
    ensures
        given == has_flag(args@, name@),
{
    let mut i: usize = 0;
    while i < args.len()
        invariant
            i <= args.len(),
            forall|j: int|
                0 <= j < i ==> crate::text::lower((#[trigger] args@[j])@) != crate::text::lower(
                    name@,
                ),
        decreases args.len() - i,
    {
        if same_ignoring_case(args[i].as_str(), name) {
            assert(crate::text::lower(args@[i as int]@) == crate::text::lower(name@));
            return true;
        }
        i += 1;
    }
    false
}

impl CliArgs {
    /// Reads the arguments after the name of the program. Any flag for the test pattern turns
    /// the test mode on.
    pub fn parse(args: &[String]) -> (parsed: CliArgs)
        ensures
            parsed.test_pattern == if has_flag(args@, "--test-nv12"@) {
                TestPatternMode::Nv12
            } else if has_flag(args@, "--test-yuvj422p"@) || has_flag(args@, "--test-mjpeg"@) {
                TestPatternMode::Yuvj422p
            } else {
                TestPatternMode::Alternate
            },
            parsed.test_mode == (has_flag(args@, "--test"@) || has_flag(args@, "--test-alt"@)
                || has_flag(args@, "--test-nv12"@) || has_flag(args@, "--test-yuvj422p"@)
                || has_flag(args@, "--test-mjpeg"@)),
    {
        let nv12 = flag_given(args, "--test-nv12");
        let yuvj422p = flag_given(args, "--test-yuvj422p");
        let mjpeg = flag_given(args, "--test-mjpeg");
        let test_pattern = if nv12 {
            TestPatternMode::Nv12
        } else if yuvj422p || mjpeg {
            TestPatternMode::Yuvj422p
        } else {
            TestPatternMode::Alternate
        };
        let test_mode = flag_given(args, "--test") || flag_given(args, "--test-alt") || nv12
            || yuvj422p || mjpeg;
        CliArgs { test_mode, test_pattern }
    }
}

/// The keys that do something outside of the menu.
#[derive(Debug, Clone, Copy, PartialEq, Eq, Structural)]
pub enum Key {
    Escape,
    F11,
    Other,
}

/// What happens to the window.
#[derive(Debug, Clone, Copy, PartialEq, Eq, Structural)]
pub enum WindowEvent {
    Keyboard { key: Key, pressed: bool, repeat: bool },
    CloseRequested,
    Resized { width: u32, height: u32 },
    Occluded(bool),
    RedrawRequested,
    Other,
}

/// What is to be done.
#[derive(Debug, Clone, Copy, PartialEq, Eq, Structural)]
pub enum Action {
    OpenMenu,
    /// Close the menu and apply what was changed in it.
    CloseMenu,
    SetFullscreen(bool),
    /// Let the menu see the event.
    ForwardToUi,
    ResizeSurface { width: u32, height: u32 },
    RequestRedraw,
    Draw,
    ApplySettings,
    SaveSettings,
    StopCapture,
    StartCapture,
    StopAudio,
    StartAudio,
    SetVolume,
    Exit,
}

/// What the overlay shows. The frame rate is given by the bit pattern of a 32-bit float.
#[derive(Debug)]
pub struct OverlayInfo {
    pub width: Option<u32>,
    pub height: Option<u32>,
    pub fps_bits: Option<u32>,
    pub show_overlay: bool,
    pub status_message: Option<String>,
    pub status_is_alert: bool,
}

/// What passthrough is started with.
#[derive(Debug)]
pub struct AudioRequest {
    pub video_device: String,
    pub input_index: i32,
    pub output_index: i32,
}

/// The state of the application.
#[derive(Debug)]
pub struct App {
    pub settings: Settings,
    pub test_mode: bool,
    pub test_pattern: TestPatternMode,
    pub video_devices: Vec<String>,
    pub audio_inputs: Vec<AudioDevice>,
    pub audio_outputs: Vec<AudioDevice>,
    pub latest_stats: Option<CaptureStats>,
    pub latest_error: Option<String>,
    pub is_fullscreen: bool,
    pub is_minimized: bool,
}

/// What closing the application takes.
pub open spec fn closing() -> Seq<Action> {
    seq![Action::StopCapture, Action::StopAudio, Action::SaveSettings, Action::Exit]
}

/// The event is the press of a key that is not held down.
pub open spec fn fresh_press(event: WindowEvent, key: Key) -> bool {
    event == (WindowEvent::Keyboard { key, pressed: true, repeat: false })
}

/// What an event of the window leads to.
pub open spec fn actions_for(app: App, event: WindowEvent, ui: bool, menu_open: bool) -> Seq<
    Action,
> {
    let forward = if ui {
        seq![Action::ForwardToUi]
    } else {
        seq![]
    };
    if fresh_press(event, Key::Escape) {
        if !ui {
            seq![]
        } else if menu_open {
            seq![Action::CloseMenu]
        } else {
            seq![Action::OpenMenu]
        }
    } else if fresh_press(event, Key::F11) {
        seq![Action::SetFullscreen(!app.is_fullscreen)]
    } else {
        forward + match event {
            WindowEvent::CloseRequested => closing(),
            WindowEvent::Resized { width, height } => if width == 0 || height == 0 {
                seq![Action::ResizeSurface { width, height }]
            } else {
                seq![Action::ResizeSurface { width, height }, Action::RequestRedraw]
            },
            WindowEvent::Occluded(occluded) => if occluded {
                seq![]
            } else {
                seq![Action::RequestRedraw]
            },
            WindowEvent::RedrawRequested => if app.is_minimized {
                seq![]
            } else {
                seq![Action::Draw]
            },
            WindowEvent::Keyboard { .. } => seq![],
            WindowEvent::Other => seq![],
        }
    }
}

/// The state after an event of the window.
pub open spec fn state_after(app: App, event: WindowEvent) -> App {
    if fresh_press(event, Key::F11) {
        App { is_fullscreen: !app.is_fullscreen, ..app }
    } else {
        match event {
            WindowEvent::Resized { width, height } => App {
                is_minimized: width == 0 || height == 0,
                ..app
            },
            WindowEvent::Occluded(occluded) => App { is_minimized: occluded, ..app },
            _ => app,
        }
    }
}

/// The video device that is captured: the configured one, else the first one found; nothing
/// where there is neither.
pub open spec fn device_of(app: App) -> Seq<char> {
    if app.settings.video_device@.len() > 0 {
        app.settings.video_device@
    } else if app.video_devices@.len() > 0 {
        app.video_devices@[0]@
    } else {
        seq![]
    }
}

/// The source of the test pattern.
pub open spec fn pattern_source(mode: TestPatternMode) -> CaptureSource {
    match mode {
        TestPatternMode::Alternate => CaptureSource::TestPattern {
            alternate_formats: true,
            force_format: None,
        },
        TestPatternMode::Nv12 => CaptureSource::TestPattern {
            alternate_formats: false,
            force_format: Some(PixelFormat::Nv12),
        },
        TestPatternMode::Yuvj422p => CaptureSource::TestPattern {
            alternate_formats: false,
            force_format: Some(PixelFormat::Yuvj422p),
        },
    }
}

impl App {
    /// The application before its window is there.
    pub fn new(
        settings: Settings,
        test_mode: bool,
        test_pattern: TestPatternMode,
        video_devices: Vec<String>,
        audio_inputs: Vec<AudioDevice>,
        audio_outputs: Vec<AudioDevice>,
    ) -> (app: App)
        ensures
            app == (App {
                settings,
                test_mode,
                test_pattern,
                video_devices,
                audio_inputs,
                audio_outputs,
                latest_stats: None,
                latest_error: None,
                is_fullscreen: false,
                is_minimized: false,
            }),
    {
        App {
            settings,
            test_mode,
            test_pattern,
            video_devices,
            audio_inputs,
            audio_outputs,
            latest_stats: None,
            latest_error: None,
            is_fullscreen: false,
            is_minimized: false,
        }
    }

    /// What to do, in order, once the window is there.
    pub fn resumed(&self) -> (actions: Vec<Action>)
        ensures
            actions@ == seq![Action::StartCapture, Action::StartAudio, Action::RequestRedraw],
    {
        let actions = vec![Action::StartCapture, Action::StartAudio, Action::RequestRedraw];
        assert(actions@ =~= seq![Action::StartCapture, Action::StartAudio, Action::RequestRedraw]);
        actions
    }

    /// Takes in an event of the window and says what to do, in order. `ui` says whether there is
    /// a menu, `menu_open` whether it is open.
    pub fn window_event(&mut self, event: WindowEvent, ui: bool, menu_open: bool) -> (actions: Vec<
        Action,
    >)
        ensures
            actions@ == actions_for(*old(self), event, ui, menu_open),
            *final(self) == state_after(*old(self), event),
            !old(self).is_minimized && event == WindowEvent::RedrawRequested ==> actions@.contains(
                Action::Draw,
            ),
            actions@.contains(Action::Draw) ==> !old(self).is_minimized && event
                == WindowEvent::RedrawRequested,
            ({
                let forward = if ui {
                    seq![Action::ForwardToUi]
                } else {
                    seq![]
                };
                match event {
                    WindowEvent::Keyboard { key: Key::Escape, pressed: true, repeat: false } => {
                        &&& !ui ==> actions@ == Seq::<Action>::empty()
                        &&& ui && menu_open ==> actions@ == seq![Action::CloseMenu]
                        &&& ui && !menu_open ==> actions@ == seq![Action::OpenMenu]
                    },
                    WindowEvent::Keyboard { key: Key::F11, pressed: true, repeat: false } => actions@
                        == seq![Action::SetFullscreen(!old(self).is_fullscreen)],
                    WindowEvent::Keyboard { .. } => actions@ == forward,
                    WindowEvent::CloseRequested => actions@ == forward + seq![
                        Action::StopCapture,
                        Action::StopAudio,
                        Action::SaveSettings,
                        Action::Exit,
                    ],
                    WindowEvent::Resized { width, height } => {
                        &&& width > 0 && height > 0 ==> actions@ == forward + seq![
                            Action::ResizeSurface { width, height },
                            Action::RequestRedraw,
                        ]
                        &&& width == 0 || height == 0 ==> actions@ == forward + seq![
                            Action::ResizeSurface { width, height },
                        ]
                    },
                    WindowEvent::Occluded(true) => actions@ == forward,
                    WindowEvent::Occluded(false) => actions@ == forward + seq![
                        Action::RequestRedraw,
                    ],
                    WindowEvent::RedrawRequested => {
                        &&& old(self).is_minimized ==> actions@ == forward
                        &&& !old(self).is_minimized ==> actions@ == forward + seq![Action::Draw]
                    },
                    WindowEvent::Other => actions@ == forward,
                }
            }),
            *final(self) == (App {
                is_fullscreen: final(self).is_fullscreen,
                is_minimized: final(self).is_minimized,
                ..*old(self)
            }),
            final(self).is_fullscreen != old(self).is_fullscreen <==> event
                == (WindowEvent::Keyboard { key: Key::F11, pressed: true, repeat: false }),
            final(self).is_minimized == match event {
                WindowEvent::Resized { width, height } => width == 0 || height == 0,
                WindowEvent::Occluded(occluded) => occluded,
                _ => old(self).is_minimized,
            },
    {
        let ghost before = *self;
        let mut actions: Vec<Action> = Vec::new();
        if let WindowEvent::Keyboard { key, pressed, repeat } = event {
            if pressed && !repeat {
                match key {
                    Key::Escape => {
                        if ui {
                            if menu_open {
                                actions.push(Action::CloseMenu);
                            } else {
                                actions.push(Action::OpenMenu);
                            }
                        }
                        assert(actions@ =~= actions_for(before, event, ui, menu_open));
                        return actions;
                    },
                    Key::F11 => {
                        let fullscreen = self.toggle_fullscreen();
                        actions.push(Action::SetFullscreen(fullscreen));
                        assert(actions@ =~= actions_for(before, event, ui, menu_open));
                        return actions;
                    },
                    Key::Other => {},
                }
            }
        }
        if ui {
            actions.push(Action::ForwardToUi);
        }
        match event {
            WindowEvent::CloseRequested => {
                actions.push(Action::StopCapture);
                actions.push(Action::StopAudio);
                actions.push(Action::SaveSettings);
                actions.push(Action::Exit);
            },
            WindowEvent::Resized { width, height } => {
                self.is_minimized = width == 0 || height == 0;
                actions.push(Action::ResizeSurface { width, height });
                if !self.is_minimized {
                    actions.push(Action::RequestRedraw);
                }
            },
            WindowEvent::Occluded(occluded) => {
                self.is_minimized = occluded;
                if !occluded {
                    actions.push(Action::RequestRedraw);
                }
            },
            WindowEvent::RedrawRequested => {
                if !self.is_minimized {
                    actions.push(Action::Draw);
                }
            },
            WindowEvent::Keyboard { .. } => {},
            WindowEvent::Other => {},
        }
        assert(actions@ =~= actions_for(before, event, ui, menu_open));
        proof {
            law_event_actions(before, event, ui, menu_open);
        }
        actions
    }

    /// Takes in what the menu asked for while a frame was drawn, and says what to do, in order.
    pub fn frame_drawn(&mut self, toggle_fullscreen: bool, apply_settings: bool, exit: bool) -> (
    actions: Vec<Action>)
        ensures
            actions@ == (if toggle_fullscreen {
                seq![Action::SetFullscreen(!old(self).is_fullscreen)]
            } else {
                seq![]
            }) + (if apply_settings {
                seq![Action::ApplySettings]
            } else {
                seq![]
            }) + (if exit {
                seq![Action::StopCapture, Action::StopAudio, Action::SaveSettings, Action::Exit]
            } else {
                seq![]
            }),
            *final(self) == (App {
                is_fullscreen: old(self).is_fullscreen != toggle_fullscreen,
                ..*old(self)
            }),
    {
        let ghost before = *self;
        let mut actions: Vec<Action> = Vec::new();
        if toggle_fullscreen {
            let fullscreen = self.toggle_fullscreen();
            actions.push(Action::SetFullscreen(fullscreen));
        }
        if apply_settings {
            actions.push(Action::ApplySettings);
        }
        if exit {
            actions.push(Action::StopCapture);
            actions.push(Action::StopAudio);
            actions.push(Action::SaveSettings);
            actions.push(Action::Exit);
        }
        assert(actions@ =~= (if toggle_fullscreen {
            seq![Action::SetFullscreen(!before.is_fullscreen)]
        } else {
            seq![]
        }) + (if apply_settings {
            seq![Action::ApplySettings]
        } else {
            seq![]
        }) + (if exit {
            closing()
        } else {
            seq![]
        }));
        actions
    }

    /// Takes in what the capture gave since the last time: whether there was a frame; the latest
    /// report of the frame rate and the latest error, if any; and the mode that the device agreed
    /// to, where that is not the one it was asked for. Says what to do, in order.
    pub fn about_to_wait(
        &mut self,
        got_frame: bool,
        stats: Option<CaptureStats>,
        error: Option<String>,
        negotiated: Option<CaptureMode>,
    ) -> (actions: Vec<Action>)
        ensures
            actions@ == (if negotiated is Some {
                seq![Action::SaveSettings]
            } else {
                seq![]
            }) + (if old(self).is_minimized {
                seq![]
            } else {
                seq![Action::RequestRedraw]
            }),
            *final(self) == (App {
                latest_stats: if stats is Some {
                    stats
                } else {
                    old(self).latest_stats
                },
                latest_error: if error is Some {
                    error
                } else if got_frame {
                    None
                } else {
                    old(self).latest_error
                },
                settings: final(self).settings,
                ..*old(self)
            }),
            match negotiated {
                Some(mode) => crate::settings::agrees_to(
                    old(self).settings,
                    final(self).settings,
                    mode.width,
                    mode.height,
                    mode.fps,
                ),
                None => final(self).settings == old(self).settings,
            },
    {
        let ghost before = *self;
        let ghost agreed = negotiated is Some;
        let mut actions: Vec<Action> = Vec::new();
        if got_frame {
            self.latest_error = None;
        }
        if stats.is_some() {
            self.latest_stats = stats;
        }
        if error.is_some() {
            self.latest_error = error;
        }
        if let Some(mode) = negotiated {
            self.settings.apply_negotiated(mode.width, mode.height, mode.fps);
            actions.push(Action::SaveSettings);
        }
        if !self.is_minimized {
            actions.push(Action::RequestRedraw);
        }
        assert(actions@ =~= (if agreed {
            seq![Action::SaveSettings]
        } else {
            seq![]
        }) + (if before.is_minimized {
            seq![]
        } else {
            seq![Action::RequestRedraw]
        }));
        actions
    }

    /// Takes on new settings and says what to do, in order: the capture is started again only
    /// where what is captured changed, passthrough only where its devices changed.
    /// `volume_changed` says whether the volume did.
    pub fn apply_settings(&mut self, new_settings: Settings, volume_changed: bool) -> (actions: Vec<
        Action,
    >)
        ensures
            actions@ == settings_actions(old(self).settings, new_settings, volume_changed),
            actions@ == seq![Action::SaveSettings] + (if crate::settings::video_differs(
                old(self).settings,
                new_settings,
            ) {
                seq![Action::StopCapture, Action::StartCapture]
            } else {
                seq![]
            }) + (if crate::settings::audio_differs(old(self).settings, new_settings) {
                seq![Action::StopAudio, Action::StartAudio]
            } else if volume_changed {
                seq![Action::SetVolume]
            } else {
                seq![]
            }),
            *final(self) == (App { settings: new_settings, ..*old(self) }),
    {
        let ghost before = self.settings;
        let mut actions: Vec<Action> = Vec::new();
        actions.push(Action::SaveSettings);
        if video_changed(&self.settings, &new_settings) {
            actions.push(Action::StopCapture);
            actions.push(Action::StartCapture);
        }
        if audio_changed(&self.settings, &new_settings) {
            actions.push(Action::StopAudio);
            actions.push(Action::StartAudio);
        } else if volume_changed {
            actions.push(Action::SetVolume);
        }
        assert(actions@ =~= settings_actions(before, new_settings, volume_changed));
        self.settings = new_settings;
        actions
    }

    /// What the overlay shows: the latest error, or that the capture has not reported yet, and
    /// the latest report.
    pub fn overlay_info(&self) -> (info: OverlayInfo)
        ensures
            info.width == match self.latest_stats {
                Some(stats) => Some(stats.width),
                None => None,
            },
            info.height == match self.latest_stats {
                Some(stats) => Some(stats.height),
                None => None,
            },
            info.fps_bits == match self.latest_stats {
                Some(stats) => Some(stats.fps_bits),
                None => None,
            },
            info.show_overlay == (self.settings.show_overlay && !self.is_minimized),
            match self.latest_error {
                Some(error) => info.status_message is Some && info.status_message->0@ == error@,
                None => if self.latest_stats is None {
                    info.status_message is Some && info.status_message->0@ == "Connecting..."@
                } else {
                    info.status_message is None
                },
            },
            info.status_is_alert == (self.latest_error is Some || self.latest_stats is None),
    {
        let status_message = match &self.latest_error {
            Some(error) => Some(error.clone()),
            None => if self.latest_stats.is_none() {
                Some("Connecting...".to_owned())
            } else {
                None
            },
        };
        let (width, height, fps_bits) = match self.latest_stats {
            Some(stats) => (Some(stats.width), Some(stats.height), Some(stats.fps_bits)),
            None => (None, None, None),
        };
        OverlayInfo {
            width,
            height,
            fps_bits,
            show_overlay: self.settings.show_overlay && !self.is_minimized,
            status_message,
            status_is_alert: self.latest_error.is_some() || self.latest_stats.is_none(),
        }
    }

    /// Goes to fullscreen or back. Says which.
    pub fn toggle_fullscreen(&mut self) -> (fullscreen: bool)
        ensures
            fullscreen == !old(self).is_fullscreen,
            *final(self) == (App { is_fullscreen: fullscreen, ..*old(self) }),
    {
        self.is_fullscreen = !self.is_fullscreen;
        self.is_fullscreen
    }

    /// The video device that is captured; empty where there is none.
    fn video_device(&self) -> (name: String)
        ensures
            name@ == device_of(*self),
    {
        if !self.settings.video_device.as_str().is_empty() {
            self.settings.video_device.clone()
        } else if self.video_devices.len() > 0 {
            self.video_devices[0].clone()
        } else {
            String::new()
        }
    }

    /// What to capture from now on. The test pattern is shown in test mode, and where there is no
    /// video device. What the last capture reported is dropped.
    pub fn start_capture(&mut self) -> (config: CaptureConfig)
        ensures
            *final(self) == (App { latest_stats: None, latest_error: None, ..*old(self) }),
            (config.width, config.height) == old(self).settings.captured_size(),
            config.fps == old(self).settings.captured_rate(),
            if old(self).test_mode || device_of(*old(self)).len() == 0 {
                config.source == pattern_source(old(self).test_pattern)
            } else {
                config.source matches CaptureSource::DirectShow {
                    device_name,
                    pixel_format,
                    decode_threads,
                } && device_name@ == device_of(*old(self)) && pixel_format@ == (if config.fps
                    <= 60 {
                    "nv12"@
                } else {
                    "mjpeg"@
                }) && decode_threads == if config.fps <= 60 {
                    1usize
                } else {
                    4usize
                }
            },
    {
        self.latest_stats = None;
        self.latest_error = None;
        let capture = self.settings.capture_settings();
        if self.test_mode {
            return self.start_test_capture(capture.width, capture.height, capture.fps);
        }
        let device_name = self.video_device();
        if device_name.as_str().is_empty() {
            return self.start_test_capture(capture.width, capture.height, capture.fps);
        }
        CaptureConfig {
            width: capture.width,
            height: capture.height,
            fps: capture.fps,
            source: CaptureSource::DirectShow {
                device_name,
                pixel_format: capture.pixel_format.to_owned(),
                decode_threads: capture.decode_threads,
            },
        }
    }

    /// The test pattern as the thing to capture.
    pub fn start_test_capture(&self, width: u32, height: u32, fps: u32) -> (config: CaptureConfig)
        ensures
            config == (CaptureConfig {
                width,
                height,
                fps,
                source: pattern_source(self.test_pattern),
            }),
            config.source matches CaptureSource::TestPattern { alternate_formats, force_format }
                && alternate_formats == (self.test_pattern == TestPatternMode::Alternate)
                && force_format == match self.test_pattern {
                TestPatternMode::Alternate => None,
                TestPatternMode::Nv12 => Some(PixelFormat::Nv12),
                TestPatternMode::Yuvj422p => Some(PixelFormat::Yuvj422p),
            },
    {
        let (alternate_formats, force_format) = match self.test_pattern {
            TestPatternMode::Alternate => (true, None),
            TestPatternMode::Nv12 => (false, Some(PixelFormat::Nv12)),
            TestPatternMode::Yuvj422p => (false, Some(PixelFormat::Yuvj422p)),
        };
        CaptureConfig {
            width,
            height,
            fps,
            source: CaptureSource::TestPattern { alternate_formats, force_format },
        }
    }

    /// What passthrough is started with; nothing in test mode, and where there is no video
    /// device.
    pub fn start_audio(&self) -> (request: Option<AudioRequest>)
        ensures
            match request {
                Some(request) => {
                    &&& !self.test_mode
                    &&& self.settings.video_device@.len() > 0 || self.video_devices@.len() > 0
                    &&& request.video_device@ == device_of(*self)
                    &&& self.settings.video_device@.len() > 0 ==> request.video_device@
                        == self.settings.video_device@
                    &&& self.settings.video_device@.len() == 0 ==> request.video_device@
                        == self.video_devices@[0]@
                    &&& request.input_index == self.settings.audio_input
                    &&& request.output_index == self.settings.audio_output
                },
                None => self.test_mode || (self.settings.video_device@.len() == 0
                    && self.video_devices@.len() == 0),
            },
    {
        if self.test_mode {
            return None;
        }
        if self.settings.video_device.as_str().is_empty() && self.video_devices.len() == 0 {
            return None;
        }
        Some(
            AudioRequest {
                video_device: self.video_device(),
                input_index: self.settings.audio_input,
                output_index: self.settings.audio_output,
            },
        )
    }
}

/// What a change from the settings `a` to the settings `b` leads to.
pub open spec fn settings_actions(a: Settings, b: Settings, volume_changed: bool) -> Seq<Action> {
    let video = if crate::settings::video_differs(a, b) {
        seq![Action::StopCapture, Action::StartCapture]
    } else {
        seq![]
    };
    let audio = if crate::settings::audio_differs(a, b) {
        seq![Action::StopAudio, Action::StartAudio]
    } else if volume_changed {
        seq![Action::SetVolume]
    } else {
        seq![]
    };
    seq![Action::SaveSettings] + video + audio
}

/// Capture is started again exactly when what is captured changed, passthrough exactly when its
/// devices changed; a new volume alone is handed to the running streams.
pub proof fn law_settings_restart_only_what_changed(a: Settings, b: Settings, volume_changed: bool)
    ensures
        settings_actions(a, b, volume_changed).contains(Action::StartCapture)
            == crate::settings::video_differs(a, b),
        settings_actions(a, b, volume_changed).contains(Action::StartAudio)
            == crate::settings::audio_differs(a, b),
        settings_actions(a, b, volume_changed).contains(Action::SetVolume) == (volume_changed
            && !crate::settings::audio_differs(a, b)),
        !crate::settings::video_differs(a, b) && !crate::settings::audio_differs(a, b)
            && !volume_changed ==> settings_actions(a, b, volume_changed)
            == seq![Action::SaveSettings],
{
    let actions = settings_actions(a, b, volume_changed);
    let video = crate::settings::video_differs(a, b);
    let audio = crate::settings::audio_differs(a, b);
    if video {
        assert(actions[2] == Action::StartCapture);
    }
    if audio {
        assert(actions[actions.len() - 1] == Action::StartAudio);
    } else if volume_changed {
        assert(actions[actions.len() - 1] == Action::SetVolume);
    }
    assert(!video && !audio && !volume_changed ==> actions =~= seq![Action::SaveSettings]);
}

/// Pressing the fullscreen key twice changes nothing.
pub proof fn law_fullscreen_key_twice_is_nothing(app: App)
    ensures
        ({
            let press = WindowEvent::Keyboard { key: Key::F11, pressed: true, repeat: false };
            state_after(state_after(app, press), press) == app
        }),
{
}

/// A window without an extent, or behind others, is not drawn until it comes back.
pub proof fn law_hidden_window_is_not_drawn(
    app: App,
    event: WindowEvent,
    ui: bool,
    menu_open: bool,
)
    requires
        event == WindowEvent::Occluded(true) || (event matches WindowEvent::Resized {
            width,
            height,
        } && (width == 0 || height == 0)),
    ensures
        !actions_for(
            state_after(app, event),
            WindowEvent::RedrawRequested,
            ui,
            menu_open,
        ).contains(Action::Draw),
{
}

/// What every event leads to: the menu sees all of them but a fresh press of Escape or of the
/// fullscreen key; a window that is not hidden is drawn whenever it is to be redrawn, and nothing
/// else draws it.
pub proof fn law_event_actions(app: App, event: WindowEvent, ui: bool, menu_open: bool)
    ensures
        ({
            let actions = actions_for(app, event, ui, menu_open);
            let consumed = event == (WindowEvent::Keyboard {
                key: Key::Escape,
                pressed: true,
                repeat: false,
            }) || event == (WindowEvent::Keyboard { key: Key::F11, pressed: true, repeat: false });
            &&& actions.contains(Action::Draw) == (event == WindowEvent::RedrawRequested
                && !app.is_minimized)
            &&& actions.contains(Action::ForwardToUi) == (ui && !consumed)
            &&& ui && !consumed ==> actions[0] == Action::ForwardToUi
            &&& actions.contains(Action::Exit) == (event == WindowEvent::CloseRequested)
            &&& actions.contains(Action::StopCapture) == (event == WindowEvent::CloseRequested)
            &&& actions.contains(Action::StopAudio) == (event == WindowEvent::CloseRequested)
            &&& actions.contains(Action::SaveSettings) == (event == WindowEvent::CloseRequested)
        }),
{
    let actions = actions_for(app, event, ui, menu_open);
    if event == WindowEvent::RedrawRequested && !app.is_minimized {
        assert(actions[actions.len() - 1] == Action::Draw);
    }
    if event == WindowEvent::CloseRequested {
        assert(actions[actions.len() - 1] == Action::Exit);
        assert(actions[actions.len() - 2] == Action::SaveSettings);
        assert(actions[actions.len() - 3] == Action::StopAudio);
        assert(actions[actions.len() - 4] == Action::StopCapture);
    }
}

/// Whether the menu is open matters to nothing but a fresh press of Escape, which closes an open
/// menu and opens a closed one.
pub proof fn law_only_escape_asks_for_the_menu(app: App, event: WindowEvent, ui: bool)
    ensures
        event != (WindowEvent::Keyboard { key: Key::Escape, pressed: true, repeat: false })
            ==> actions_for(app, event, ui, true) == actions_for(app, event, ui, false),
        event == (WindowEvent::Keyboard { key: Key::Escape, pressed: true, repeat: false }) && ui
            ==> actions_for(app, event, ui, true) == seq![Action::CloseMenu] && actions_for(
            app,
            event,
            ui,
            false,
        ) == seq![Action::OpenMenu],
{
}

/// The menu takes nothing from what an event leads to: with one the same is done, after the menu
/// has seen the event. A fresh press of Escape alone is for the menu.
pub proof fn law_menu_sees_events_first(app: App, event: WindowEvent, menu_open: bool)
    requires
        event != (WindowEvent::Keyboard { key: Key::Escape, pressed: true, repeat: false }),
        event != (WindowEvent::Keyboard { key: Key::F11, pressed: true, repeat: false }),
    ensures
        actions_for(app, event, true, menu_open) == seq![Action::ForwardToUi] + actions_for(
            app,
            event,
            false,
            menu_open,
        ),
{
    assert(actions_for(app, event, true, menu_open) =~= seq![Action::ForwardToUi] + actions_for(
        app,
        event,
        false,
        menu_open,
    ));
}

/// A flag may stand anywhere among the arguments, and in any case.
pub proof fn law_flag_counts_anywhere(before: Seq<String>, arg: String, after: Seq<String>, name: Seq<
    char,
>)
    ensures
        !has_flag(seq![], name),
        has_flag(before + seq![arg] + after, name) == (has_flag(before, name) || crate::text::lower(
            arg@,
        ) == crate::text::lower(name) || has_flag(after, name)),
{
    let all = before + seq![arg] + after;
    let n = before.len() as int;
    assert(all[n] == arg);
    if has_flag(before, name) {
        let i = choose|i: int|
            0 <= i < before.len() && crate::text::lower((#[trigger] before[i])@)
                == crate::text::lower(name);
        assert(all[i] == before[i]);
    }
    if has_flag(after, name) {
        let i = choose|i: int|
            0 <= i < after.len() && crate::text::lower((#[trigger] after[i])@)
                == crate::text::lower(name);
        assert(all[n + 1 + i] == after[i]);
    }
    if has_flag(all, name) {
        let i = choose|i: int|
            0 <= i < all.len() && crate::text::lower((#[trigger] all[i])@) == crate::text::lower(
                name,
            );
        if i < n {
            assert(before[i] == all[i]);
        } else if i > n {
            assert(after[i - n - 1] == all[i]);
        }
    }
}

/// The configured device is captured whatever devices were found; without one it is the first
/// that was found.
pub proof fn law_configured_device_comes_first(app: App)
    ensures
        app.settings.video_device@.len() > 0 ==> device_of(app) == app.settings.video_device@,
        app.settings.video_device@.len() == 0 && app.video_devices@.len() > 0 ==> device_of(app)
            == app.video_devices@[0]@,
        app.settings.video_device@.len() == 0 && app.video_devices@.len() == 0 ==> device_of(app)
            == Seq::<char>::empty(),
{
}

}
