# TackleCast

A low-latency viewer for capture cards: it shows the video of a DirectShow device in a window
and passes its sound through to the speakers.

## Layout

- `src/` is the library, verified with Verus. It holds what the viewer decides and computes.
  - `ring`: the sample queue between the audio input and the audio output
  - `audio`: the devices and the stream format for passthrough
  - `devices`: listing devices, and finding the audio input of a video device
  - `capture`, `modes`, `session`: what is captured, the sizes and frame rates to fall back to,
    the attempts to open a device, and the counters of a running capture
  - `frames`, `pattern`: decoded video and the test pattern as frames
  - `planes`, `render`, `interop`: planes laid out for the GPU, the surface, and shared buffers
  - `gpu_decode`, `libraries`, `versions`: the steps of decoding on the GPU, and where its library
    is found
  - `settings`, `viewer`: the settings, and what each event leads to
  - `logs`: the names of log files, and which of them are kept
  - `text`: strings as sequences of characters
- `tests/` runs the library on concrete values.
- `app/` is the program around it: the window, the GPU, the audio host, DirectShow, and what is
  computed with floating point numbers.

Samples, frame rates and the volume cross into the library as the bit patterns of floating point
numbers.

The devices are those of Windows. There the program also uses `cpal` for its audio streams; on
other systems it shows the test pattern.
