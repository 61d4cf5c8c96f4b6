# toneframe

Native side of the ToneFrame desktop app: microphone capture, MIDI input and
monitor synth engines that talk to the webview through Tauri commands and events.

- `src/` is the verified library:
  - `decimal`: decimal text of unsigned integers (rendering, and parsing as `usize::from_str` does).
  - `device_id`: `native:N` device ids and their round trip.
  - `audio_input`: device listing, capture start decisions.
  - `pcm_chunker`: cutting mono sample blocks into fixed-size chunks without loss.
  - `midi_input`: port listing and the registry of running MIDI streams (one per input id).
  - `synth_engine`: the handle table of live engines and what a note event does.
  - `permission`: microphone permission steps and answers.
- `app/` is the Tauri shell: command handlers, threads, cpal/midir/AVFoundation calls,
  serde copies of the library's types, and the floating-point signal code
  (channel mixing, oscillator and envelope).
