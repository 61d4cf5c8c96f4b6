//! Verified core of the ToneFrame desktop app's native side.

pub mod audio_input;
pub mod decimal;
pub mod device_id;
pub mod midi_input;
pub mod pcm_chunker;
pub mod permission;
pub mod synth_engine;
