//! Real-time audio processing library: thread-safe sample buffers, a
//! WAV/BWF/AIFF codec over integer PCM values, and the verified state and
//! byte-level logic that the DSP and I/O layers are built on.

pub mod audiofile;
pub mod buffer;
pub mod processor;
pub mod realtime;
