//! Beat-aligned mix planning for a DJ media library.
//!
//! Cue points and tempi are turned into time offsets and playback-rate
//! ratios, tempo changes are approximated by stepped ramps, and each planned
//! operation is rendered into the textual filter graph and argument list
//! that the audio engine (ffmpeg) consumes. Running the engine, reading the
//! library database and the command line live outside this crate.
//!
//! Units: times are whole microseconds (`i64`), tempi are thousandths of a
//! beat per minute (`u32`), playback-rate ratios are billionths (`u64`).

pub mod args;
pub mod cross_fade;
pub mod error;
pub mod ffmpeg;
pub mod mix;
pub mod playlist;
pub mod records;
pub mod slice;
pub mod tag;
pub mod tempo;
pub mod text;
pub mod timing;
