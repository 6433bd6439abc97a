//! Failures of planning and rendering.
use vstd::prelude::*;

verus! {

/// Why a planning step failed.
#[derive(Debug, PartialEq, Eq)]
pub enum MixError {
    /// No track record with this id.
    TrackNotFound(i32),
    /// No file location recorded for this track id.
    LocationNotFound(i32),
    /// The track (first field) has no hot cue with this index (second field).
    CueNotFound(i32, u8),
    /// No playlist with this id.
    PlaylistNotFound(i32),
    /// A non-positive tempo or sample rate, a missing initial tempo, or an
    /// offset whose time cannot be represented.
    InvalidParameter,
    /// A slice whose end is not after its start, or a degenerate cross-fade.
    InvalidRange,
    /// The audio engine exited with a failure; carries its diagnostic text.
    ExternalProcessFailure(String),
}

} // verus!
