//! A slice: one stretch of one track between two cues, retuned to a target
//! tempo (optionally ramping to a second one) and loudness-normalised.
use vstd::prelude::*;
use crate::error::MixError;
use crate::ffmpeg::{engine_args, join, slice_cmd, texts};
use crate::records::{
    find_hotcue, find_location, find_track, get_hotcue, get_track, Catalog, Cue, Library,
};
use crate::tempo::{ramp_filters, ramp_spans, SteppedTempoFilter, TempoSpan};
use crate::text::{digits, int_text, micros_text, nat_text, signed_text};
use crate::timing::{cue_at, fits_i64, resolve_micros, scale, scale_ratio};

verus! {

/// Steps of the ramp used when the tempo changes over a slice.
pub const RAMP_STEPS: usize = 4;

/// A slice of a track from one cue (plus whole beats) to another.
#[derive(Debug)]
pub struct SliceCommand {
    pub a_path: String,
    pub a: Library,
    pub from: (Cue, i32),
    pub to: (Cue, i32),
    pub bpm: u32,
    pub to_bpm: Option<u32>,
}

/// Start and end of the slice in the track, in microseconds.
pub open spec fn slice_times(a: Library, from: (Cue, i32), to: (Cue, i32)) -> (int, int) {
    (
        resolve_micros(from.0.position as int, a.samplerate as int, a.bpm as int, from.1 as int),
        resolve_micros(to.0.position as int, a.samplerate as int, a.bpm as int, to.1 as int),
    )
}

/// Why a slice with these parts cannot be rendered, if it cannot.
pub open spec fn slice_error(
    a: Library,
    from: (Cue, i32),
    to: (Cue, i32),
    bpm: u32,
    to_bpm: Option<u32>,
) -> Option<MixError> {
    if bpm == 0 || to_bpm == Some(0u32) || a.bpm == 0 || a.samplerate == 0 {
        Some(MixError::InvalidParameter)
    } else {
        let (s, e) = slice_times(a, from, to);
        if !fits_i64(s) || !fits_i64(e) {
            Some(MixError::InvalidParameter)
        } else if e <= s {
            Some(MixError::InvalidRange)
        } else if !fits_i64(e - s) {
            Some(MixError::InvalidParameter)
        } else {
            None
        }
    }
}

/// The slice that `SliceCommand::new` plans with these arguments, or why it
/// fails: the first missing record, else the first invalid parameter.
pub open spec fn planned_slice(
    catalog: Catalog,
    track_id: i32,
    from_hotcue: u8,
    from_offset: i32,
    to_hotcue: u8,
    to_offset: i32,
    bpm: u32,
    to_bpm: Option<u32>,
) -> Result<SliceCommand, MixError> {
    match find_track(catalog.tracks@, track_id) {
        None => Err(MixError::TrackNotFound(track_id)),
        Some(a) => match find_location(catalog.locations@, track_id) {
            None => Err(MixError::LocationNotFound(track_id)),
            Some(loc) => match find_hotcue(catalog.cues@, track_id, from_hotcue) {
                None => Err(MixError::CueNotFound(track_id, from_hotcue)),
                Some(fc) => match find_hotcue(catalog.cues@, track_id, to_hotcue) {
                    None => Err(MixError::CueNotFound(track_id, to_hotcue)),
                    Some(tc) => match slice_error(
                        a,
                        (fc, from_offset),
                        (tc, to_offset),
                        bpm,
                        to_bpm,
                    ) {
                        Some(e) => Err(e),
                        None => Ok(
                            SliceCommand {
                                a_path: loc.location,
                                a,
                                from: (fc, from_offset),
                                to: (tc, to_offset),
                                bpm,
                                to_bpm,
                            },
                        ),
                    },
                },
            },
        },
    }
}

/// The text `slice_<track>_<from hotcue>-<to hotcue>`.
pub open spec fn slice_id(track_id: i32, from_hotcue: u8, to_hotcue: u8) -> Seq<char> {
    "slice_"@ + int_text(track_id as int) + "_"@ + digits(from_hotcue as nat) + "-"@ + digits(
        to_hotcue as nat,
    )
}

impl SliceCommand {
    /// The parts agree: tempi and times are valid and the slice is not
    /// empty.
    pub open spec fn wf(&self) -> bool {
        slice_error(self.a, self.from, self.to, self.bpm, self.to_bpm) is None
    }

    /// Length of the slice in microseconds.
    pub open spec fn duration(&self) -> int {
        let (s, e) = slice_times(self.a, self.from, self.to);
        e - s
    }

    /// The spans of the slice's tempo ramp: one constant span, or
    /// `RAMP_STEPS` spans towards `to_bpm` when one is given.
    pub open spec fn spans(&self) -> Seq<TempoSpan> {
        let start = scale_ratio(self.a.bpm as int, self.bpm as int) as u64;
        match self.to_bpm {
            Some(tb) => ramp_spans(
                (0i64, start),
                (self.duration() as i64, scale_ratio(self.a.bpm as int, tb as int) as u64),
                RAMP_STEPS as int,
            ),
            None => ramp_spans((0i64, start), (self.duration() as i64, start), 1),
        }
    }

    /// The slice's filter graph: the ramp from pad `0` to pad `a`, then
    /// loudness normalisation.
    pub open spec fn filters(&self) -> Seq<Seq<char>> {
        ramp_filters(self.spans(), "0"@, "a"@).push("[a] loudnorm"@)
    }

    /// Plans a slice of track `track_id` from hot cue `from_hotcue` plus
    /// `from_offset` beats to hot cue `to_hotcue` plus `to_offset` beats,
    /// played at `bpm` (ramping to `to_bpm` if given).
    pub fn new(
        catalog: &Catalog,
        track_id: i32,
        from_hotcue: u8,
        from_offset: i32,
        to_hotcue: u8,
        to_offset: i32,
        bpm: u32,
        to_bpm: Option<u32>,
    ) -> (r: Result<Self, MixError>)
        ensures
            r == planned_slice(
                *catalog,
                track_id,
                from_hotcue,
                from_offset,
                to_hotcue,
                to_offset,
                bpm,
                to_bpm,
            ),
            r matches Ok(c) ==> c.wf(),
    {
        let (a_path, a) = match get_track(catalog, track_id) {
            Ok(t) => t,
            Err(e) => return Err(e),
        };
        let from_cue = match get_hotcue(catalog, track_id, from_hotcue) {
            Ok(c) => c,
            Err(e) => return Err(e),
        };
        let to_cue = match get_hotcue(catalog, track_id, to_hotcue) {
            Ok(c) => c,
            Err(e) => return Err(e),
        };
        let cmd = SliceCommand {
            a_path,
            a,
            from: (from_cue, from_offset),
            to: (to_cue, to_offset),
            bpm,
            to_bpm,
        };
        match cmd.validate() {
            Ok(()) => Ok(cmd),
            Err(e) => Err(e),
        }
    }

    /// Whether the parts agree (`wf`), or why not.
    pub fn validate(&self) -> (r: Result<(), MixError>)
        ensures
            match slice_error(self.a, self.from, self.to, self.bpm, self.to_bpm) {
                Some(e) => r == Err::<(), MixError>(e),
                None => r == Ok::<(), MixError>(()),
            },
    {
        let bad_bpm = match self.to_bpm {
            Some(tb) => tb == 0,
            None => false,
        };
        if self.bpm == 0 || bad_bpm || self.a.bpm == 0 || self.a.samplerate == 0 {
            return Err(MixError::InvalidParameter);
        }
        let start = match cue_at(&self.a, &self.from.0, self.from.1) {
            Ok(t) => t,
            Err(e) => return Err(e),
        };
        let end = match cue_at(&self.a, &self.to.0, self.to.1) {
            Ok(t) => t,
            Err(e) => return Err(e),
        };
        if end <= start {
            return Err(MixError::InvalidRange);
        }
        if (end as i128 - start as i128) > i64::MAX as i128 {
            return Err(MixError::InvalidParameter);
        }
        Ok(())
    }

    /// The name of the slice's rendered segment:
    /// `slice_<track>_<from hotcue>-<to hotcue>`.
    pub fn id(&self) -> (r: String)
        ensures
            r@ == slice_id(self.a.id, self.from.0.hotcue, self.to.0.hotcue),
    {
        let mut r = String::from_str("slice_");
        r.append(signed_text(self.a.id as i64).as_str());
        r.append("_");
        r.append(nat_text(self.from.0.hotcue as u128).as_str());
        r.append("-");
        r.append(nat_text(self.to.0.hotcue as u128).as_str());
        r
    }

    /// The engine invocation that renders the slice into `out`: it seeks
    /// the track to the slice's range and applies `filters()`. Fails, before
    /// anything is rendered, exactly as `validate` does.
    pub fn execute(&self, out: &str) -> (r: Result<Vec<String>, MixError>)
        ensures
            match slice_error(self.a, self.from, self.to, self.bpm, self.to_bpm) {
                Some(e) => r == Err::<Vec<String>, MixError>(e),
                None => r matches Ok(v) && texts(v@) == engine_args(
                    seq![
                        "-ss"@,
                        micros_text(slice_times(self.a, self.from, self.to).0),
                        "-to"@,
                        micros_text(slice_times(self.a, self.from, self.to).1),
                        "-i"@,
                        self.a_path@,
                        "-filter_complex"@,
                        join(self.filters(), ";"@),
                        out@,
                    ],
                ),
            },
    {
        match self.validate() {
            Ok(()) => {},
            Err(e) => return Err(e),
        }
        let start = match cue_at(&self.a, &self.from.0, self.from.1) {
            Ok(t) => t,
            Err(_) => 0,
        };
        let end = match cue_at(&self.a, &self.to.0, self.to.1) {
            Ok(t) => t,
            Err(_) => 0,
        };
        let dur = end - start;
        let from_scale = match scale(self.a.bpm, self.bpm) {
            Ok(s) => s,
            Err(_) => 0,
        };
        let ramp = match self.to_bpm {
            Some(tb) => {
                let to_scale = match scale(self.a.bpm, tb) {
                    Ok(s) => s,
                    Err(_) => 0,
                };
                SteppedTempoFilter::new((0, from_scale), (dur, to_scale), RAMP_STEPS)
            },
            None => SteppedTempoFilter::new((0, from_scale), (dur, from_scale), 1),
        };
        let mut filters = ramp.to_filters("0", "a");
        let ghost ramp_part = texts(filters@);
        filters.push(String::from_str("[a] loudnorm"));
        assert(texts(filters@) =~= ramp_part.push("[a] loudnorm"@));
        Ok(slice_cmd(&self.a_path, &filters, (start, end), out))
    }
}

} // verus!
