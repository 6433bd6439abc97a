//! A cross-fade: the tail of one track blended into the head of the next,
//! both retuned to the mix tempo.
use vstd::prelude::*;
use crate::error::MixError;
use crate::ffmpeg::{engine_args, ffmpeg_complex_filter, input_args, join, texts};
use crate::records::{find_hotcue, find_location, find_track, get_hotcue, get_track, Catalog, Cue, Library};
use crate::text::{digits, int_text, micros_text, micros_to_text, nat_text, rate_text, rate_to_text, signed_text};
use crate::timing::{cue_at, fits_i64, resolve_micros, scale, scale_ratio};

verus! {

/// Microseconds of one beat at one thousandth of a beat per minute.
pub const BEAT_MICROS: u64 = 60_000_000_000;

/// Length in microseconds, rounded down, of `beats` beats at `bpm`
/// thousandths of a beat per minute.
pub open spec fn beats_micros(bpm: int, beats: int) -> int {
    BEAT_MICROS as int * beats / bpm
}

/// The trim windows of the two sides of a cross-fade, in microseconds of
/// each track.
#[derive(Debug, Clone, Copy, PartialEq, Eq, Structural)]
pub struct CrossFadeWindow {
    pub a_start: i64,
    pub a_length: i64,
    pub b_start: i64,
    pub b_length: i64,
}

/// How far both starts move forward so that neither is negative.
pub open spec fn clamp_shift(a_start: int, b_start: int) -> int {
    if a_start >= 0 && b_start >= 0 {
        0
    } else if a_start <= b_start {
        -a_start
    } else {
        -b_start
    }
}

/// The windows after moving both starts forward by `clamp_shift` and
/// shortening both lengths by as much.
pub open spec fn clamped(a_start: int, a_length: int, b_start: int, b_length: int) -> (int, int, int, int) {
    let d = clamp_shift(a_start, b_start);
    (a_start + d, a_length - d, b_start + d, b_length - d)
}

/// Moves both starts forward until neither is negative, and shortens both
/// lengths by as much; `None` when a result does not fit in an `i64`.
pub fn clamp_window(a_start: i64, a_length: i64, b_start: i64, b_length: i64) -> (r: Option<CrossFadeWindow>)
    ensures
        ({
            let (sa, la, sb, lb) = clamped(a_start as int, a_length as int, b_start as int, b_length as int);
            if fits_i64(sa) && fits_i64(la) && fits_i64(sb) && fits_i64(lb) {
                r == Some(CrossFadeWindow { a_start: sa as i64, a_length: la as i64, b_start: sb as i64, b_length: lb as i64 })
            } else {
                r is None
            }
        }),
{
    let d: i128 = if a_start >= 0 && b_start >= 0 {
        0
    } else if a_start <= b_start {
        -(a_start as i128)
    } else {
        -(b_start as i128)
    };
    let sa = a_start as i128 + d;
    let la = a_length as i128 - d;
    let sb = b_start as i128 + d;
    let lb = b_length as i128 - d;
    let lo = i64::MIN as i128;
    let hi = i64::MAX as i128;
    if sa < lo || sa > hi || la < lo || la > hi || sb < lo || sb > hi || lb < lo || lb > hi {
        None
    } else {
        Some(CrossFadeWindow { a_start: sa as i64, a_length: la as i64, b_start: sb as i64, b_length: lb as i64 })
    }
}

/// When the B side would start `delta` before its clip, and the A side does
/// not start earlier than that, the B side starts at zero, the A side
/// starts `delta` later, and both lengths shrink by `delta`.
pub proof fn lemma_negative_margin_clamp(a_start: int, a_length: int, b_start: int, b_length: int)
    requires
        b_start < 0,
        a_start >= b_start,
    ensures
        ({
            let delta = -b_start;
            let (sa, la, sb, lb) = clamped(a_start, a_length, b_start, b_length);
            &&& sb == 0
            &&& sa == a_start + delta
            &&& la == a_length - delta
            &&& lb == b_length - delta
        }),
{
}

/// A cross-fade of `crossfade` beats from hot cue `a_cue` of track `a` into
/// hot cue `b_cue` of track `b`, at `bpm` thousandths of a beat per minute.
#[derive(Debug)]
pub struct CrossFadeCommand {
    pub a_path: String,
    pub a: Library,
    pub a_cue: Cue,
    pub b_path: String,
    pub b: Library,
    pub b_cue: Cue,
    pub crossfade: u32,
    pub bpm: u32,
}

/// The raw windows of both sides before clamping: each starts at its cue
/// and lasts `crossfade` beats of its own track.
pub open spec fn raw_window(a: Library, a_cue: Cue, b: Library, b_cue: Cue, crossfade: u32) -> (int, int, int, int) {
    (
        resolve_micros(a_cue.position as int, a.samplerate as int, a.bpm as int, 0),
        beats_micros(a.bpm as int, crossfade as int),
        resolve_micros(b_cue.position as int, b.samplerate as int, b.bpm as int, 0),
        beats_micros(b.bpm as int, crossfade as int),
    )
}

/// Why a cross-fade with these parts cannot be rendered, if it cannot.
pub open spec fn cross_fade_error(a: Library, a_cue: Cue, b: Library, b_cue: Cue, crossfade: u32, bpm: u32) -> Option<MixError> {
    if bpm == 0 || a.bpm == 0 || a.samplerate == 0 || b.bpm == 0 || b.samplerate == 0 {
        Some(MixError::InvalidParameter)
    } else {
        let (sa, la, sb, lb) = raw_window(a, a_cue, b, b_cue, crossfade);
        let (csa, cla, csb, clb) = clamped(sa, la, sb, lb);
        if !fits_i64(sa) || !fits_i64(la) || !fits_i64(sb) || !fits_i64(lb) || !fits_i64(csa) || !fits_i64(csb) {
            Some(MixError::InvalidParameter)
        } else if cla <= 0 || clb <= 0 {
            Some(MixError::InvalidRange)
        } else {
            None
        }
    }
}

/// The cross-fade that `CrossFadeCommand::new` plans with these arguments,
/// or why it fails: the first missing record (A side first), else the first
/// invalid parameter.
pub open spec fn planned_cross_fade(catalog: Catalog, a_id: i32, a_hotcue: u8, b_id: i32, b_hotcue: u8, crossfade: u32, bpm: u32) -> Result<CrossFadeCommand, MixError> {
    match find_track(catalog.tracks@, a_id) {
        None => Err(MixError::TrackNotFound(a_id)),
        Some(a) => match find_location(catalog.locations@, a_id) {
            None => Err(MixError::LocationNotFound(a_id)),
            Some(a_loc) => match find_hotcue(catalog.cues@, a_id, a_hotcue) {
                None => Err(MixError::CueNotFound(a_id, a_hotcue)),
                Some(a_cue) => match find_track(catalog.tracks@, b_id) {
                    None => Err(MixError::TrackNotFound(b_id)),
                    Some(b) => match find_location(catalog.locations@, b_id) {
                        None => Err(MixError::LocationNotFound(b_id)),
                        Some(b_loc) => match find_hotcue(catalog.cues@, b_id, b_hotcue) {
                            None => Err(MixError::CueNotFound(b_id, b_hotcue)),
                            Some(b_cue) => match cross_fade_error(a, a_cue, b, b_cue, crossfade, bpm) {
                                Some(e) => Err(e),
                                None => Ok(CrossFadeCommand {
                                    a_path: a_loc.location,
                                    a,
                                    a_cue,
                                    b_path: b_loc.location,
                                    b,
                                    b_cue,
                                    crossfade,
                                    bpm,
                                }),
                            },
                        },
                    },
                },
            },
        },
    }
}

/// The text `crossfade_<a>-<a hotcue>_<b>-<b hotcue>`.
pub open spec fn cross_fade_id(a_id: i32, a_hotcue: u8, b_id: i32, b_hotcue: u8) -> Seq<char> {
    "crossfade_"@ + int_text(a_id as int) + "-"@ + digits(a_hotcue as nat) + "_"@ + int_text(b_id as int) + "-"@ + digits(b_hotcue as nat)
}

/// The filter graph of a cross-fade with window `w` and rates `sa`, `sb`
/// (billionths): each side is trimmed to its window with timestamps
/// restarted, faded (A out, B in) with a triangular curve, normalised and
/// retuned; the A side is also cut below 300 Hz; then both are mixed for
/// the longer of the two.
pub open spec fn cross_filters(w: CrossFadeWindow, sa: int, sb: int) -> Seq<Seq<char>> {
    seq![
        "[0] atrim=start="@ + micros_text(w.a_start as int) + ":duration="@ + micros_text(w.a_length as int) + ",asetpts=PTS-STARTPTS [0_1]"@,
        "[0_1] afade=t=out:st=0:duration="@ + micros_text(w.a_length as int) + ":curve=tri [0_2]"@,
        "[0_2] loudnorm [0_3]"@,
        "[0_3] equalizer=f=300:t=h:width=200:g=-10 [0_4]"@,
        "[0_4] atempo="@ + rate_text(sa as nat) + " [0_out]"@,
        "[1] atrim=start="@ + micros_text(w.b_start as int) + ":duration="@ + micros_text(w.b_length as int) + ",asetpts=PTS-STARTPTS [1_1]"@,
        "[1_1] afade=t=in:st=0:duration="@ + micros_text(w.b_length as int) + ":curve=tri [1_2]"@,
        "[1_2] loudnorm [1_3]"@,
        "[1_3] atempo="@ + rate_text(sb as nat) + " [1_out]"@,
        "[0_out][1_out] amix=duration=longest [out]"@,
    ]
}

fn beats_to_micros(bpm: u32, beats: u32) -> (r: Option<i64>)
    requires
        bpm > 0,
    ensures
        fits_i64(beats_micros(bpm as int, beats as int)) ==> r == Some(beats_micros(bpm as int, beats as int) as i64),
        !fits_i64(beats_micros(bpm as int, beats as int)) ==> r is None,
{
    proof {
        assert(BEAT_MICROS as int * beats <= 60_000_000_000 * 0x1_0000_0000) by (nonlinear_arith)
            requires
                beats <= 0x1_0000_0000,
                BEAT_MICROS == 60_000_000_000,
        ;
        vstd::arithmetic::div_mod::lemma_div_is_ordered_by_denominator(BEAT_MICROS as int * beats, 1, bpm as int);
        vstd::arithmetic::div_mod::lemma_div_pos_is_pos(BEAT_MICROS as int * beats, bpm as int);
    }
    let v: u128 = (BEAT_MICROS as u128 * beats as u128) / bpm as u128;
    if v > i64::MAX as u128 {
        None
    } else {
        Some(v as i64)
    }
}

impl CrossFadeCommand {
    /// The parts agree: tempi are positive, times fit, and the clamped
    /// cross-fade is not empty.
    pub open spec fn wf(&self) -> bool {
        cross_fade_error(self.a, self.a_cue, self.b, self.b_cue, self.crossfade, self.bpm) is None
    }

    /// The clamped windows of both sides.
    pub open spec fn window_spec(&self) -> CrossFadeWindow {
        let (sa, la, sb, lb) = raw_window(self.a, self.a_cue, self.b, self.b_cue, self.crossfade);
        let (csa, cla, csb, clb) = clamped(sa, la, sb, lb);
        CrossFadeWindow { a_start: csa as i64, a_length: cla as i64, b_start: csb as i64, b_length: clb as i64 }
    }

    /// The filter graph of this cross-fade.
    pub open spec fn filters_spec(&self) -> Seq<Seq<char>> {
        cross_filters(
            self.window_spec(),
            scale_ratio(self.a.bpm as int, self.bpm as int),
            scale_ratio(self.b.bpm as int, self.bpm as int),
        )
    }

    /// Plans a cross-fade of `crossfade` beats from hot cue `a_hotcue` of
    /// track `a_id` into hot cue `b_hotcue` of track `b_id`, at `bpm`.
    pub fn new(catalog: &Catalog, a_id: i32, a_hotcue: u8, b_id: i32, b_hotcue: u8, crossfade: u32, bpm: u32) -> (r: Result<Self, MixError>)
        ensures
            r == planned_cross_fade(*catalog, a_id, a_hotcue, b_id, b_hotcue, crossfade, bpm),
            r matches Ok(c) ==> c.wf(),
    {
        let (a_path, a) = match get_track(catalog, a_id) {
            Ok(t) => t,
            Err(e) => return Err(e),
        };
        let a_cue = match get_hotcue(catalog, a_id, a_hotcue) {
            Ok(c) => c,
            Err(e) => return Err(e),
        };
        let (b_path, b) = match get_track(catalog, b_id) {
            Ok(t) => t,
            Err(e) => return Err(e),
        };
        let b_cue = match get_hotcue(catalog, b_id, b_hotcue) {
            Ok(c) => c,
            Err(e) => return Err(e),
        };
        let cmd = CrossFadeCommand { a_path, a, a_cue, b_path, b, b_cue, crossfade, bpm };
        match cmd.window() {
            Ok(_) => Ok(cmd),
            Err(e) => Err(e),
        }
    }

    /// The clamped windows of both sides, or why there are none.
    pub fn window(&self) -> (r: Result<CrossFadeWindow, MixError>)
        ensures
            match cross_fade_error(self.a, self.a_cue, self.b, self.b_cue, self.crossfade, self.bpm) {
                Some(e) => r == Err::<CrossFadeWindow, MixError>(e),
                None => r == Ok::<CrossFadeWindow, MixError>(self.window_spec()),
            },
            ({
                let (sa, la, sb, lb) = raw_window(self.a, self.a_cue, self.b, self.b_cue, self.crossfade);
                self.wf() && sb < 0 && sa >= sb ==> r == Ok::<CrossFadeWindow, MixError>(
                    CrossFadeWindow {
                        a_start: (sa - sb) as i64,
                        a_length: (la + sb) as i64,
                        b_start: 0,
                        b_length: (lb + sb) as i64,
                    },
                )
            }),
    {
        proof {
            let (sa, la, sb, lb) = raw_window(self.a, self.a_cue, self.b, self.b_cue, self.crossfade);
            if sb < 0 && sa >= sb {
                lemma_negative_margin_clamp(sa, la, sb, lb);
            }
        }
        if self.bpm == 0 || self.a.bpm == 0 || self.a.samplerate == 0 || self.b.bpm == 0 || self.b.samplerate == 0 {
            return Err(MixError::InvalidParameter);
        }
        let a_start = match cue_at(&self.a, &self.a_cue, 0) {
            Ok(t) => t,
            Err(e) => return Err(e),
        };
        let b_start = match cue_at(&self.b, &self.b_cue, 0) {
            Ok(t) => t,
            Err(e) => return Err(e),
        };
        let a_length = match beats_to_micros(self.a.bpm, self.crossfade) {
            Some(t) => t,
            None => return Err(MixError::InvalidParameter),
        };
        let b_length = match beats_to_micros(self.b.bpm, self.crossfade) {
            Some(t) => t,
            None => return Err(MixError::InvalidParameter),
        };
        proof {
            assert(0 <= a_length && 0 <= b_length) by {
                vstd::arithmetic::div_mod::lemma_div_pos_is_pos(BEAT_MICROS as int * self.crossfade, self.a.bpm as int);
                vstd::arithmetic::div_mod::lemma_div_pos_is_pos(BEAT_MICROS as int * self.crossfade, self.b.bpm as int);
            }
        }
        match clamp_window(a_start, a_length, b_start, b_length) {
            Some(w) => {
                if w.a_length <= 0 || w.b_length <= 0 {
                    Err(MixError::InvalidRange)
                } else {
                    Ok(w)
                }
            },
            None => Err(MixError::InvalidParameter),
        }
    }

    /// The name of the cross-fade's rendered segment:
    /// `crossfade_<a>-<a hotcue>_<b>-<b hotcue>`.
    pub fn id(&self) -> (r: String)
        ensures
            r@ == cross_fade_id(self.a.id, self.a_cue.hotcue, self.b.id, self.b_cue.hotcue),
    {
        let mut r = String::from_str("crossfade_");
        r.append(signed_text(self.a.id as i64).as_str());
        r.append("-");
        r.append(nat_text(self.a_cue.hotcue as u128).as_str());
        r.append("_");
        r.append(signed_text(self.b.id as i64).as_str());
        r.append("-");
        r.append(nat_text(self.b_cue.hotcue as u128).as_str());
        r
    }

    /// The filter graph of the cross-fade: input `0` is track A, input `1`
    /// is track B, the result is pad `out`.
    pub fn complex_filter(&self) -> (r: Vec<String>)
        requires
            self.wf(),
        ensures
            texts(r@) == self.filters_spec(),
    {
        let w = match self.window() {
            Ok(w) => w,
            Err(_) => CrossFadeWindow { a_start: 0, a_length: 0, b_start: 0, b_length: 0 },
        };
        let a_scale = match scale(self.a.bpm, self.bpm) {
            Ok(s) => s,
            Err(_) => 0,
        };
        let b_scale = match scale(self.b.bpm, self.bpm) {
            Ok(s) => s,
            Err(_) => 0,
        };
        let a_start = micros_to_text(w.a_start);
        let a_length = micros_to_text(w.a_length);
        let b_start = micros_to_text(w.b_start);
        let b_length = micros_to_text(w.b_length);
        let mut f0 = String::from_str("[0] atrim=start=");
        f0.append(a_start.as_str());
        f0.append(":duration=");
        f0.append(a_length.as_str());
        f0.append(",asetpts=PTS-STARTPTS [0_1]");
        let mut f1 = String::from_str("[0_1] afade=t=out:st=0:duration=");
        f1.append(a_length.as_str());
        f1.append(":curve=tri [0_2]");
        let f2 = String::from_str("[0_2] loudnorm [0_3]");
        let f3 = String::from_str("[0_3] equalizer=f=300:t=h:width=200:g=-10 [0_4]");
        let mut f4 = String::from_str("[0_4] atempo=");
        f4.append(rate_to_text(a_scale).as_str());
        f4.append(" [0_out]");
        let mut f5 = String::from_str("[1] atrim=start=");
        f5.append(b_start.as_str());
        f5.append(":duration=");
        f5.append(b_length.as_str());
        f5.append(",asetpts=PTS-STARTPTS [1_1]");
        let mut f6 = String::from_str("[1_1] afade=t=in:st=0:duration=");
        f6.append(b_length.as_str());
        f6.append(":curve=tri [1_2]");
        let f7 = String::from_str("[1_2] loudnorm [1_3]");
        let mut f8 = String::from_str("[1_3] atempo=");
        f8.append(rate_to_text(b_scale).as_str());
        f8.append(" [1_out]");
        let f9 = String::from_str("[0_out][1_out] amix=duration=longest [out]");
        let r = vec![f0, f1, f2, f3, f4, f5, f6, f7, f8, f9];
        assert(texts(r@) =~= self.filters_spec());
        r
    }

    /// How far the clamp moved both starts forward (zero when neither side
    /// starts before its clip), or why there is no cross-fade.
    pub fn clamped_by(&self) -> (r: Result<i64, MixError>)
        ensures
            match cross_fade_error(self.a, self.a_cue, self.b, self.b_cue, self.crossfade, self.bpm) {
                Some(e) => r == Err::<i64, MixError>(e),
                None => {
                    let (sa, la, sb, lb) = raw_window(self.a, self.a_cue, self.b, self.b_cue, self.crossfade);
                    r == Ok::<i64, MixError>(clamp_shift(sa, sb) as i64)
                },
            },
    {
        let w = match self.window() {
            Ok(w) => w,
            Err(e) => return Err(e),
        };
        let a_start = match cue_at(&self.a, &self.a_cue, 0) {
            Ok(t) => t,
            Err(e) => return Err(e),
        };
        Ok(w.a_start - a_start)
    }

    /// The engine invocation that renders the cross-fade into `out`. Fails,
    /// before anything is rendered, exactly as `window` does.
    pub fn execute(&self, out: &str) -> (r: Result<Vec<String>, MixError>)
        ensures
            match cross_fade_error(self.a, self.a_cue, self.b, self.b_cue, self.crossfade, self.bpm) {
                Some(e) => r == Err::<Vec<String>, MixError>(e),
                None => r matches Ok(v) && texts(v@) == engine_args(
                    input_args(seq![self.a_path@, self.b_path@]) + seq![
                        "-filter_complex"@,
                        join(self.filters_spec(), ";"@),
                        "-map"@,
                        "[out]"@,
                        out@,
                    ],
                ),
            },
    {
        match self.window() {
            Ok(_) => {},
            Err(e) => return Err(e),
        }
        let inputs = vec![self.a_path.clone(), self.b_path.clone()];
        assert(texts(inputs@) =~= seq![self.a_path@, self.b_path@]);
        Ok(ffmpeg_complex_filter(inputs, out, self.complex_filter()))
    }
}

} // verus!
