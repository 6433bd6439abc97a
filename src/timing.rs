//! Cue times and tempo ratios.
use vstd::prelude::*;
use vstd::arithmetic::div_mod::*;
use vstd::arithmetic::mul::*;
use crate::error::MixError;
use crate::records::{Cue, Library};
use crate::text::{MICRO, NANO};

verus! {

/// Microseconds in one beat at one thousandth of a beat per minute,
/// times two (a position counts two samples per frame).
pub const BEAT_NUMERATOR: i128 = 120_000_000_000;

/// Time of a sample position in microseconds, rounded down: the position
/// counts two samples per frame of `samplerate` frames per second.
pub open spec fn position_micros(position: int, samplerate: int) -> int {
    position * MICRO as int / (2 * samplerate)
}

/// Time in microseconds, rounded down, of `offset` beats after a sample
/// position, at `bpm` thousandths of a beat per minute:
/// `MICRO * (position / (2 * samplerate) + 60 * 1000 * offset / bpm)`.
pub open spec fn resolve_micros(position: int, samplerate: int, bpm: int, offset: int) -> int {
    (position * MICRO as int * bpm + BEAT_NUMERATOR as int * samplerate * offset) / (2
        * samplerate * bpm)
}

/// The playback-rate ratio, in billionths and rounded down, that retunes
/// `source` to `target` (both in thousandths of a beat per minute).
pub open spec fn scale_ratio(source: int, target: int) -> int {
    target * NANO as int / source
}

/// Linear interpolation from `a` to `b` at the fraction `k / n`, rounded
/// down.
pub open spec fn lerp(a: int, b: int, k: int, n: int) -> int {
    a + (b - a) * k / n
}

pub open spec fn fits_i64(v: int) -> bool {
    i64::MIN <= v <= i64::MAX
}

/// Seconds (as microseconds) at `offset_beats` beats after a cue, in the
/// track's native tempo.
pub fn cue_at(library: &Library, cue: &Cue, offset_beats: i32) -> (r: Result<i64, MixError>)
    ensures
        library.bpm == 0 || library.samplerate == 0 ==> r == Err::<i64, MixError>(
            MixError::InvalidParameter,
        ),
        library.bpm > 0 && library.samplerate > 0 ==> {
            let v = resolve_micros(
                cue.position as int,
                library.samplerate as int,
                library.bpm as int,
                offset_beats as int,
            );
            if fits_i64(v) {
                r == Ok::<i64, MixError>(v as i64)
            } else {
                r == Err::<i64, MixError>(MixError::InvalidParameter)
            }
        },
        library.bpm > 0 && library.samplerate > 0 && offset_beats == 0 && fits_i64(
            position_micros(cue.position as int, library.samplerate as int),
        ) ==> r == Ok::<i64, MixError>(
            position_micros(cue.position as int, library.samplerate as int) as i64,
        ),
{
    if library.bpm == 0 || library.samplerate == 0 {
        return Err(MixError::InvalidParameter);
    }
    proof {
        lemma_resolve_zero_offset(
            cue.position as int,
            library.samplerate as int,
            library.bpm as int,
        );
    }
    let p = cue.position as i128;
    let b = library.bpm as i128;
    let sr = library.samplerate as i128;
    let k = offset_beats as i128;
    proof {
        assert(-0x8000_0000_0000_0000 * 1_000_000 <= p * 1_000_000 <= 0x8000_0000_0000_0000
            * 1_000_000) by (nonlinear_arith)
            requires
                -0x8000_0000_0000_0000 <= p <= 0x8000_0000_0000_0000,
        ;
        let pm = p * 1_000_000;
        assert(-0x8000_0000_0000_0000 * 1_000_000 * 0x1_0000_0000 <= pm * b <= 0x8000_0000_0000_0000
            * 1_000_000 * 0x1_0000_0000) by (nonlinear_arith)
            requires
                -0x8000_0000_0000_0000 * 1_000_000 <= pm <= 0x8000_0000_0000_0000 * 1_000_000,
                0 <= b <= 0x1_0000_0000,
        ;
        assert(0 <= 120_000_000_000 * sr <= 120_000_000_000 * 0x1_0000_0000) by (nonlinear_arith)
            requires
                0 <= sr <= 0x1_0000_0000,
        ;
        let bs = 120_000_000_000 * sr;
        assert(-120_000_000_000 * 0x1_0000_0000 * 0x8000_0000 <= bs * k <= 120_000_000_000
            * 0x1_0000_0000 * 0x8000_0000) by (nonlinear_arith)
            requires
                0 <= bs <= 120_000_000_000 * 0x1_0000_0000,
                -0x8000_0000 <= k <= 0x8000_0000,
        ;
        assert(0 < 2 * sr * b <= 2 * 0x1_0000_0000 * 0x1_0000_0000) by (nonlinear_arith)
            requires
                0 < sr <= 0x1_0000_0000,
                0 < b <= 0x1_0000_0000,
        ;
    }
    let num = p * 1_000_000 * b + BEAT_NUMERATOR * sr * k;
    let den = 2 * sr * b;
    proof {
        assert(num == cue.position as int * MICRO as int * library.bpm as int + BEAT_NUMERATOR as int
            * library.samplerate as int * offset_beats as int) by (nonlinear_arith)
            requires
                p == cue.position,
                b == library.bpm,
                sr == library.samplerate,
                k == offset_beats,
                MICRO == 1_000_000,
                num == p * 1_000_000 * b + BEAT_NUMERATOR * sr * k,
        ;
        assert(den == 2 * library.samplerate as int * library.bpm as int);
        lemma_div_is_ordered_by_denominator(if num >= 0 { num as int } else { -num as int }, 1, den as int);
    }
    match num.checked_div_euclid(den) {
        Some(q) => {
            if q < i64::MIN as i128 || q > i64::MAX as i128 {
                Err(MixError::InvalidParameter)
            } else {
                Ok(q as i64)
            }
        },
        None => Err(MixError::InvalidParameter),
    }
}

/// The playback-rate ratio, in billionths, that retunes `source_bpm` to
/// `target_bpm`: above one billion speeds the source up.
pub fn scale(source_bpm: u32, target_bpm: u32) -> (r: Result<u64, MixError>)
    ensures
        source_bpm == 0 ==> r == Err::<u64, MixError>(MixError::InvalidParameter),
        source_bpm > 0 ==> r == Ok::<u64, MixError>(
            scale_ratio(source_bpm as int, target_bpm as int) as u64,
        ),
{
    if source_bpm == 0 {
        return Err(MixError::InvalidParameter);
    }
    proof {
        assert(target_bpm as int * 1_000_000_000 <= 0x1_0000_0000 * 1_000_000_000) by (nonlinear_arith)
            requires
                target_bpm <= 0x1_0000_0000,
        ;
        lemma_div_is_ordered_by_denominator(target_bpm as int * 1_000_000_000, 1, source_bpm as int);
    }
    Ok((target_bpm as u64 * NANO) / source_bpm as u64)
}

/// A cue's time at zero beats from it is its own position's time, for any
/// positive tempo.
pub proof fn lemma_resolve_zero_offset(position: int, samplerate: int, bpm: int)
    requires
        samplerate > 0,
        bpm > 0,
    ensures
        resolve_micros(position, samplerate, bpm, 0) == position_micros(position, samplerate),
{
    let x = position * MICRO as int;
    let d = 2 * samplerate;
    assert(x * bpm + BEAT_NUMERATOR as int * samplerate * 0 == x * bpm) by (nonlinear_arith);
    assert(d * bpm == 2 * samplerate * bpm) by (nonlinear_arith)
        requires
            d == 2 * samplerate,
    ;
    assert(position * MICRO as int * bpm == x * bpm);
    lemma_div_by_multiple_vanish_general(x, d, bpm);
}

proof fn lemma_div_by_multiple_vanish_general(x: int, d: int, b: int)
    requires
        d > 0,
        b > 0,
    ensures
        (x * b) / (d * b) == x / d,
{
    let q = x / d;
    let r = x % d;
    lemma_fundamental_div_mod(x, d);
    assert(x * b == q * (d * b) + r * b) by (nonlinear_arith)
        requires
            x == d * q + r,
    ;
    assert(0 <= r * b < d * b) by (nonlinear_arith)
        requires
            0 <= r < d,
            b > 0,
    ;
    lemma_fundamental_div_mod_converse(x * b, d * b, q, r * b);
}

proof fn lemma_expand_product(t: int, s: int, m: int, e1: int, e2: int)
    ensures
        (t * m - e1) * (s * m - e2) == m * m * s * t - e2 * t * m - e1 * s * m + e1 * e2,
{
    let a = t * m;
    let c = s * m;
    assert((a - e1) * (c - e2) == a * c - a * e2 - e1 * c + e1 * e2) by (nonlinear_arith);
    assert(a * c == m * m * s * t) by (nonlinear_arith)
        requires
            a == t * m,
            c == s * m,
    ;
    assert(a * e2 == e2 * t * m) by (nonlinear_arith)
        requires
            a == t * m,
    ;
    assert(e1 * c == e1 * s * m) by (nonlinear_arith)
        requires
            c == s * m,
    ;
}

/// Retuning `s` to `t` and `t` back to `s` composes to the identity up to
/// rounding: the product of the two ratios never exceeds one (10^18
/// billionths squared), and falls short of it by less than
/// `NANO * (s/t + t/s)` billionths squared, that is by less than
/// `(s/t + t/s) / 10^9`; for tempi within a factor 500 of each other, by
/// at most one millionth.
pub proof fn lemma_scale_round_trip(s: int, t: int)
    requires
        s > 0,
        t > 0,
    ensures
        scale_ratio(s, t) * scale_ratio(t, s) <= NANO * NANO,
        (NANO * NANO - scale_ratio(s, t) * scale_ratio(t, s)) * s * t < NANO as int * (s * s
            + t * t),
        s <= 500 * t && t <= 500 * s ==> NANO * NANO - scale_ratio(s, t) * scale_ratio(t, s)
            <= NANO * 1000,
{
    let m = NANO as int;
    let x = scale_ratio(s, t);
    let y = scale_ratio(t, s);
    lemma_fundamental_div_mod(t * m, s);
    lemma_fundamental_div_mod(s * m, t);
    let e1 = (t * m) % s;
    let e2 = (s * m) % t;
    assert(t * m == s * x + e1);
    assert(s * m == t * y + e2);
    assert(0 <= e1 < s);
    assert(0 <= e2 < t);
    assert(x >= 0) by {
        lemma_div_pos_is_pos(t * m, s);
    }
    assert(y >= 0) by {
        lemma_div_pos_is_pos(s * m, t);
    }
    assert(x * y * s * t == (t * m - e1) * (s * m - e2)) by (nonlinear_arith)
        requires
            t * m == s * x + e1,
            s * m == t * y + e2,
    ;
    assert(x * y <= m * m) by (nonlinear_arith)
        requires
            x * y * s * t == (t * m - e1) * (s * m - e2),
            0 <= e1,
            0 <= e2,
            x >= 0,
            y >= 0,
            s > 0,
            t > 0,
            m > 0,
            t * m == s * x + e1,
            s * m == t * y + e2,
    ;
    lemma_expand_product(t, s, m, e1, e2);
    lemma_mul_is_distributive_sub_other_way(s * t, m * m, x * y);
    assert((m * m - x * y) * s * t == (m * m - x * y) * (s * t)) by {
        lemma_mul_is_associative(m * m - x * y, s, t);
    }
    assert(x * y * s * t == (x * y) * (s * t)) by {
        lemma_mul_is_associative(x * y, s, t);
    }
    assert(m * m * s * t == (m * m) * (s * t)) by {
        lemma_mul_is_associative(m * m, s, t);
    }
    assert(e2 * t * m + e1 * s * m - e1 * e2 < m * (s * s + t * t)) by (nonlinear_arith)
        requires
            0 <= e1 < s,
            0 <= e2 < t,
            m > 0,
    ;
    if s <= 500 * t && t <= 500 * s {
        let d = m * m - x * y;
        assert(d * s * t < m * (s * s + t * t));
        assert(d <= m * 1000) by (nonlinear_arith)
            requires
                d * s * t < m * (s * s + t * t),
                s <= 500 * t,
                t <= 500 * s,
                s > 0,
                t > 0,
                m > 0,
        ;
    }
}

} // verus!
