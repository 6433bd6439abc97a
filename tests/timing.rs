use mixxx_mix::error::MixError;
use mixxx_mix::records::{Cue, CueType, Library};
use mixxx_mix::text::{micros_to_text, millis_to_text, nat_text, rate_to_text, signed_text, tenths_to_text};
use mixxx_mix::timing::{cue_at, scale};

fn track(bpm: u32, samplerate: u32) -> Library {
    Library {
        id: 7,
        artist: None,
        title: "Track".to_string(),
        bpm,
        samplerate,
    }
}

fn cue(position: i64) -> Cue {
    Cue {
        id: 1,
        track_id: 7,
        cue_type: CueType::HotCue,
        position,
        length: 0,
        hotcue: 0,
    }
}

#[test]
fn decimal_texts() {
    assert_eq!(nat_text(0), "0");
    assert_eq!(nat_text(1234), "1234");
    assert_eq!(signed_text(-42), "-42");
    assert_eq!(micros_to_text(-1_500_000), "-1.500000");
    assert_eq!(micros_to_text(12_000_345), "12.000345");
    assert_eq!(micros_to_text(0), "0.000000");
    assert_eq!(rate_to_text(1_200_000_000), "1.200000000");
    assert_eq!(rate_to_text(300_001_500), "0.300001500");
    assert_eq!(millis_to_text(128_500), "128.500");
    assert_eq!(tenths_to_text(1_250_000), "1.3s");
    assert_eq!(tenths_to_text(1_249_999), "1.2s");
}

#[test]
fn cue_time_at_zero_offset_is_position_time() {
    // 88200 samples at 44100 frames/s, two samples per frame: one second.
    for bpm in [1u32, 90_000, 128_000, 174_500] {
        assert_eq!(cue_at(&track(bpm, 44_100), &cue(88_200), 0), Ok(1_000_000));
    }
    assert_eq!(cue_at(&track(120_000, 48_000), &cue(-96_000), 0), Ok(-1_000_000));
}

#[test]
fn cue_time_adds_whole_beats() {
    // At 120 BPM a beat lasts half a second.
    let lib = track(120_000, 44_100);
    assert_eq!(cue_at(&lib, &cue(88_200), 4), Ok(3_000_000));
    assert_eq!(cue_at(&lib, &cue(88_200), -4), Ok(-1_000_000));
    // At 128 BPM a beat lasts 468750 microseconds.
    assert_eq!(cue_at(&track(128_000, 44_100), &cue(0), 1), Ok(468_750));
}

#[test]
fn cue_time_rejects_non_positive_tempo() {
    assert_eq!(cue_at(&track(0, 44_100), &cue(0), 0), Err(MixError::InvalidParameter));
    assert_eq!(cue_at(&track(120_000, 0), &cue(0), 0), Err(MixError::InvalidParameter));
}

#[test]
fn cue_time_rejects_unrepresentable_times() {
    assert_eq!(
        cue_at(&track(120_000, 1), &cue(i64::MAX), 0),
        Err(MixError::InvalidParameter)
    );
}

#[test]
fn scale_is_target_over_source() {
    assert_eq!(scale(128_000, 120_000), Ok(937_500_000));
    assert_eq!(scale(120_000, 126_000), Ok(1_050_000_000));
    assert_eq!(scale(100_000, 100_000), Ok(1_000_000_000));
    assert_eq!(scale(199_999, 60_000), Ok(300_001_500));
    assert_eq!(scale(0, 120_000), Err(MixError::InvalidParameter));
}

#[test]
fn scale_round_trip_is_one_within_rounding() {
    for (s, t) in [
        (128_000u32, 120_000u32),
        (120_000, 126_000),
        (174_000, 87_000),
        (97_123, 131_007),
        (199_999, 60_000),
    ] {
        let x = scale(s, t).unwrap() as u128;
        let y = scale(t, s).unwrap() as u128;
        let one = 1_000_000_000u128 * 1_000_000_000;
        assert!(x * y <= one);
        // Within one millionth of one.
        assert!(one - x * y <= 1_000_000_000_000);
        let (s, t) = (s as u128, t as u128);
        assert!((one - x * y) * s * t < 1_000_000_000 * (s * s + t * t));
    }
    assert_eq!(scale(100_000, 125_000).unwrap() * scale(125_000, 100_000).unwrap(), 1_000_000_000_000_000_000);
}
