use mixxx_mix::cross_fade::{clamp_window, CrossFadeCommand, CrossFadeWindow};
use mixxx_mix::error::MixError;
use mixxx_mix::ffmpeg::{concat_cmd, ffmpeg_complex_filter, slice_cmd};
use mixxx_mix::mix::{MixList, MixOp, MixTrack};
use mixxx_mix::records::{get_hotcue, get_track, Catalog, Cue, CueType, Library, TrackLocation};
use mixxx_mix::slice::SliceCommand;

const SR: u32 = 44_100;

fn secs(s: i64) -> i64 {
    s * 2 * SR as i64
}

fn library(id: i32, bpm: u32) -> Library {
    Library {
        id,
        artist: Some(format!("Artist {}", id)),
        title: format!("Title {}", id),
        bpm,
        samplerate: SR,
    }
}

fn location(id: i32) -> TrackLocation {
    TrackLocation {
        id,
        location: format!("/music/{}.mp3", id),
        filename: format!("{}.mp3", id),
        directory: "/music".to_string(),
        filesize: 1000,
    }
}

fn hot(id: i32, track_id: i32, hotcue: u8, at_secs: i64) -> Cue {
    Cue {
        id,
        track_id,
        cue_type: CueType::HotCue,
        position: secs(at_secs),
        length: 0,
        hotcue,
    }
}

fn catalog() -> Catalog {
    Catalog {
        tracks: vec![library(1, 120_000), library(2, 126_000), library(3, 128_000)],
        locations: vec![location(1), location(2), location(3)],
        cues: vec![
            hot(10, 1, 0, 10),
            hot(11, 1, 1, 70),
            hot(20, 2, 0, 5),
            hot(21, 2, 1, 60),
            hot(30, 3, 0, 2),
            hot(31, 3, 1, 50),
            Cue { id: 32, track_id: 3, cue_type: CueType::MainCue, position: 0, length: 0, hotcue: 2 },
        ],
        playlists: vec![],
        playlist_tracks: vec![],
    }
}

fn row(id: i32, bpm: Option<u32>, to_bpm: Option<u32>, crossfade: u32) -> MixTrack {
    MixTrack::new(id as u64, id, format!("Title {}", id), 0, 0, 1, bpm, to_bpm, crossfade)
}

fn strings(v: &[&str]) -> Vec<String> {
    v.iter().map(|s| s.to_string()).collect()
}

#[test]
fn lookups_report_what_is_missing() {
    let c = catalog();
    let (path, lib) = get_track(&c, 2).unwrap();
    assert_eq!(path, "/music/2.mp3");
    assert_eq!(lib.bpm, 126_000);
    assert_eq!(get_track(&c, 9).unwrap_err(), MixError::TrackNotFound(9));
    let mut no_loc = catalog();
    no_loc.locations.pop();
    assert_eq!(get_track(&no_loc, 3).unwrap_err(), MixError::LocationNotFound(3));
    assert_eq!(get_hotcue(&c, 3, 1).unwrap().id, 31);
    // A main cue is no hot cue.
    assert_eq!(get_hotcue(&c, 3, 2), Err(MixError::CueNotFound(3, 2)));
}

#[test]
fn slice_renders_constant_tempo_between_cues() {
    let c = catalog();
    let s = SliceCommand::new(&c, 1, 0, 0, 1, 0, 120_000, None).unwrap();
    assert_eq!(s.id(), "slice_1_0-1");
    let args = s.execute("slice_1_0-1.mp3").unwrap();
    let graph = [
        "[0]asplit=1 [stf_1]",
        "[stf_1] atrim=0.000000:60.000000,asetpts=N/SR/TB [stf_2]",
        "[stf_2] atempo=1.000000000 [stf_3]",
        "[stf_3] concat=n=1:v=0:a=1 [a]",
        "[a] loudnorm",
    ]
    .join(";");
    assert_eq!(
        args,
        strings(&[
            "-loglevel", "verbose", "-y", "-ss", "10.000000", "-to", "70.000000", "-i",
            "/music/1.mp3", "-filter_complex", &graph, "slice_1_0-1.mp3",
        ])
    );
}

#[test]
fn slice_with_target_tempo_ramps_in_four_steps() {
    let c = catalog();
    let s = SliceCommand::new(&c, 2, 0, 8, 1, 0, 120_000, Some(126_000)).unwrap();
    let args = s.execute("b.mp3").unwrap();
    assert_eq!(args[4], "8.809523");
    assert_eq!(args[6], "60.000000");
    let graph: Vec<&str> = args[10].split(';').collect();
    assert_eq!(graph.len(), 11);
    assert_eq!(graph[0], "[0]asplit=4 [stf_1][stf_4][stf_7][stf_10]");
    assert_eq!(graph[1], "[stf_1] atrim=0.000000:12.797619,asetpts=N/SR/TB [stf_2]");
    assert_eq!(graph[2], "[stf_2] atempo=0.952380952 [stf_3]");
    assert_eq!(graph[4], "[stf_5] atempo=0.964285714 [stf_6]");
    assert_eq!(graph[6], "[stf_8] atempo=0.976190476 [stf_9]");
    assert_eq!(graph[7], "[stf_10] atrim=38.392857:51.190477,asetpts=N/SR/TB [stf_11]");
    assert_eq!(graph[8], "[stf_11] atempo=0.988095238 [stf_12]");
    assert_eq!(graph[9], "[stf_3][stf_6][stf_9][stf_12] concat=n=4:v=0:a=1 [a]");
    assert_eq!(graph[10], "[a] loudnorm");
}

#[test]
fn slice_errors() {
    let c = catalog();
    assert_eq!(
        SliceCommand::new(&c, 1, 1, 0, 0, 0, 120_000, None).unwrap_err(),
        MixError::InvalidRange
    );
    assert_eq!(
        SliceCommand::new(&c, 1, 0, 0, 0, 0, 120_000, None).unwrap_err(),
        MixError::InvalidRange
    );
    assert_eq!(
        SliceCommand::new(&c, 1, 0, 0, 1, 0, 0, None).unwrap_err(),
        MixError::InvalidParameter
    );
    assert_eq!(
        SliceCommand::new(&c, 1, 0, 0, 1, 0, 120_000, Some(0)).unwrap_err(),
        MixError::InvalidParameter
    );
    assert_eq!(
        SliceCommand::new(&c, 1, 0, 0, 7, 0, 120_000, None).unwrap_err(),
        MixError::CueNotFound(1, 7)
    );
    assert_eq!(
        SliceCommand::new(&c, 5, 0, 0, 1, 0, 120_000, None).unwrap_err(),
        MixError::TrackNotFound(5)
    );
    // A slice assembled by hand fails before any engine arguments.
    let mut s = SliceCommand::new(&c, 1, 0, 0, 1, 0, 120_000, None).unwrap();
    s.to.1 = -200;
    assert_eq!(s.execute("o.mp3"), Err(MixError::InvalidRange));
    s.to.1 = 0;
    s.a.bpm = 0;
    assert_eq!(s.execute("o.mp3"), Err(MixError::InvalidParameter));
    let mut x = CrossFadeCommand::new(&c, 1, 1, 2, 0, 8, 120_000).unwrap();
    x.crossfade = 0;
    assert_eq!(x.execute("o.mp3"), Err(MixError::InvalidRange));
}

#[test]
fn cross_fade_filter_graph() {
    let c = catalog();
    let x = CrossFadeCommand::new(&c, 1, 1, 2, 0, 8, 120_000).unwrap();
    assert_eq!(x.id(), "crossfade_1-1_2-0");
    let filters = x.complex_filter();
    assert_eq!(
        filters,
        strings(&[
            "[0] atrim=start=70.000000:duration=4.000000,asetpts=PTS-STARTPTS [0_1]",
            "[0_1] afade=t=out:st=0:duration=4.000000:curve=tri [0_2]",
            "[0_2] loudnorm [0_3]",
            "[0_3] equalizer=f=300:t=h:width=200:g=-10 [0_4]",
            "[0_4] atempo=1.000000000 [0_out]",
            "[1] atrim=start=5.000000:duration=3.809523,asetpts=PTS-STARTPTS [1_1]",
            "[1_1] afade=t=in:st=0:duration=3.809523:curve=tri [1_2]",
            "[1_2] loudnorm [1_3]",
            "[1_3] atempo=0.952380952 [1_out]",
            "[0_out][1_out] amix=duration=longest [out]",
        ])
    );
    assert_eq!(x.clamped_by(), Ok(0));
    let args = x.execute("x.mp3").unwrap();
    assert_eq!(&args[3..7], &strings(&["-i", "/music/1.mp3", "-i", "/music/2.mp3"])[..]);
    assert_eq!(args[7], "-filter_complex");
    assert_eq!(args[8], filters.join(";"));
    assert_eq!(&args[9..], &strings(&["-map", "[out]", "x.mp3"])[..]);
}

#[test]
fn cross_fade_negative_margin_is_clamped() {
    let w = clamp_window(1_000_000, 4_000_000, -500_000, 4_000_000).unwrap();
    assert_eq!(
        w,
        CrossFadeWindow { a_start: 1_500_000, a_length: 3_500_000, b_start: 0, b_length: 3_500_000 }
    );
    let w = clamp_window(-250_000, 2_000_000, 3_000_000, 1_000_000).unwrap();
    assert_eq!(
        w,
        CrossFadeWindow { a_start: 0, a_length: 1_750_000, b_start: 3_250_000, b_length: 750_000 }
    );
    let w = clamp_window(10, 20, 30, 40).unwrap();
    assert_eq!(w, CrossFadeWindow { a_start: 10, a_length: 20, b_start: 30, b_length: 40 });
    assert_eq!(clamp_window(i64::MAX, 1, -1, 1), None);
}

#[test]
fn cross_fade_with_cue_before_clip_start() {
    let mut c = catalog();
    c.cues.push(Cue { id: 40, track_id: 2, cue_type: CueType::HotCue, position: -secs(1), length: 0, hotcue: 5 });
    let x = CrossFadeCommand::new(&c, 1, 1, 2, 5, 8, 120_000).unwrap();
    let w = x.window().unwrap();
    assert_eq!(x.clamped_by(), Ok(1_000_000));
    assert_eq!(
        w,
        CrossFadeWindow { a_start: 71_000_000, a_length: 3_000_000, b_start: 0, b_length: 2_809_523 }
    );
    // A margin longer than the cross-fade leaves nothing to blend.
    c.cues.push(Cue { id: 41, track_id: 2, cue_type: CueType::HotCue, position: -secs(10), length: 0, hotcue: 6 });
    assert_eq!(
        CrossFadeCommand::new(&c, 1, 1, 2, 6, 8, 120_000).unwrap_err(),
        MixError::InvalidRange
    );
    assert_eq!(
        CrossFadeCommand::new(&c, 1, 1, 2, 0, 0, 120_000).unwrap_err(),
        MixError::InvalidRange
    );
    assert_eq!(
        CrossFadeCommand::new(&c, 1, 1, 2, 0, 8, 0).unwrap_err(),
        MixError::InvalidParameter
    );
}

#[test]
fn plan_of_three_tracks_in_order() {
    let c = catalog();
    let rows = vec![
        row(1, Some(120_000), None, 8),
        row(2, None, Some(126_000), 4),
        row(3, None, None, 0),
    ];
    let plan = MixList::from_tracks(&c, &rows).unwrap();
    let names: Vec<String> = plan.ops.iter().map(|op| op.output_file()).collect();
    assert_eq!(
        names,
        strings(&[
            "slice_1_0-1.mp3",
            "crossfade_1-1_2-0.mp3",
            "slice_2_0-1.mp3",
            "crossfade_2-1_3-0.mp3",
            "slice_3_0-1.mp3",
        ])
    );
    match &plan.ops[2] {
        MixOp::Slice(s) => {
            assert_eq!(s.from.1, 8);
            assert_eq!(s.bpm, 120_000);
            assert_eq!(s.to_bpm, Some(126_000));
        }
        MixOp::CrossFade(_) => panic!("expected a slice"),
    }
    match &plan.ops[3] {
        MixOp::CrossFade(x) => {
            assert_eq!(x.bpm, 126_000);
            assert_eq!(x.crossfade, 4);
        }
        MixOp::Slice(_) => panic!("expected a cross-fade"),
    }
    match &plan.ops[4] {
        MixOp::Slice(s) => {
            // The rest of the last track starts after the last cross-fade.
            assert_eq!(s.from.1, 4);
            assert_eq!(s.to.1, 0);
            assert_eq!(s.bpm, 126_000);
            assert_eq!(s.to_bpm, None);
        }
        MixOp::CrossFade(_) => panic!("expected a slice"),
    }
    assert_eq!(
        plan.file_list(),
        "file 'slice_1_0-1.mp3'\nfile 'crossfade_1-1_2-0.mp3'\nfile 'slice_2_0-1.mp3'\nfile 'crossfade_2-1_3-0.mp3'\nfile 'slice_3_0-1.mp3'"
    );
}

#[test]
fn hard_cut_skips_cross_fade_and_trailing_slice() {
    let c = catalog();
    let rows = vec![row(1, Some(120_000), None, 0), row(2, None, None, 0)];
    let plan = MixList::from_tracks(&c, &rows).unwrap();
    assert_eq!(plan.ops.len(), 1);
    assert_eq!(plan.ops[0].output_file(), "slice_1_0-1.mp3");
}

#[test]
fn plan_needs_initial_tempo_and_cues() {
    let c = catalog();
    let rows = vec![row(1, None, None, 8), row(2, None, None, 0)];
    assert_eq!(MixList::from_tracks(&c, &rows).unwrap_err(), MixError::InvalidParameter);
    let mut rows = vec![row(1, Some(120_000), None, 8), row(2, None, None, 0)];
    rows[1].begin_hotcue = 5;
    assert_eq!(MixList::from_tracks(&c, &rows).unwrap_err(), MixError::CueNotFound(2, 5));
}

#[test]
fn second_run_renders_nothing() {
    let c = catalog();
    let rows = vec![
        row(1, Some(120_000), None, 8),
        row(2, None, Some(126_000), 4),
        row(3, None, None, 0),
    ];
    let plan = MixList::from_tracks(&c, &rows).unwrap();
    let first = plan.execute(&vec![false; 5], false);
    assert_eq!(first.render, vec![0, 1, 2, 3, 4]);
    assert!(first.concat);
    let partial = plan.execute(&vec![true, true, false, true, false], false);
    assert_eq!(partial.render, vec![2, 4]);
    let second = plan.execute(&vec![true; 5], true);
    assert!(second.render.is_empty());
    assert!(!second.concat);
    assert_eq!(second.file_list, first.file_list);
}

#[test]
fn repeated_operation_renders_once() {
    let c = catalog();
    let s1 = SliceCommand::new(&c, 1, 0, 0, 1, 0, 120_000, None).unwrap();
    let s2 = SliceCommand::new(&c, 1, 0, 0, 1, 0, 120_000, None).unwrap();
    let plan = MixList { ops: vec![MixOp::Slice(s1), MixOp::Slice(s2)] };
    assert_eq!(plan.execute(&vec![false, false], false).render, vec![0]);
}

#[test]
fn engine_argument_lists() {
    assert_eq!(
        concat_cmd("./filelist.txt", "mix.mp3"),
        strings(&["-loglevel", "verbose", "-y", "-f", "concat", "-i", "./filelist.txt", "mix.mp3"])
    );
    assert_eq!(
        ffmpeg_complex_filter(strings(&["a.mp3", "b.mp3"]), "o.mp3", strings(&["[0] x [y]", "[y] z [out]"])),
        strings(&[
            "-loglevel", "verbose", "-y", "-i", "a.mp3", "-i", "b.mp3", "-filter_complex",
            "[0] x [y];[y] z [out]", "-map", "[out]", "o.mp3",
        ])
    );
    assert_eq!(
        slice_cmd("a.mp3", &strings(&["f"]), (-500_000, 2_000_000), "o.mp3"),
        strings(&[
            "-loglevel", "verbose", "-y", "-ss", "-0.500000", "-to", "2.000000", "-i", "a.mp3",
            "-filter_complex", "f", "o.mp3",
        ])
    );
}
