use mixxx_mix::error::MixError;
use mixxx_mix::playlist::{fetch_playlist, fetch_track, playlist_header, playlist_rows, TrackModel};
use mixxx_mix::records::{Catalog, Cue, CueType, Library, Playlist, PlaylistTrack};
use mixxx_mix::tag::tag_mismatch;

fn cue(id: i32, track_id: i32, hotcue: u8, position: i64) -> Cue {
    Cue { id, track_id, cue_type: CueType::HotCue, position, length: 0, hotcue }
}

fn catalog() -> Catalog {
    Catalog {
        tracks: vec![
            Library {
                id: 1,
                artist: Some("An Artist With A Long Name".to_string()),
                title: "A Title That Is Longer Than Twenty-Five".to_string(),
                bpm: 127_950,
                samplerate: 44_100,
            },
            Library { id: 2, artist: None, title: "Short".to_string(), bpm: 120_000, samplerate: 48_000 },
        ],
        locations: vec![],
        cues: vec![
            cue(1, 1, 3, 882_000),
            cue(2, 1, 0, 88_200),
            cue(3, 1, 3, 1_764_000),
            cue(4, 1, 1, -10),
            Cue { id: 5, track_id: 1, cue_type: CueType::Loop, position: 0, length: 5, hotcue: 2 },
            cue(6, 2, 0, 96_000),
        ],
        playlists: vec![Playlist {
            id: 4,
            name: "Friday".to_string(),
            position: 0,
            hidden: 0,
            date_created: 0,
            locked: false,
        }],
        playlist_tracks: vec![
            PlaylistTrack { id: 1, playlist_id: 4, track_id: 2, position: 1 },
            PlaylistTrack { id: 2, playlist_id: 9, track_id: 1, position: 1 },
            PlaylistTrack { id: 3, playlist_id: 4, track_id: 1, position: 2 },
        ],
    }
}

#[test]
fn track_lists_hot_cues_by_index() {
    let c = catalog();
    let t = fetch_track(&c, &c.playlist_tracks[2]).unwrap();
    assert_eq!(t.track_id, 1);
    assert_eq!(t.position, 2);
    // The later record of hot cue 3 wins; negative positions count as zero.
    assert_eq!(t.cues, vec![(0, 1_000_000), (1, 0), (3, 20_000_000)]);
    assert_eq!(t.first_hotcue(), Some(1));
    assert_eq!(t.last_hotcue(), Some(3));
}

#[test]
fn first_and_last_hotcue_break_ties() {
    let mut t = TrackModel {
        track_id: 1,
        position: 1,
        title: String::new(),
        artist: None,
        bpm: 0,
        cues: vec![(0, 5), (2, 1), (4, 1), (6, 5)],
    };
    assert_eq!(t.first_hotcue(), Some(2));
    assert_eq!(t.last_hotcue(), Some(6));
    t.cues.clear();
    assert_eq!(t.first_hotcue(), None);
    assert_eq!(t.last_hotcue(), None);
}

#[test]
fn playlist_keeps_entry_order() {
    let c = catalog();
    let p = fetch_playlist(&c, 4).unwrap();
    assert_eq!(p.title, "Friday");
    let ids: Vec<i32> = p.tracks.iter().map(|t| t.track_id).collect();
    assert_eq!(ids, vec![2, 1]);
    assert_eq!(fetch_playlist(&c, 5).unwrap_err(), MixError::PlaylistNotFound(5));
    let mut broken = catalog();
    broken.playlist_tracks.push(PlaylistTrack { id: 4, playlist_id: 4, track_id: 8, position: 3 });
    assert_eq!(fetch_playlist(&broken, 4).unwrap_err(), MixError::TrackNotFound(8));
}

#[test]
fn playlist_rows_as_listed() {
    let c = catalog();
    let p = fetch_playlist(&c, 4).unwrap();
    let rows = playlist_rows(&p);
    assert_eq!(playlist_header(), vec!["#", "track_id", "bpm", "title", "artist", "cues"]);
    assert_eq!(rows[0], vec!["1", "2", "120.000", "Short", "---", "1: 1.0s"]);
    assert_eq!(
        rows[1],
        vec![
            "2",
            "1",
            "127.950",
            "A Title That Is Longer Th",
            "An Artist With ",
            "1: 1.0s 2: 0.0s 4: 20.0s",
        ]
    );
}

#[test]
fn tag_check_splits_at_last_separator() {
    assert!(!tag_mismatch("Daft Punk - One More Time.mp3", "One More Time", "Daft Punk"));
    assert!(!tag_mismatch("Daft Punk - One More Time.mp3", "Other", "Daft Punk"));
    assert!(!tag_mismatch("Daft Punk - One More Time.mp3", "One More", "Nobody"));
    assert!(tag_mismatch("Daft Punk - One More Time.mp3", "Aerodynamic", "Justice"));
    assert!(!tag_mismatch("NoSeparator.mp3", "x", "y"));
    // Split at the last separator: the artist part keeps the first one.
    assert!(!tag_mismatch("A - B - C.mp3", "Z", "A - B"));
    assert!(tag_mismatch("A - B - C.mp3", "B", "C"));
}

#[test]
fn missing_sample_rate_is_rejected() {
    let mut c = catalog();
    c.tracks[1].samplerate = 0;
    assert_eq!(fetch_track(&c, &c.playlist_tracks[0]).unwrap_err(), MixError::InvalidParameter);
}
