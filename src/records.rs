//! Records of the media library, and the read-only catalog that planning
//! queries.
use vstd::prelude::*;
use crate::error::MixError;

verus! {

/// Kind of a cue point.
#[derive(Debug, Clone, Copy, PartialEq, Eq, Structural)]
pub enum CueType {
    Invalid,
    HotCue,
    MainCue,
    Beat,
    Loop,
    Jump,
    Intro,
    Outro,
    N60dBSound,
}

/// A cue point of a track. `position` counts interleaved stereo samples
/// from the start of the track (two per frame) and may be negative.
#[derive(Debug, Clone, Copy, PartialEq, Eq, Structural)]
pub struct Cue {
    pub id: i32,
    pub track_id: i32,
    pub cue_type: CueType,
    pub position: i64,
    pub length: i64,
    pub hotcue: u8,
}

/// A track record: native tempo in thousandths of a beat per minute and
/// sample rate in frames per second.
#[derive(Debug)]
pub struct Library {
    pub id: i32,
    pub artist: Option<String>,
    pub title: String,
    pub bpm: u32,
    pub samplerate: u32,
}

/// Where the file of a track lies.
#[derive(Debug)]
pub struct TrackLocation {
    pub id: i32,
    pub location: String,
    pub filename: String,
    pub directory: String,
    pub filesize: u64,
}

/// Membership of a track in a playlist, at a position.
#[derive(Debug, Clone, Copy, PartialEq, Eq, Structural)]
pub struct PlaylistTrack {
    pub id: i32,
    pub playlist_id: i32,
    pub track_id: i32,
    pub position: i32,
}

/// A playlist; `date_created` is in seconds since the Unix epoch.
#[derive(Debug)]
pub struct Playlist {
    pub id: i32,
    pub name: String,
    pub position: u64,
    pub hidden: i32,
    pub date_created: i64,
    pub locked: bool,
}

/// The records of the media library that a planning session reads. Each
/// query answers with the first matching record.
#[derive(Debug)]
pub struct Catalog {
    pub tracks: Vec<Library>,
    pub locations: Vec<TrackLocation>,
    pub cues: Vec<Cue>,
    pub playlists: Vec<Playlist>,
    pub playlist_tracks: Vec<PlaylistTrack>,
}

fn copy_option_string(s: &Option<String>) -> (r: Option<String>)
    ensures
        r == *s,
{
    match s {
        Some(v) => Some(v.clone()),
        None => None,
    }
}

impl Library {
    /// A field-for-field copy.
    pub fn duplicate(&self) -> (r: Library)
        ensures
            r == *self,
    {
        Library {
            id: self.id,
            artist: copy_option_string(&self.artist),
            title: self.title.clone(),
            bpm: self.bpm,
            samplerate: self.samplerate,
        }
    }
}

/// `i` is the first index of `s` holding a track with this id.
pub open spec fn first_track_at(s: Seq<Library>, id: i32, i: int) -> bool {
    0 <= i < s.len() && s[i].id == id && forall|j: int| 0 <= j < i ==> s[j].id != id
}

/// The first track with this id.
pub open spec fn find_track(s: Seq<Library>, id: i32) -> Option<Library> {
    if exists|i: int| first_track_at(s, id, i) {
        Some(s[choose|i: int| first_track_at(s, id, i)])
    } else {
        None
    }
}

/// `i` is the first index of `s` holding a location with this id.
pub open spec fn first_location_at(s: Seq<TrackLocation>, id: i32, i: int) -> bool {
    0 <= i < s.len() && s[i].id == id && forall|j: int| 0 <= j < i ==> s[j].id != id
}

/// The first location with this id.
pub open spec fn find_location(s: Seq<TrackLocation>, id: i32) -> Option<TrackLocation> {
    if exists|i: int| first_location_at(s, id, i) {
        Some(s[choose|i: int| first_location_at(s, id, i)])
    } else {
        None
    }
}

/// The cue is the hot cue `hotcue` of the track `track_id`.
pub open spec fn is_hotcue(c: Cue, track_id: i32, hotcue: u8) -> bool {
    c.track_id == track_id && c.cue_type == CueType::HotCue && c.hotcue == hotcue
}

/// `i` is the first index of `s` holding that hot cue.
pub open spec fn first_hotcue_at(s: Seq<Cue>, track_id: i32, hotcue: u8, i: int) -> bool {
    0 <= i < s.len() && is_hotcue(s[i], track_id, hotcue) && forall|j: int|
        0 <= j < i ==> !is_hotcue(s[j], track_id, hotcue)
}

/// The first hot cue `hotcue` of the track `track_id`.
pub open spec fn find_hotcue(s: Seq<Cue>, track_id: i32, hotcue: u8) -> Option<Cue> {
    if exists|i: int| first_hotcue_at(s, track_id, hotcue, i) {
        Some(s[choose|i: int| first_hotcue_at(s, track_id, hotcue, i)])
    } else {
        None
    }
}

/// `i` is the first index of `s` holding a playlist with this id.
pub open spec fn first_playlist_at(s: Seq<Playlist>, id: i32, i: int) -> bool {
    0 <= i < s.len() && s[i].id == id && forall|j: int| 0 <= j < i ==> s[j].id != id
}

/// The first playlist with this id.
pub open spec fn find_playlist(s: Seq<Playlist>, id: i32) -> Option<Playlist> {
    if exists|i: int| first_playlist_at(s, id, i) {
        Some(s[choose|i: int| first_playlist_at(s, id, i)])
    } else {
        None
    }
}

impl Catalog {
    /// The first track record with this id.
    pub fn track(&self, id: i32) -> (r: Option<&Library>)
        ensures
            match r {
                Some(l) => find_track(self.tracks@, id) == Some(*l),
                None => find_track(self.tracks@, id) is None,
            },
    {
        let mut i: usize = 0;
        while i < self.tracks.len()
            invariant
                i <= self.tracks@.len(),
                forall|j: int| 0 <= j < i ==> self.tracks@[j].id != id,
            decreases self.tracks@.len() - i,
        {
            if self.tracks[i].id == id {
                proof {
                    let k = choose|k: int| first_track_at(self.tracks@, id, k);
                    assert(first_track_at(self.tracks@, id, i as int));
                    assert(k == i as int);
                }
                return Some(&self.tracks[i]);
            }
            i += 1;
        }
        None
    }

    /// The first location record with this id.
    pub fn location(&self, id: i32) -> (r: Option<&TrackLocation>)
        ensures
            match r {
                Some(l) => find_location(self.locations@, id) == Some(*l),
                None => find_location(self.locations@, id) is None,
            },
    {
        let mut i: usize = 0;
        while i < self.locations.len()
            invariant
                i <= self.locations@.len(),
                forall|j: int| 0 <= j < i ==> self.locations@[j].id != id,
            decreases self.locations@.len() - i,
        {
            if self.locations[i].id == id {
                proof {
                    let k = choose|k: int| first_location_at(self.locations@, id, k);
                    assert(first_location_at(self.locations@, id, i as int));
                    assert(k == i as int);
                }
                return Some(&self.locations[i]);
            }
            i += 1;
        }
        None
    }

    /// The first hot cue `hotcue` of the track `track_id`.
    pub fn hot_cue(&self, track_id: i32, hotcue: u8) -> (r: Option<Cue>)
        ensures
            r == find_hotcue(self.cues@, track_id, hotcue),
    {
        let mut i: usize = 0;
        while i < self.cues.len()
            invariant
                i <= self.cues@.len(),
                forall|j: int| 0 <= j < i ==> !is_hotcue(self.cues@[j], track_id, hotcue),
            decreases self.cues@.len() - i,
        {
            let c = self.cues[i];
            if c.track_id == track_id && c.cue_type == CueType::HotCue && c.hotcue == hotcue {
                proof {
                    let k = choose|k: int| first_hotcue_at(self.cues@, track_id, hotcue, k);
                    assert(first_hotcue_at(self.cues@, track_id, hotcue, i as int));
                    assert(k == i as int);
                }
                return Some(c);
            }
            i += 1;
        }
        None
    }

    /// The first playlist with this id.
    pub fn playlist(&self, id: i32) -> (r: Option<&Playlist>)
        ensures
            match r {
                Some(p) => find_playlist(self.playlists@, id) == Some(*p),
                None => find_playlist(self.playlists@, id) is None,
            },
    {
        let mut i: usize = 0;
        while i < self.playlists.len()
            invariant
                i <= self.playlists@.len(),
                forall|j: int| 0 <= j < i ==> self.playlists@[j].id != id,
            decreases self.playlists@.len() - i,
        {
            if self.playlists[i].id == id {
                proof {
                    let k = choose|k: int| first_playlist_at(self.playlists@, id, k);
                    assert(first_playlist_at(self.playlists@, id, i as int));
                    assert(k == i as int);
                }
                return Some(&self.playlists[i]);
            }
            i += 1;
        }
        None
    }
}

/// Looks up a track and the path of its file.
pub fn get_track(catalog: &Catalog, track_id: i32) -> (r: Result<(String, Library), MixError>)
    ensures
        match r {
            Ok((path, lib)) => {
                &&& find_track(catalog.tracks@, track_id) == Some(lib)
                &&& find_location(catalog.locations@, track_id) is Some
                &&& path == find_location(catalog.locations@, track_id)->0.location
            },
            Err(e) => {
                ||| find_track(catalog.tracks@, track_id) is None && e == MixError::TrackNotFound(
                    track_id,
                )
                ||| find_track(catalog.tracks@, track_id) is Some && find_location(
                    catalog.locations@,
                    track_id,
                ) is None && e == MixError::LocationNotFound(track_id)
            },
        },
{
    let library = match catalog.track(track_id) {
        Some(l) => l.duplicate(),
        None => return Err(MixError::TrackNotFound(track_id)),
    };
    let location = match catalog.location(track_id) {
        Some(l) => l.location.clone(),
        None => return Err(MixError::LocationNotFound(track_id)),
    };
    Ok((location, library))
}

/// Looks up the hot cue `hotcue` of a track.
pub fn get_hotcue(catalog: &Catalog, track_id: i32, hotcue: u8) -> (r: Result<Cue, MixError>)
    ensures
        match find_hotcue(catalog.cues@, track_id, hotcue) {
            Some(c) => r == Ok::<Cue, MixError>(c),
            None => r == Err::<Cue, MixError>(MixError::CueNotFound(track_id, hotcue)),
        },
{
    match catalog.hot_cue(track_id, hotcue) {
        Some(c) => Ok(c),
        None => Err(MixError::CueNotFound(track_id, hotcue)),
    }
}

} // verus!
