//! Playlists with the hot cues of their tracks, and the rows that list them.
use vstd::prelude::*;
use crate::error::MixError;
use crate::mix::MixTrack;
use crate::records::{
    find_playlist, find_track, is_hotcue, Catalog, Cue, CueType, PlaylistTrack,
};
use crate::timing::position_micros;
use crate::ffmpeg::{join, join_strings, texts};
use crate::text::{digits, int_text, millis_text, millis_to_text, nat_text, signed_text, tenths_text, tenths_to_text};

verus! {

/// A track of a playlist with its hot cues: each hot cue index with its
/// time in microseconds, in increasing index order. Tempo is in thousandths
/// of a beat per minute.
#[derive(Debug)]
pub struct TrackModel {
    pub track_id: i32,
    pub position: i32,
    pub title: String,
    pub artist: Option<String>,
    pub bpm: u32,
    pub cues: Vec<(u8, u128)>,
}

/// A playlist's title and tracks, in playlist order.
#[derive(Debug)]
pub struct PlaylistModel {
    pub title: String,
    pub tracks: Vec<TrackModel>,
}

/// Hot cue indices strictly increase along the list.
pub open spec fn keys_increase(cues: Seq<(u8, u128)>) -> bool {
    forall|i: int, j: int| 0 <= i < j < cues.len() ==> cues[i].0 < cues[j].0
}

/// `i` holds a hot cue whose time is the least of all; no earlier one has
/// that time.
pub open spec fn is_first_min(cues: Seq<(u8, u128)>, i: int) -> bool {
    &&& 0 <= i < cues.len()
    &&& forall|j: int| 0 <= j < cues.len() ==> cues[i].1 <= cues[j].1
    &&& forall|j: int| 0 <= j < i ==> cues[j].1 > cues[i].1
}

/// `i` holds a hot cue whose time is the greatest of all; no later one has
/// that time.
pub open spec fn is_last_max(cues: Seq<(u8, u128)>, i: int) -> bool {
    &&& 0 <= i < cues.len()
    &&& forall|j: int| 0 <= j < cues.len() ==> cues[j].1 <= cues[i].1
    &&& forall|j: int| i < j < cues.len() ==> cues[j].1 < cues[i].1
}

impl TrackModel {
    /// The hot cue that comes first in time (the lowest index among equal
    /// times), if there is any.
    pub fn first_hotcue(&self) -> (r: Option<u8>)
        ensures
            self.cues@.len() == 0 <==> r is None,
            r matches Some(h) ==> exists|i: int| is_first_min(self.cues@, i) && self.cues@[i].0 == h,
    {
        if self.cues.len() == 0 {
            return None;
        }
        let mut best: usize = 0;
        let mut i: usize = 1;
        while i < self.cues.len()
            invariant
                1 <= i <= self.cues@.len(),
                best < i,
                forall|j: int| 0 <= j < i ==> self.cues@[best as int].1 <= self.cues@[j].1,
                forall|j: int| 0 <= j < best ==> self.cues@[j].1 > self.cues@[best as int].1,
            decreases self.cues@.len() - i,
        {
            if self.cues[i].1 < self.cues[best].1 {
                best = i;
            }
            i += 1;
        }
        assert(is_first_min(self.cues@, best as int));
        Some(self.cues[best].0)
    }

    /// The hot cue that comes last in time (the highest index among equal
    /// times), if there is any.
    pub fn last_hotcue(&self) -> (r: Option<u8>)
        ensures
            self.cues@.len() == 0 <==> r is None,
            r matches Some(h) ==> exists|i: int| is_last_max(self.cues@, i) && self.cues@[i].0 == h,
    {
        if self.cues.len() == 0 {
            return None;
        }
        let mut best: usize = 0;
        let mut i: usize = 1;
        while i < self.cues.len()
            invariant
                1 <= i <= self.cues@.len(),
                best < i,
                forall|j: int| 0 <= j < i ==> self.cues@[j].1 <= self.cues@[best as int].1,
                forall|j: int| best < j < i ==> self.cues@[j].1 < self.cues@[best as int].1,
            decreases self.cues@.len() - i,
        {
            if self.cues[i].1 >= self.cues[best].1 {
                best = i;
            }
            i += 1;
        }
        assert(is_last_max(self.cues@, best as int));
        Some(self.cues[best].0)
    }
}

/// `i` is the last index of `s` holding that hot cue.
pub open spec fn last_hotcue_at(s: Seq<Cue>, track_id: i32, hotcue: u8, i: int) -> bool {
    0 <= i < s.len() && is_hotcue(s[i], track_id, hotcue) && forall|j: int|
        i < j < s.len() ==> !is_hotcue(s[j], track_id, hotcue)
}

/// The last hot cue `hotcue` of the track: a later record replaces an
/// earlier one with the same index.
pub open spec fn find_last_hotcue(s: Seq<Cue>, track_id: i32, hotcue: u8) -> Option<Cue> {
    if exists|i: int| last_hotcue_at(s, track_id, hotcue, i) {
        Some(s[choose|i: int| last_hotcue_at(s, track_id, hotcue, i)])
    } else {
        None
    }
}

/// The hot cues of a track with index below `h`, each with the time of its
/// position (negative positions count as zero), in index order.
pub open spec fn hotcue_times(cues: Seq<Cue>, track_id: i32, samplerate: u32, h: int) -> Seq<
    (u8, u128),
>
    decreases h,
{
    if h <= 0 {
        Seq::empty()
    } else {
        let before = hotcue_times(cues, track_id, samplerate, h - 1);
        match find_last_hotcue(cues, track_id, (h - 1) as u8) {
            Some(c) => before.push(
                (
                    (h - 1) as u8,
                    position_micros(
                        if c.position < 0 {
                            0
                        } else {
                            c.position as int
                        },
                        samplerate as int,
                    ) as u128,
                ),
            ),
            None => before,
        }
    }
}

proof fn lemma_hotcue_times_increase(cues: Seq<Cue>, track_id: i32, samplerate: u32, h: int)
    requires
        0 <= h <= 256,
    ensures
        keys_increase(hotcue_times(cues, track_id, samplerate, h)),
        forall|i: int|
            0 <= i < hotcue_times(cues, track_id, samplerate, h).len() ==> (#[trigger] hotcue_times(
                cues,
                track_id,
                samplerate,
                h,
            )[i]).0 < h,
    decreases h,
{
    if h > 0 {
        lemma_hotcue_times_increase(cues, track_id, samplerate, h - 1);
        let before = hotcue_times(cues, track_id, samplerate, h - 1);
        assert forall|i: int| 0 <= i < before.len() implies (#[trigger] before[i]).0 < h - 1 by {}
    }
}

fn last_hot_cue(catalog: &Catalog, track_id: i32, hotcue: u8) -> (r: Option<Cue>)
    ensures
        r == find_last_hotcue(catalog.cues@, track_id, hotcue),
{
    let mut i: usize = catalog.cues.len();
    while i > 0
        invariant
            i <= catalog.cues@.len(),
            forall|j: int| i <= j < catalog.cues@.len() ==> !is_hotcue(catalog.cues@[j], track_id, hotcue),
        decreases i,
    {
        let c = catalog.cues[i - 1];
        if c.track_id == track_id && c.cue_type == CueType::HotCue && c.hotcue == hotcue {
            proof {
                let k = choose|k: int| last_hotcue_at(catalog.cues@, track_id, hotcue, k);
                assert(last_hotcue_at(catalog.cues@, track_id, hotcue, i - 1));
                assert(k == i - 1);
            }
            return Some(c);
        }
        i -= 1;
    }
    None
}

fn cue_time(position: i64, samplerate: u32) -> (r: u128)
    requires
        samplerate > 0,
    ensures
        r == position_micros(if position < 0 { 0 } else { position as int }, samplerate as int),
{
    let p: u128 = if position < 0 { 0 } else { position as u128 };
    proof {
        assert(p * 1_000_000 <= 0x8000_0000_0000_0000 * 1_000_000) by (nonlinear_arith)
            requires
                p <= 0x8000_0000_0000_0000,
        ;
        vstd::arithmetic::div_mod::lemma_div_is_ordered_by_denominator(p * 1_000_000, 2, 2 * samplerate);
        assert(p * 1_000_000 / 2 == p * 500_000);
    }
    p * 1_000_000 / (2 * samplerate as u128)
}

/// Why the track of a playlist entry cannot be listed, if it cannot.
pub open spec fn track_error(catalog: Catalog, playlist_track: PlaylistTrack) -> Option<MixError> {
    match find_track(catalog.tracks@, playlist_track.track_id) {
        None => Some(MixError::TrackNotFound(playlist_track.track_id)),
        Some(lib) => if lib.samplerate == 0 {
            Some(MixError::InvalidParameter)
        } else {
            None
        },
    }
}

/// `t` is the listing of the playlist entry's track: the track record's
/// fields and its hot cues with their times.
pub open spec fn track_listed(t: TrackModel, catalog: Catalog, playlist_track: PlaylistTrack) -> bool {
    let lib = find_track(catalog.tracks@, playlist_track.track_id)->0;
    &&& t.track_id == lib.id
    &&& t.position == playlist_track.position
    &&& t.title == lib.title
    &&& t.artist == lib.artist
    &&& t.bpm == lib.bpm
    &&& t.cues@ == hotcue_times(catalog.cues@, playlist_track.track_id, lib.samplerate, 256)
    &&& keys_increase(t.cues@)
}

/// The playlist entry's track with its hot cues.
pub fn fetch_track(catalog: &Catalog, playlist_track: &PlaylistTrack) -> (r: Result<TrackModel, MixError>)
    ensures
        match track_error(*catalog, *playlist_track) {
            Some(e) => r == Err::<TrackModel, MixError>(e),
            None => r matches Ok(t) && track_listed(t, *catalog, *playlist_track),
        },
{
    let library = match catalog.track(playlist_track.track_id) {
        Some(l) => l.duplicate(),
        None => return Err(MixError::TrackNotFound(playlist_track.track_id)),
    };
    if library.samplerate == 0 {
        return Err(MixError::InvalidParameter);
    }
    let mut cues: Vec<(u8, u128)> = Vec::new();
    let mut h: u32 = 0;
    while h < 256
        invariant
            h <= 256,
            library.samplerate > 0,
            cues@ == hotcue_times(catalog.cues@, playlist_track.track_id, library.samplerate, h as int),
        decreases 256 - h,
    {
        match last_hot_cue(catalog, playlist_track.track_id, h as u8) {
            Some(c) => cues.push((h as u8, cue_time(c.position, library.samplerate))),
            None => {},
        }
        h += 1;
    }
    proof {
        lemma_hotcue_times_increase(catalog.cues@, playlist_track.track_id, library.samplerate, 256);
    }
    Ok(TrackModel {
        track_id: library.id,
        position: playlist_track.position,
        title: library.title,
        artist: library.artist,
        bpm: library.bpm,
        cues,
    })
}

/// The entries of playlist `id`, in catalog order.
pub open spec fn playlist_entries(s: Seq<PlaylistTrack>, id: i32) -> Seq<PlaylistTrack> {
    s.filter(|t: PlaylistTrack| t.playlist_id == id)
}

/// The first failure among the entries' tracks, in order.
pub open spec fn entries_error(catalog: Catalog, es: Seq<PlaylistTrack>) -> Option<MixError>
    decreases es.len(),
{
    if es.len() == 0 {
        None
    } else {
        match entries_error(catalog, es.drop_last()) {
            Some(e) => Some(e),
            None => track_error(catalog, es.last()),
        }
    }
}

proof fn lemma_entries_error_persists(
    catalog: Catalog,
    s: Seq<PlaylistTrack>,
    k: int,
    m: int,
    pred: spec_fn(PlaylistTrack) -> bool,
)
    requires
        0 <= k <= m <= s.len(),
        entries_error(catalog, s.subrange(0, k).filter(pred)) is Some,
    ensures
        entries_error(catalog, s.subrange(0, m).filter(pred)) == entries_error(
            catalog,
            s.subrange(0, k).filter(pred),
        ),
    decreases m - k,
{
    if m > k {
        lemma_entries_error_persists(catalog, s, k, m - 1, pred);
        let pre = s.subrange(0, m - 1);
        assert(s.subrange(0, m) =~= pre.push(s[m - 1]));
        pre.lemma_filter_push(s[m - 1], pred);
        if pred(s[m - 1]) {
            assert(pre.filter(pred).push(s[m - 1]).drop_last() =~= pre.filter(pred));
        }
    }
}

/// The playlist with its tracks, in the order of its entries; fails on the
/// first entry whose track cannot be listed.
pub fn fetch_playlist(catalog: &Catalog, id: i32) -> (r: Result<PlaylistModel, MixError>)
    ensures
        match find_playlist(catalog.playlists@, id) {
            None => r == Err::<PlaylistModel, MixError>(MixError::PlaylistNotFound(id)),
            Some(p) => {
                let es = playlist_entries(catalog.playlist_tracks@, id);
                match entries_error(*catalog, es) {
                    Some(e) => r == Err::<PlaylistModel, MixError>(e),
                    None => r matches Ok(m) && m.title == p.name && m.tracks@.len() == es.len()
                        && forall|i: int|
                        0 <= i < es.len() ==> track_listed(m.tracks@[i], *catalog, es[i]),
                }
            },
        },
{
    let title = match catalog.playlist(id) {
        Some(p) => p.name.clone(),
        None => return Err(MixError::PlaylistNotFound(id)),
    };
    let ghost pred = |t: PlaylistTrack| t.playlist_id == id;
    let mut tracks: Vec<TrackModel> = Vec::new();
    let mut i: usize = 0;
    while i < catalog.playlist_tracks.len()
        invariant
            i <= catalog.playlist_tracks@.len(),
            pred == (|t: PlaylistTrack| t.playlist_id == id),
            find_playlist(catalog.playlists@, id) is Some,
            entries_error(*catalog, catalog.playlist_tracks@.subrange(0, i as int).filter(pred)) is None,
            tracks@.len() == catalog.playlist_tracks@.subrange(0, i as int).filter(pred).len(),
            forall|k: int|
                0 <= k < tracks@.len() ==> track_listed(
                    tracks@[k],
                    *catalog,
                    catalog.playlist_tracks@.subrange(0, i as int).filter(pred)[k],
                ),
        decreases catalog.playlist_tracks@.len() - i,
    {
        let pt = catalog.playlist_tracks[i];
        let ghost pre = catalog.playlist_tracks@.subrange(0, i as int);
        proof {
            assert(catalog.playlist_tracks@.subrange(0, i + 1) =~= pre.push(pt));
            pre.lemma_filter_push(pt, pred);
        }
        if pt.playlist_id == id {
            match fetch_track(catalog, &pt) {
                Ok(t) => tracks.push(t),
                Err(e) => {
                    proof {
                        let es = catalog.playlist_tracks@.subrange(0, i + 1).filter(pred);
                        assert(es == pre.filter(pred).push(pt));
                        assert(es.drop_last() =~= pre.filter(pred));
                        assert(es.last() == pt);
                        assert(entries_error(*catalog, es) == Some(e));
                        let n = catalog.playlist_tracks@.len() as int;
                        lemma_entries_error_persists(*catalog, catalog.playlist_tracks@, i + 1, n, pred);
                        assert(catalog.playlist_tracks@.subrange(0, n) =~= catalog.playlist_tracks@);
                    }
                    return Err(e);
                },
            }
        }
        proof {
            let es = catalog.playlist_tracks@.subrange(0, i + 1).filter(pred);
            if pt.playlist_id == id {
                assert(es.drop_last() =~= pre.filter(pred));
            }
        }
        i += 1;
    }
    assert(catalog.playlist_tracks@.subrange(0, catalog.playlist_tracks@.len() as int) =~= catalog.playlist_tracks@);
    Ok(PlaylistModel { title, tracks })
}

/// At most the first `n` characters of `s`.
pub open spec fn prefix_chars(s: Seq<char>, n: int) -> Seq<char> {
    if s.len() <= n {
        s
    } else {
        s.subrange(0, n)
    }
}

/// One hot cue as listed: its number counted from one, and its time.
pub open spec fn cue_label(cue: (u8, u128)) -> Seq<char> {
    digits((cue.0 + 1) as nat) + ": "@ + tenths_text(cue.1 as nat)
}

/// The listed row of a track: position, id, tempo, the title cut to 25
/// characters, the artist cut to 15 (or `---`), and its hot cues.
pub open spec fn track_row(t: TrackModel) -> Seq<Seq<char>> {
    seq![
        int_text(t.position as int),
        int_text(t.track_id as int),
        millis_text(t.bpm as nat),
        prefix_chars(t.title@, 25),
        match t.artist {
            Some(a) => prefix_chars(a@, 15),
            None => "---"@,
        },
        join(t.cues@.map_values(|c: (u8, u128)| cue_label(c)), " "@),
    ]
}

/// The header of the listing.
pub open spec fn listing_header() -> Seq<Seq<char>> {
    seq!["#"@, "track_id"@, "bpm"@, "title"@, "artist"@, "cues"@]
}

fn prefix_text(s: &str, n: usize) -> (r: String)
    ensures
        r@ == prefix_chars(s@, n as int),
{
    let len = s.unicode_len();
    if len <= n {
        String::from_str(s)
    } else {
        String::from_str(s.substring_char(0, n))
    }
}

fn cue_text(cue: (u8, u128)) -> (r: String)
    ensures
        r@ == cue_label(cue),
{
    let mut r = nat_text(cue.0 as u128 + 1);
    r.append(": ");
    r.append(tenths_to_text(cue.1).as_str());
    r
}

/// The header of the listing.
pub fn playlist_header() -> (r: Vec<String>)
    ensures
        texts(r@) == listing_header(),
{
    let r = vec![
        String::from_str("#"),
        String::from_str("track_id"),
        String::from_str("bpm"),
        String::from_str("title"),
        String::from_str("artist"),
        String::from_str("cues"),
    ];
    assert(texts(r@) =~= listing_header());
    r
}

impl TrackModel {
    /// The listed row of this track.
    pub fn row(&self) -> (r: Vec<String>)
        ensures
            texts(r@) == track_row(*self),
    {
        let mut cues: Vec<String> = Vec::new();
        let mut i: usize = 0;
        while i < self.cues.len()
            invariant
                0 <= i <= self.cues@.len(),
                texts(cues@) == self.cues@.subrange(0, i as int).map_values(
                    |c: (u8, u128)| cue_label(c),
                ),
            decreases self.cues@.len() - i,
        {
            let ghost before = texts(cues@);
            let c = cue_text(self.cues[i]);
            cues.push(c);
            assert(texts(cues@) =~= before.push(c@));
            assert(self.cues@.subrange(0, i + 1).map_values(|c: (u8, u128)| cue_label(c))
                =~= self.cues@.subrange(0, i as int).map_values(|c: (u8, u128)| cue_label(c)).push(
                cue_label(self.cues@[i as int]),
            ));
            i += 1;
        }
        assert(self.cues@.subrange(0, self.cues@.len() as int) =~= self.cues@);
        let artist = match &self.artist {
            Some(a) => prefix_text(a.as_str(), 15),
            None => String::from_str("---"),
        };
        let r = vec![
            signed_text(self.position as i64),
            signed_text(self.track_id as i64),
            millis_to_text(self.bpm),
            prefix_text(self.title.as_str(), 25),
            artist,
            join_strings(&cues, " "),
        ];
        assert(texts(r@) =~= track_row(*self));
        r
    }
}

/// The listed rows of a playlist's tracks, in order.
pub fn playlist_rows(playlist: &PlaylistModel) -> (r: Vec<Vec<String>>)
    ensures
        r@.len() == playlist.tracks@.len(),
        forall|i: int| 0 <= i < r@.len() ==> texts(r@[i]@) == track_row(playlist.tracks@[i]),
{
    let mut r: Vec<Vec<String>> = Vec::new();
    let mut i: usize = 0;
    while i < playlist.tracks.len()
        invariant
            0 <= i <= playlist.tracks@.len(),
            r@.len() == i,
            forall|k: int| 0 <= k < i ==> texts(r@[k]@) == track_row(playlist.tracks@[k]),
        decreases playlist.tracks@.len() - i,
    {
        r.push(playlist.tracks[i].row());
        i += 1;
    }
    r
}

/// `row` is the mix table row of `t`: the track from its first hot cue in
/// time to its last, at its own tempo, with a hard cut to the next row.
pub open spec fn mix_row_of(row: MixTrack, t: TrackModel) -> bool {
    &&& row.position == (if t.position < 0 { 0 } else { t.position as u64 })
    &&& row.id == t.track_id
    &&& row.title == t.title
    &&& row.begin_offset == 0
    &&& row.bpm == Some(t.bpm)
    &&& row.to_bpm is None
    &&& row.crossfade == 0
    &&& (t.cues@.len() == 0 ==> row.begin_hotcue == 0 && row.end_hotcue == 0)
    &&& (t.cues@.len() > 0 ==> (exists|i: int| is_first_min(t.cues@, i) && t.cues@[i].0 == row.begin_hotcue)
        && (exists|i: int| is_last_max(t.cues@, i) && t.cues@[i].0 == row.end_hotcue))
}

impl PlaylistModel {
    /// The playlist as a mix table to edit: one row per track, in order.
    pub fn mix_tracks(&self) -> (r: Vec<MixTrack>)
        ensures
            r@.len() == self.tracks@.len(),
            forall|i: int| 0 <= i < r@.len() ==> mix_row_of(r@[i], self.tracks@[i]),
    {
        let mut r: Vec<MixTrack> = Vec::new();
        let mut i: usize = 0;
        while i < self.tracks.len()
            invariant
                0 <= i <= self.tracks@.len(),
                r@.len() == i,
                forall|k: int| 0 <= k < i ==> mix_row_of(r@[k], self.tracks@[k]),
            decreases self.tracks@.len() - i,
        {
            let t = &self.tracks[i];
            let begin = match t.first_hotcue() {
                Some(h) => h,
                None => 0,
            };
            let end = match t.last_hotcue() {
                Some(h) => h,
                None => 0,
            };
            let position: u64 = if t.position < 0 { 0 } else { t.position as u64 };
            r.push(MixTrack::new(position, t.track_id, t.title.clone(), begin, 0, end, Some(t.bpm), None, 0));
            i += 1;
        }
        r
    }
}

} // verus!
