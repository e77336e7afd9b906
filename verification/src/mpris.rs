//! What the desktop's media controls (MPRIS) are told of the player and what they ask of it: the
//! track's object path, the playback and loop status, the metadata and the seek offset. The D-Bus
//! service itself lives in the app.
use vstd::prelude::*;
use crate::chars::{chars_of, dec, extend_str, lit, push_decimal, string_of};
use crate::innertube::music_parsers::is_text;
use crate::music::{opt_view, ArtistRef, Track};
use crate::playback::engine::Status;
use crate::queue::RepeatMode;
use crate::thumbnails::{for_video, sized, sized_url};

verus! {

/// The object path of "no track".
pub const NO_TRACK: &'static str = "/org/mpris/MediaPlayer2/TrackList/NoTrack";

/// The cover size offered to the desktop, in pixels.
pub const ART_PX: u32 = 544;

/// The object path of a queue item: from its id, which no other item has.
pub open spec fn track_path_of(item_id: Option<i64>, has_track: bool) -> Seq<char> {
    match item_id {
        Some(id) => if has_track {
            "/app/melogold/Melogold/track/"@ + dec(if id < 0 { 0 } else { id as nat })
        } else {
            NO_TRACK@
        },
        None => NO_TRACK@,
    }
}

/// The object path of the current track: its queue item's, or "no track".
pub fn track_path(item_id: Option<i64>, has_track: bool) -> (r: String)
    ensures
        r@ == track_path_of(item_id, has_track),
{
    match item_id {
        Some(id) => if has_track {
            let mut v = lit("/app/melogold/Melogold/track/");
            let n: u64 = if id < 0 { 0 } else { id as u64 };
            push_decimal(&mut v, n);
            string_of(&v)
        } else {
            NO_TRACK.to_string()
        },
        None => NO_TRACK.to_string(),
    }
}

/// `PlaybackStatus`: "Stopped" without a track or when idle, "Playing" while playing, else
/// "Paused".
pub fn playback_status(has_track: bool, playing: bool, status: Status) -> (r: &'static str)
    ensures
        r@ == if !has_track || status == Status::Idle {
            "Stopped"@
        } else if playing {
            "Playing"@
        } else {
            "Paused"@
        },
{
    if !has_track || status == Status::Idle {
        "Stopped"
    } else if playing {
        "Playing"
    } else {
        "Paused"
    }
}

/// `LoopStatus` of a repeat mode.
pub fn loop_status(mode: RepeatMode) -> (r: &'static str)
    ensures
        r@ == match mode {
            RepeatMode::Off => "None"@,
            RepeatMode::All => "Playlist"@,
            RepeatMode::One => "Track"@,
        },
{
    match mode {
        RepeatMode::Off => "None",
        RepeatMode::All => "Playlist",
        RepeatMode::One => "Track",
    }
}

/// The repeat mode that a `LoopStatus` asks for; an unknown value turns repeat off.
pub fn repeat_of_loop_status(value: &str) -> (r: RepeatMode)
    ensures
        r == if value@ == "Track"@ {
            RepeatMode::One
        } else if value@ == "Playlist"@ {
            RepeatMode::All
        } else {
            RepeatMode::Off
        },
{
    if is_text(value, "Track") {
        RepeatMode::One
    } else if is_text(value, "Playlist") {
        RepeatMode::All
    } else {
        RepeatMode::Off
    }
}

/// Division that rounds toward zero, as Rust's integer division does.
pub open spec fn div_toward_zero(a: int, b: int) -> int {
    if a >= 0 {
        a / b
    } else {
        -((-a) / b)
    }
}

/// `Seek` moves by microseconds; the player moves by milliseconds.
pub fn seek_offset_ms(offset_us: i64) -> (r: i64)
    ensures
        r == div_toward_zero(offset_us as int, 1000),
{
    let wide: i128 = offset_us as i128;
    let ms: i128 = if wide >= 0 {
        wide / 1000
    } else {
        -((-wide) / 1000)
    };
    ms as i64
}

/// Seeking is offered for a track that is not a live stream.
pub fn can_seek(track: Option<&Track>) -> (r: bool)
    ensures
        r == match track {
            Some(t) => opt_view(t.video_type) != Some("live"@),
            None => false,
        },
{
    match track {
        Some(t) => !t.is_live(),
        None => false,
    }
}

/// The metadata of the current track.
#[derive(Debug, PartialEq, Default)]
pub struct Metadata {
    /// `mpris:trackid`.
    pub track_id: String,
    /// `xesam:title`; the fields below are there only with a track.
    pub title: Option<String>,
    /// `xesam:artist`.
    pub artists: Vec<String>,
    /// `xesam:album`.
    pub album: Option<String>,
    /// `mpris:length`, in microseconds.
    pub length_us: Option<i64>,
    /// `mpris:artUrl`.
    pub art_url: Option<String>,
    /// `xesam:url`.
    pub url: Option<String>,
}

/// The names of the artists, in order.
pub open spec fn artist_names(artists: Seq<ArtistRef>) -> Seq<Seq<char>> {
    artists.map_values(|a: ArtistRef| a.name@)
}

/// `xesam:artist`: the caption as one artist where there is one, else each artist's name.
pub open spec fn artists_of(track: Track) -> Seq<Seq<char>> {
    match track.artists_text {
        Some(text) => if text@.len() > 0 {
            seq![text@]
        } else {
            artist_names(track.artists@)
        },
        None => artist_names(track.artists@),
    }
}

/// The frame of the video that stands for a missing cover.
pub open spec fn video_frame(video_id: Seq<char>) -> Seq<char> {
    "https://i.ytimg.com/vi/"@ + video_id + "/"@ + "hqdefault.jpg"@
}

/// `mpris:artUrl`: the cover, or a frame of the video, at the offered size.
pub open spec fn art_of(track: Track) -> Option<Seq<char>> {
    sized_url(
        Some(
            match track.thumbnail_url {
                Some(u) => u@,
                None => video_frame(track.video_id@),
            },
        ),
        ART_PX,
    )
}

/// `mpris:length`: the length that the player knows, else the track's, as `Duration` gives
/// microseconds.
pub open spec fn length_of(duration_ms: Option<u64>, track: Track) -> Option<i64> {
    match duration_ms {
        Some(ms) => Some(((ms as u128) * 1000) as i64),
        None => match track.duration_ms {
            Some(ms) => Some((((ms as u64) as u128) * 1000) as i64),
            None => None,
        },
    }
}

/// The names of the artists.
fn names_of(artists: &Vec<ArtistRef>) -> (r: Vec<String>)
    ensures
        r@.map_values(|s: String| s@) == artist_names(artists@),
{
    let mut r: Vec<String> = Vec::new();
    let mut i: usize = 0;
    while i < artists.len()
        invariant
            i <= artists@.len(),
            r@.len() == i,
            r@.map_values(|s: String| s@) == artist_names(artists@.take(i as int)),
        decreases artists@.len() - i,
    {
        let ghost r0 = r@;
        let name = artists[i].name.clone();
        assert(name == artists@[i as int].name);
        r.push(name);
        assert(r@.drop_last() == r0);
        assert(artists@.take(i + 1).drop_last() =~= artists@.take(i as int));
        assert forall|k: int| 0 <= k < i + 1 implies r@.map_values(|s: String| s@)[k] == #[trigger] artist_names(
            artists@.take(i + 1),
        )[k] by {
            if k < i {
                assert(r@[k] == r0[k]);
                assert(r0.map_values(|s: String| s@)[k] == artist_names(artists@.take(i as int))[k]);
            }
        }
        assert(r@.map_values(|s: String| s@) =~= artist_names(artists@.take(i + 1)));
        i = i + 1;
    }
    assert(artists@.take(artists@.len() as int) =~= artists@);
    r
}

/// The metadata of the current track: only its path where there is none; else its title,
/// artists, album, length, cover and page.
pub fn metadata(track: Option<&Track>, item_id: Option<i64>, duration_ms: Option<u64>) -> (m: Metadata)
    ensures
        m.track_id@ == track_path_of(item_id, track is Some),
        track is None ==> m.title is None && m.artists@.len() == 0 && m.album is None && m.length_us is None
            && m.art_url is None && m.url is None,
        track matches Some(t) ==> {
            &&& opt_view(m.title) == Some(t.title@)
            &&& m.artists@.map_values(|s: String| s@) == artists_of(*t)
            &&& opt_view(m.album) == opt_view(t.album_title)
            &&& m.length_us == length_of(duration_ms, *t)
            &&& opt_view(m.art_url) == art_of(*t)
            &&& opt_view(m.url) == Some("https://music.youtube.com/watch?v="@ + t.video_id@)
        },
{
    let track_id = track_path(item_id, track.is_some());
    let t = match track {
        None => {
            let m = Metadata {
                track_id,
                title: None,
                artists: Vec::new(),
                album: None,
                length_us: None,
                art_url: None,
                url: None,
            };
            return m;
        },
        Some(t) => t,
    };
    let artists = match &t.artists_text {
        Some(text) => if chars_of(text.as_str()).len() > 0 {
            let mut v: Vec<String> = Vec::new();
            v.push(text.clone());
            assert(v@.map_values(|s: String| s@) =~= seq![text@]);
            v
        } else {
            names_of(&t.artists)
        },
        None => names_of(&t.artists),
    };
    let length_us: Option<i64> = match duration_ms {
        Some(ms) => Some(((ms as u128) * 1000) as i64),
        None => match t.duration_ms {
            Some(ms) => Some((((ms as u64) as u128) * 1000) as i64),
            None => None,
        },
    };
    let art = match &t.thumbnail_url {
        Some(u) => u.clone(),
        None => for_video(t.video_id.as_str(), ART_PX),
    };
    let art_url = sized(Some(art.as_str()), ART_PX);
    let mut page = lit("https://music.youtube.com/watch?v=");
    extend_str(&mut page, t.video_id.as_str());
    let album = match &t.album_title {
        Some(a) => Some(a.clone()),
        None => None,
    };
    Metadata {
        track_id,
        title: Some(t.title.clone()),
        artists,
        album,
        length_us,
        art_url,
        url: Some(string_of(&page)),
    }
}

} // verus!
