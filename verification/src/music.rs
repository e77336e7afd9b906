//! Catalogue models of YouTube Music and YouTube. A track is any YouTube video: a song, a clip,
//! an ordinary video, a stream; `video_type` is `song | video | ugc | live | podcast_episode`.
use vstd::prelude::*;
use crate::chars::{chars_eq, chars_of, extend_chars, extend_str, lit, string_of, trim, trim_chars};

verus! {

/// An artist or channel in a track's caption; `id` is the browseId (`UC…`) where there is one.
#[derive(Debug, PartialEq, Eq, Default)]
pub struct ArtistRef {
    pub id: Option<String>,
    pub name: String,
}

pub fn clone_opt_string(s: &Option<String>) -> (r: Option<String>)
    ensures
        r == *s,
{
    match s {
        Some(t) => Some(t.clone()),
        None => None,
    }
}

impl Clone for ArtistRef {
    fn clone(&self) -> (r: Self)
        ensures
            r == *self,
    {
        ArtistRef { id: clone_opt_string(&self.id), name: self.name.clone() }
    }
}

pub fn clone_artists(v: &Vec<ArtistRef>) -> (r: Vec<ArtistRef>)
    ensures
        r@ == v@,
{
    let mut r: Vec<ArtistRef> = Vec::new();
    let mut i: usize = 0;
    while i < v.len()
        invariant
            i <= v.len(),
            r@ == v@.take(i as int),
        decreases v.len() - i,
    {
        r.push(v[i].clone());
        assert(v@.take(i as int).push(v@[i as int]) =~= v@.take(i + 1));
        i = i + 1;
    }
    assert(v@.take(v.len() as int) =~= v@);
    r
}

#[derive(Debug, PartialEq, Default)]
pub struct Track {
    pub video_id: String,
    pub title: String,
    pub artists: Vec<ArtistRef>,
    /// The artists' caption as YouTube writes it ("A, B and C"); for a video, the channel.
    pub artists_text: Option<String>,
    pub album_id: Option<String>,
    pub album_title: Option<String>,
    pub duration_ms: Option<i64>,
    pub duration_text: Option<String>,
    pub thumbnail_url: Option<String>,
    pub explicit: bool,
    pub video_type: Option<String>,
    /// For display only: "1.2M views"; numbers are not read out of YouTube's text.
    pub views_text: Option<String>,
    pub unavailable: bool,
}

impl Track {
    /// The same track, field by field (the artists by their contents).
    pub open spec fn same_as(&self, other: &Track) -> bool {
        &&& self.video_id == other.video_id
        &&& self.title == other.title
        &&& self.artists@ == other.artists@
        &&& self.artists_text == other.artists_text
        &&& self.album_id == other.album_id
        &&& self.album_title == other.album_title
        &&& self.duration_ms == other.duration_ms
        &&& self.duration_text == other.duration_text
        &&& self.thumbnail_url == other.thumbnail_url
        &&& self.explicit == other.explicit
        &&& self.video_type == other.video_type
        &&& self.views_text == other.views_text
        &&& self.unavailable == other.unavailable
    }
}

impl Clone for Track {
    fn clone(&self) -> (r: Self)
        ensures
            r.same_as(self),
    {
        Track {
            video_id: self.video_id.clone(),
            title: self.title.clone(),
            artists: clone_artists(&self.artists),
            artists_text: clone_opt_string(&self.artists_text),
            album_id: clone_opt_string(&self.album_id),
            album_title: clone_opt_string(&self.album_title),
            duration_ms: self.duration_ms,
            duration_text: clone_opt_string(&self.duration_text),
            thumbnail_url: clone_opt_string(&self.thumbnail_url),
            explicit: self.explicit,
            video_type: clone_opt_string(&self.video_type),
            views_text: clone_opt_string(&self.views_text),
            unavailable: self.unavailable,
        }
    }
}


/// The optional text's characters.
pub open spec fn opt_view(s: Option<String>) -> Option<Seq<char>> {
    match s {
        Some(t) => Some(t@),
        None => None,
    }
}

/// A kind of video rather than a song.
pub open spec fn is_video_type(t: Option<Seq<char>>) -> bool {
    match t {
        Some(k) => k == "video"@ || k == "ugc"@ || k == "live"@ || k == "podcast_episode"@,
        None => false,
    }
}

/// The present, non-blank parts, trimmed, joined by " · ".
pub open spec fn join_non_empty(parts: Seq<Option<Seq<char>>>) -> Seq<char>
    decreases parts.len(),
{
    if parts.len() == 0 {
        Seq::empty()
    } else {
        let head = join_non_empty(parts.drop_last());
        match parts.last() {
            Some(p) => if trim(p).len() == 0 {
                head
            } else if head.len() == 0 {
                trim(p)
            } else {
                head + " · "@ + trim(p)
            },
            None => head,
        }
    }
}

fn is_text(s: &String, t: &str) -> (r: bool)
    ensures
        r == (s@ == t@),
{
    chars_eq(&chars_of(s.as_str()), &lit(t))
}

/// Joins the present, non-blank parts, trimmed, with " · ".
fn join_parts(parts: &Vec<Option<String>>) -> (r: String)
    ensures
        r@ == join_non_empty(parts@.map_values(|p: Option<String>| opt_view(p))),
{
    let ghost all = parts@.map_values(|p: Option<String>| opt_view(p));
    let mut v: Vec<char> = Vec::new();
    let mut i: usize = 0;
    while i < parts.len()
        invariant
            i <= parts.len(),
            all == parts@.map_values(|p: Option<String>| opt_view(p)),
            v@ == join_non_empty(all.take(i as int)),
        decreases parts.len() - i,
    {
        assert(all.take(i + 1).drop_last() =~= all.take(i as int));
        assert(all.take(i + 1).last() == opt_view(parts@[i as int]));
        match &parts[i] {
            Some(p) => {
                let t = trim_chars(&chars_of(p.as_str()));
                if t.len() > 0 {
                    if v.len() > 0 {
                        extend_str(&mut v, " · ");
                    }
                    extend_chars(&mut v, &t);
                }
            },
            None => {},
        }
        i = i + 1;
    }
    assert(all.take(parts.len() as int) =~= all);
    string_of(&v)
}

fn clone_opt(s: &Option<String>) -> (r: Option<String>)
    ensures
        r == *s,
{
    clone_opt_string(s)
}

impl Track {
    pub fn is_video(&self) -> (r: bool)
        ensures
            r == is_video_type(opt_view(self.video_type)),
    {
        match &self.video_type {
            Some(k) => is_text(k, "video") || is_text(k, "ugc") || is_text(k, "live") || is_text(k, "podcast_episode"),
            None => false,
        }
    }

    pub fn is_live(&self) -> (r: bool)
        ensures
            r == (opt_view(self.video_type) == Some("live"@)),
    {
        match &self.video_type {
            Some(k) => is_text(k, "live"),
            None => false,
        }
    }

    /// "Artist · Album".
    pub fn subtitle(&self) -> (r: String)
        ensures
            r@ == join_non_empty(seq![opt_view(self.artists_text), opt_view(self.album_title)]),
    {
        let mut parts: Vec<Option<String>> = Vec::new();
        parts.push(clone_opt(&self.artists_text));
        parts.push(clone_opt(&self.album_title));
        let r = join_parts(&parts);
        assert(parts@.map_values(|p: Option<String>| opt_view(p)) =~= seq![opt_view(self.artists_text), opt_view(self.album_title)]);
        r
    }

    /// The first artist with a link: "Open artist" or "Open channel".
    pub fn artist_id(&self) -> (r: Option<&str>)
        ensures
            match first_artist_id(self.artists@) {
                Some(id) => r matches Some(s) && s@ == id,
                None => r is None,
            },
    {
        let mut i: usize = 0;
        assert(self.artists@.skip(0) =~= self.artists@);
        while i < self.artists.len()
            invariant
                i <= self.artists@.len(),
                first_artist_id(self.artists@) == first_artist_id(self.artists@.skip(i as int)),
            decreases self.artists.len() - i,
        {
            assert(self.artists@.skip(i as int)[0] == self.artists@[i as int]);
            assert(self.artists@.skip(i as int).drop_first() =~= self.artists@.skip(i + 1));
            match &self.artists[i].id {
                Some(id) => return Some(id.as_str()),
                None => {},
            }
            i = i + 1;
        }
        None
    }
}

/// The first artist id present.
pub open spec fn first_artist_id(artists: Seq<ArtistRef>) -> Option<Seq<char>>
    decreases artists.len(),
{
    if artists.len() == 0 {
        None
    } else {
        match artists[0].id {
            Some(id) => Some(id@),
            None => first_artist_id(artists.drop_first()),
        }
    }
}

/// An album, single or EP (`MPREb_…`).
#[derive(Debug, PartialEq, Default)]
pub struct AlbumItem {
    pub browse_id: String,
    pub title: String,
    pub artists: Vec<ArtistRef>,
    pub artists_text: Option<String>,
    pub year: Option<String>,
    /// "Album", "Single", "EP", as YouTube sent it.
    pub type_text: Option<String>,
    pub thumbnail_url: Option<String>,
    /// `OLAK5uy_…`: the album's playlist, for "Listen".
    pub playlist_id: Option<String>,
    pub explicit: bool,
}

impl AlbumItem {
    pub fn subtitle(&self) -> (r: String)
        ensures
            r@ == join_non_empty(seq![opt_view(self.type_text), opt_view(self.artists_text), opt_view(self.year)]),
    {
        let mut parts: Vec<Option<String>> = Vec::new();
        parts.push(clone_opt(&self.type_text));
        parts.push(clone_opt(&self.artists_text));
        parts.push(clone_opt(&self.year));
        let r = join_parts(&parts);
        assert(parts@.map_values(|p: Option<String>| opt_view(p))
            =~= seq![opt_view(self.type_text), opt_view(self.artists_text), opt_view(self.year)]);
        r
    }
}

/// A YouTube Music artist or a YouTube channel (`UC…`).
#[derive(Debug, PartialEq, Default)]
pub struct ArtistItem {
    pub browse_id: String,
    pub name: String,
    pub subtitle: Option<String>,
    pub thumbnail_url: Option<String>,
    /// A channel of plain YouTube without a music profile.
    pub is_channel: bool,
}

/// A YouTube playlist; `playlist_id` without the `VL` prefix.
#[derive(Debug, PartialEq, Default)]
pub struct PlaylistItem {
    pub playlist_id: String,
    pub title: String,
    pub subtitle: Option<String>,
    pub thumbnail_url: Option<String>,
}

impl PlaylistItem {
    pub fn browse_id(&self) -> (r: String)
        ensures
            r@ == "VL"@ + self.playlist_id@,
    {
        let mut v = lit("VL");
        extend_str(&mut v, self.playlist_id.as_str());
        string_of(&v)
    }
}

/// A "Moods and genres" tile.
#[derive(Debug, PartialEq, Default)]
pub struct MoodItem {
    pub title: String,
    pub browse_id: String,
    pub params: Option<String>,
    /// The tile's stripe colour, ARGB.
    pub color: Option<u32>,
}

#[derive(Debug, PartialEq)]
pub enum MusicItem {
    Track(Track),
    Album(AlbumItem),
    Artist(ArtistItem),
    Playlist(PlaylistItem),
    Mood(MoodItem),
}

/// The key by which repeats in results are dropped.
pub open spec fn item_key(item: MusicItem) -> Seq<char> {
    match item {
        MusicItem::Track(t) => "t:"@ + t.video_id@,
        MusicItem::Album(a) => "a:"@ + a.browse_id@,
        MusicItem::Artist(r) => "r:"@ + r.browse_id@,
        MusicItem::Playlist(p) => "p:"@ + p.playlist_id@,
        MusicItem::Mood(m) => "m:"@ + m.browse_id@ + match m.params {
            Some(p) => p@,
            None => Seq::empty(),
        },
    }
}

impl MusicItem {
    /// The key by which repeats in results are dropped.
    pub fn key(&self) -> (r: String)
        ensures
            r@ == item_key(*self),
    {
        let v = match self {
            MusicItem::Track(t) => {
                let mut v = lit("t:");
                extend_str(&mut v, t.video_id.as_str());
                v
            },
            MusicItem::Album(a) => {
                let mut v = lit("a:");
                extend_str(&mut v, a.browse_id.as_str());
                v
            },
            MusicItem::Artist(r) => {
                let mut v = lit("r:");
                extend_str(&mut v, r.browse_id.as_str());
                v
            },
            MusicItem::Playlist(p) => {
                let mut v = lit("p:");
                extend_str(&mut v, p.playlist_id.as_str());
                v
            },
            MusicItem::Mood(m) => {
                let mut v = lit("m:");
                extend_str(&mut v, m.browse_id.as_str());
                match &m.params {
                    Some(p) => extend_str(&mut v, p.as_str()),
                    None => {
                        assert(v@ + Seq::<char>::empty() =~= v@);
                    },
                }
                v
            },
        };
        string_of(&v)
    }

    pub fn as_track(&self) -> (r: Option<&Track>)
        ensures
            match self {
                MusicItem::Track(t) => r == Some(t),
                _ => r is None,
            },
    {
        match self {
            MusicItem::Track(track) => Some(track),
            _ => None,
        }
    }
}

/// A page's shelf: its title, items, and where "All ›" leads.
#[derive(Debug, PartialEq, Default)]
pub struct Shelf {
    pub title: Option<String>,
    pub items: Vec<MusicItem>,
    pub more_browse_id: Option<String>,
    pub more_params: Option<String>,
}

/// The tracks among `items`, in order.
pub open spec fn tracks_in(items: Seq<MusicItem>) -> Seq<Track>
    decreases items.len(),
{
    if items.len() == 0 {
        Seq::empty()
    } else {
        let t = tracks_in(items.drop_last());
        match items.last() {
            MusicItem::Track(x) => t.push(x),
            _ => t,
        }
    }
}

impl Shelf {
    /// The shelf's tracks, in order.
    pub fn tracks(&self) -> (r: Vec<&Track>)
        ensures
            r@.len() == tracks_in(self.items@).len(),
            forall|k: int| 0 <= k < r@.len() ==> *#[trigger] r@[k] == tracks_in(self.items@)[k],
    {
        let mut r: Vec<&Track> = Vec::new();
        let mut i: usize = 0;
        while i < self.items.len()
            invariant
                i <= self.items@.len(),
                r@.len() == tracks_in(self.items@.take(i as int)).len(),
                forall|k: int| 0 <= k < r@.len() ==> *#[trigger] r@[k] == tracks_in(self.items@.take(i as int))[k],
            decreases self.items.len() - i,
        {
            assert(self.items@.take(i + 1).drop_last() =~= self.items@.take(i as int));
            match self.items[i].as_track() {
                Some(t) => r.push(t),
                None => {},
            }
            i = i + 1;
        }
        assert(self.items@.take(self.items.len() as int) =~= self.items@);
        r
    }
}

/// The "All" results: the best match and a mixed list.
#[derive(Debug, PartialEq, Default)]
pub struct SearchSummary {
    pub top: Option<MusicItem>,
    pub items: Vec<MusicItem>,
}

/// A page of results with its continuation.
#[derive(Debug, PartialEq, Default)]
pub struct ItemsPage {
    pub items: Vec<MusicItem>,
    pub continuation: Option<String>,
}

/// A queue from "Up next" (a radio or a playlist), the lyrics tab and related.
#[derive(Debug, PartialEq, Default)]
pub struct NextPage {
    pub tracks: Vec<Track>,
    pub continuation: Option<String>,
    pub playlist_id: Option<String>,
    pub lyrics_browse_id: Option<String>,
    pub related_browse_id: Option<String>,
}

/// Some earlier item of `items` before `i` has the key `k`.
pub open spec fn key_seen(items: Seq<MusicItem>, i: int, k: Seq<char>) -> bool {
    exists|j: int| 0 <= j < i && #[trigger] item_key(items[j]) == k
}

/// The items whose key did not appear before them, in order.
pub open spec fn first_by_key(items: Seq<MusicItem>) -> Seq<MusicItem>
    decreases items.len(),
{
    if items.len() == 0 {
        Seq::empty()
    } else {
        let d = first_by_key(items.drop_last());
        if key_seen(items, items.len() - 1, item_key(items.last())) { d } else { d.push(items.last()) }
    }
}

/// Drops repeats, keeping the order of first appearance.
pub fn distinct(items: Vec<MusicItem>) -> (r: Vec<MusicItem>)
    ensures
        r@ == first_by_key(items@),
{
    let ghost all = items@;
    assert(all.len() == items.len());
    let mut seen: Vec<Vec<char>> = Vec::new();
    let mut r: Vec<MusicItem> = Vec::new();
    let mut i: usize = 0;
    let mut items = items;
    let mut rest: Vec<MusicItem> = Vec::new();
    // Walk the items from the back so that each can be moved out in turn.
    while items.len() > 0
        invariant
            items@.len() + rest@.len() == all.len(),
            all.len() <= usize::MAX,
            items@ == all.take(items@.len() as int),
            forall|k: int| 0 <= k < rest@.len() ==> #[trigger] rest@[k] == all[all.len() - 1 - k],
        decreases items.len(),
    {
        let x = items.pop().unwrap();
        rest.push(x);
        assert(items@ =~= all.take(items@.len() as int));
    }
    while rest.len() > 0
        invariant
            i + rest@.len() == all.len(),
            all.len() <= usize::MAX,
            forall|k: int| 0 <= k < rest@.len() ==> #[trigger] rest@[k] == all[all.len() - 1 - k],
            r@ == first_by_key(all.take(i as int)),
            seen@.len() == i,
            forall|k: int| 0 <= k < i ==> (#[trigger] seen@[k])@ == item_key(all[k]),
        decreases rest.len(),
    {
        let x = rest.pop().unwrap();
        assert(x == all[i as int]);
        let k = chars_of(x.key().as_str());
        let mut j: usize = 0;
        let mut found = false;
        while j < seen.len()
            invariant
                j <= seen@.len(),
                seen@.len() == i,
                i < all.len(),
                forall|m: int| 0 <= m < i ==> (#[trigger] seen@[m])@ == item_key(all[m]),
                found ==> key_seen(all.take(i + 1), i as int, k@),
                !found ==> forall|m: int| 0 <= m < j ==> item_key(all[m]) != k@,
            decreases seen@.len() - j,
        {
            if chars_eq(&seen[j], &k) {
                assert(item_key(all.take(i + 1)[j as int]) == k@);
                found = true;
            }
            j = j + 1;
        }
        proof {
            let t = all.take(i + 1);
            assert(t.drop_last() =~= all.take(i as int));
            assert(t.last() == all[i as int]);
            if !found {
                assert forall|m: int| 0 <= m < i implies #[trigger] item_key(t[m]) != k@ by {
                    assert(t[m] == all[m]);
                }
            }
        }
        seen.push(k);
        if !found {
            r.push(x);
        }
        i = i + 1;
    }
    assert(all.take(all.len() as int) =~= all);
    r
}


/// An artist of a caption as plain values.
pub struct ArtistRefV {
    pub id: Option<Seq<char>>,
    pub name: Seq<char>,
}

impl DeepView for ArtistRef {
    type V = ArtistRefV;

    open spec fn deep_view(&self) -> ArtistRefV {
        ArtistRefV { id: self.id.deep_view(), name: self.name@ }
    }
}

/// A track as plain values.
pub struct TrackV {
    pub video_id: Seq<char>,
    pub title: Seq<char>,
    pub artists: Seq<ArtistRefV>,
    pub artists_text: Option<Seq<char>>,
    pub album_id: Option<Seq<char>>,
    pub album_title: Option<Seq<char>>,
    pub duration_ms: Option<i64>,
    pub duration_text: Option<Seq<char>>,
    pub thumbnail_url: Option<Seq<char>>,
    pub explicit: bool,
    pub video_type: Option<Seq<char>>,
    pub views_text: Option<Seq<char>>,
    pub unavailable: bool,
}

impl DeepView for Track {
    type V = TrackV;

    open spec fn deep_view(&self) -> TrackV {
        TrackV {
            video_id: self.video_id@,
            title: self.title@,
            artists: self.artists.deep_view(),
            artists_text: self.artists_text.deep_view(),
            album_id: self.album_id.deep_view(),
            album_title: self.album_title.deep_view(),
            duration_ms: self.duration_ms,
            duration_text: self.duration_text.deep_view(),
            thumbnail_url: self.thumbnail_url.deep_view(),
            explicit: self.explicit,
            video_type: self.video_type.deep_view(),
            views_text: self.views_text.deep_view(),
            unavailable: self.unavailable,
        }
    }
}

/// An album as plain values.
pub struct AlbumV {
    pub browse_id: Seq<char>,
    pub title: Seq<char>,
    pub artists: Seq<ArtistRefV>,
    pub artists_text: Option<Seq<char>>,
    pub year: Option<Seq<char>>,
    pub type_text: Option<Seq<char>>,
    pub thumbnail_url: Option<Seq<char>>,
    pub playlist_id: Option<Seq<char>>,
    pub explicit: bool,
}

impl DeepView for AlbumItem {
    type V = AlbumV;

    open spec fn deep_view(&self) -> AlbumV {
        AlbumV {
            browse_id: self.browse_id@,
            title: self.title@,
            artists: self.artists.deep_view(),
            artists_text: self.artists_text.deep_view(),
            year: self.year.deep_view(),
            type_text: self.type_text.deep_view(),
            thumbnail_url: self.thumbnail_url.deep_view(),
            playlist_id: self.playlist_id.deep_view(),
            explicit: self.explicit,
        }
    }
}

/// An artist or channel as plain values.
pub struct ArtistItemV {
    pub browse_id: Seq<char>,
    pub name: Seq<char>,
    pub subtitle: Option<Seq<char>>,
    pub thumbnail_url: Option<Seq<char>>,
    pub is_channel: bool,
}

impl DeepView for ArtistItem {
    type V = ArtistItemV;

    open spec fn deep_view(&self) -> ArtistItemV {
        ArtistItemV {
            browse_id: self.browse_id@,
            name: self.name@,
            subtitle: self.subtitle.deep_view(),
            thumbnail_url: self.thumbnail_url.deep_view(),
            is_channel: self.is_channel,
        }
    }
}

/// A playlist as plain values.
pub struct PlaylistV {
    pub playlist_id: Seq<char>,
    pub title: Seq<char>,
    pub subtitle: Option<Seq<char>>,
    pub thumbnail_url: Option<Seq<char>>,
}

impl DeepView for PlaylistItem {
    type V = PlaylistV;

    open spec fn deep_view(&self) -> PlaylistV {
        PlaylistV {
            playlist_id: self.playlist_id@,
            title: self.title@,
            subtitle: self.subtitle.deep_view(),
            thumbnail_url: self.thumbnail_url.deep_view(),
        }
    }
}

/// A mood tile as plain values.
pub struct MoodV {
    pub title: Seq<char>,
    pub browse_id: Seq<char>,
    pub params: Option<Seq<char>>,
    pub color: Option<u32>,
}

impl DeepView for MoodItem {
    type V = MoodV;

    open spec fn deep_view(&self) -> MoodV {
        MoodV { title: self.title@, browse_id: self.browse_id@, params: self.params.deep_view(), color: self.color }
    }
}

/// A catalogue item as plain values.
pub enum ItemV {
    Track(TrackV),
    Album(AlbumV),
    Artist(ArtistItemV),
    Playlist(PlaylistV),
    Mood(MoodV),
}

impl DeepView for MusicItem {
    type V = ItemV;

    open spec fn deep_view(&self) -> ItemV {
        match self {
            MusicItem::Track(t) => ItemV::Track(t.deep_view()),
            MusicItem::Album(a) => ItemV::Album(a.deep_view()),
            MusicItem::Artist(a) => ItemV::Artist(a.deep_view()),
            MusicItem::Playlist(p) => ItemV::Playlist(p.deep_view()),
            MusicItem::Mood(m) => ItemV::Mood(m.deep_view()),
        }
    }
}

/// A shelf as plain values.
pub struct ShelfV {
    pub title: Option<Seq<char>>,
    pub items: Seq<ItemV>,
    pub more_browse_id: Option<Seq<char>>,
    pub more_params: Option<Seq<char>>,
}

impl DeepView for Shelf {
    type V = ShelfV;

    open spec fn deep_view(&self) -> ShelfV {
        ShelfV {
            title: self.title.deep_view(),
            items: self.items.deep_view(),
            more_browse_id: self.more_browse_id.deep_view(),
            more_params: self.more_params.deep_view(),
        }
    }
}


/// The key by which repeats in results are dropped, of an item as plain values.
pub open spec fn item_key_v(item: ItemV) -> Seq<char> {
    match item {
        ItemV::Track(t) => "t:"@ + t.video_id,
        ItemV::Album(a) => "a:"@ + a.browse_id,
        ItemV::Artist(r) => "r:"@ + r.browse_id,
        ItemV::Playlist(p) => "p:"@ + p.playlist_id,
        ItemV::Mood(m) => "m:"@ + m.browse_id + match m.params {
            Some(p) => p,
            None => Seq::empty(),
        },
    }
}

/// Some item before `i` has the key `k`.
pub open spec fn key_seen_v(items: Seq<ItemV>, i: int, k: Seq<char>) -> bool {
    exists|j: int| 0 <= j < i && #[trigger] item_key_v(items[j]) == k
}

/// The items whose key did not appear before them, in order.
pub open spec fn distinct_v(items: Seq<ItemV>) -> Seq<ItemV>
    decreases items.len(),
{
    if items.len() == 0 {
        Seq::empty()
    } else {
        let d = distinct_v(items.drop_last());
        if key_seen_v(items, items.len() - 1, item_key_v(items.last())) { d } else { d.push(items.last()) }
    }
}

pub open spec fn items_view(items: Seq<MusicItem>) -> Seq<ItemV> {
    items.map_values(|x: MusicItem| x.deep_view())
}

/// Dropping repeats commutes with taking the items as plain values.
pub proof fn lemma_distinct_view(items: Seq<MusicItem>)
    ensures
        items_view(first_by_key(items)) == distinct_v(items_view(items)),
    decreases items.len(),
{
    if items.len() > 0 {
        let init = items.drop_last();
        lemma_distinct_view(init);
        assert(items_view(items).drop_last() =~= items_view(init));
        assert forall|j: int| 0 <= j < items.len() implies #[trigger] item_key(items[j]) == item_key_v(
            items_view(items)[j],
        ) by {}
        let k = item_key(items.last());
        assert(item_key_v(items_view(items).last()) == k);
        if key_seen(items, items.len() - 1, k) {
            let j = choose|j: int| 0 <= j < items.len() - 1 && #[trigger] item_key(items[j]) == k;
            assert(item_key_v(items_view(items)[j]) == k);
        }
        if key_seen_v(items_view(items), items.len() - 1, k) {
            let j = choose|j: int| 0 <= j < items.len() - 1 && #[trigger] item_key_v(items_view(items)[j]) == k;
            assert(item_key(items[j]) == k);
        }
        assert(items_view(first_by_key(init).push(items.last())) =~= items_view(first_by_key(init)).push(
            items_view(items).last(),
        ));
    }
}

/// The deep view of a vector of items is the items as plain values.
pub proof fn lemma_items_deep_view(v: Vec<MusicItem>)
    ensures
        v.deep_view() == items_view(v@),
{
    assert(v.deep_view() =~= items_view(v@));
}


/// Results without repeats: no key comes twice, and every item comes from the results.
pub proof fn law_distinct_has_no_repeats(items: Seq<ItemV>)
    ensures
        forall|i: int, j: int|
            0 <= i < j < distinct_v(items).len() ==> item_key_v(#[trigger] distinct_v(items)[i]) != item_key_v(
                #[trigger] distinct_v(items)[j],
            ),
        forall|i: int| 0 <= i < distinct_v(items).len() ==> items.contains(#[trigger] distinct_v(items)[i]),
    decreases items.len(),
{
    if items.len() > 0 {
        let init = items.drop_last();
        law_distinct_has_no_repeats(init);
        let d = distinct_v(init);
        if !key_seen_v(items, items.len() - 1, item_key_v(items.last())) {
            assert forall|i: int| 0 <= i < d.len() implies item_key_v(#[trigger] d[i]) != item_key_v(items.last()) by {
                assert(init.contains(d[i]));
                let k = choose|k: int| 0 <= k < init.len() && init[k] == d[i];
                assert(items[k] == init[k]);
            }
        }
        let r = distinct_v(items);
        assert forall|i: int| 0 <= i < r.len() implies items.contains(#[trigger] r[i]) by {
            if i < d.len() {
                assert(init.contains(d[i]));
                let k = choose|k: int| 0 <= k < init.len() && init[k] == d[i];
                assert(items[k] == d[i]);
            } else {
                assert(items[items.len() - 1] == r[i]);
            }
        }
    }
}

} // verus!
