//! Answers of plain YouTube (the WEB client): `videoRenderer`, `channelRenderer`,
//! `lockupViewModel` (videos and playlists in the newer layout). Shorts, shelves of Shorts and
//! promotions are left out.
use vstd::prelude::*;
use crate::chars::{chars_of, is_prefix, lit, starts_with, string_of, trim, concat};
use crate::innertube::music_parsers::{duration_ms, duration_ms_of, is_text, opt_str_is, or_else, or_string, trimmed_string};
use crate::innertube::music_parsers::join_dots;
use crate::innertube::nav::{
    as_str, at, at_index, best_thumbnail_at, best_thumbnail_of, element, find_all, found_all, items, items_at, member, refs_view,
    runs_at, runs_of, string_at, str_at, text_at, text_of, view_of, RunV,
};
use crate::json::{jview, Json, JsonV};
use crate::music::{ArtistItem, ArtistItemV, ArtistRef, ArtistRefV, ItemV, ItemsPage, MusicItem, PlaylistItem, PlaylistV, Track, TrackV};
use crate::text::{duration_of, duration_overflows_text};

verus! {

/// Reading the text as a duration stays within `i64`.
pub open spec fn dur_ok(t: Option<Seq<char>>) -> bool {
    t matches Some(x) ==> !(duration_of(x) is Overflow)
}

/// The `style` of an overlay of a video's cover.
pub open spec fn overlay_style(o: JsonV) -> Option<Seq<char>> {
    as_str(member(member(Some(o), "thumbnailOverlayTimeStatusRenderer"@), "style"@))
}

/// An overlay of the cover has this style.
pub open spec fn any_overlay(os: Seq<JsonV>, style: Seq<char>) -> bool
    decreases os.len(),
{
    os.len() > 0 && (any_overlay(os.drop_last(), style) || overlay_style(os.last()) == Some(style))
}

/// A badge of the video says it is live now.
pub open spec fn any_live_badge(bs: Seq<JsonV>) -> bool
    decreases bs.len(),
{
    bs.len() > 0 && (any_live_badge(bs.drop_last()) || as_str(member(member(Some(bs.last()), "metadataBadgeRenderer"@), "style"@)) == Some(
        "BADGE_STYLE_TYPE_LIVE_NOW"@,
    ))
}

/// A Short: a reel endpoint, or a cover marked as one.
pub open spec fn is_short(r: JsonV) -> bool {
    member(member(Some(r), "navigationEndpoint"@), "reelWatchEndpoint"@) is Some || any_overlay(
        items(member(Some(r), "thumbnailOverlays"@)),
        "SHORTS"@,
    )
}

/// Live now: by a badge or by the cover.
pub open spec fn is_live_video(r: JsonV) -> bool {
    any_live_badge(items(member(Some(r), "badges"@))) || any_overlay(items(member(Some(r), "thumbnailOverlays"@)), "LIVE"@)
}

/// The channel of a video: the first run of its owner, else of its byline.
pub open spec fn owner_of(r: JsonV) -> Option<RunV> {
    let a = runs_of(member(Some(r), "ownerText"@));
    let b = runs_of(member(Some(r), "longBylineText"@));
    if a.len() > 0 {
        Some(a[0])
    } else if b.len() > 0 {
        Some(b[0])
    } else {
        None
    }
}

/// A video has an id and a title and is no Short: it is read.
pub open spec fn video_read(r: JsonV) -> bool {
    &&& as_str(member(Some(r), "videoId"@)) is Some
    &&& text_of(member(Some(r), "title"@)) matches Some(t) && t.len() > 0
    &&& !is_short(r)
}

/// The length of a video that is read reads within `i64`.
pub open spec fn video_safe(r: JsonV) -> bool {
    video_read(r) && !is_live_video(r) ==> dur_ok(text_of(member(Some(r), "lengthText"@)))
}

/// `videoRenderer`: a video as a track of its channel; a Short is none.
pub open spec fn video_of(r: JsonV) -> Option<TrackV> {
    let node = Some(r);
    if !video_read(r) {
        None
    } else {
        let live = is_live_video(r);
        let owner = owner_of(r);
        let duration = if live { None } else { text_of(member(node, "lengthText"@)) };
        Some(
            TrackV {
                video_id: as_str(member(node, "videoId"@))->0,
                title: text_of(member(node, "title"@))->0,
                artists: match owner {
                    Some(o) => seq![ArtistRefV { id: o.browse_id, name: trim(o.text) }],
                    None => Seq::empty(),
                },
                artists_text: match owner {
                    Some(o) => Some(trim(o.text)),
                    None => None,
                },
                album_id: None,
                album_title: None,
                duration_ms: duration_ms_of(duration),
                duration_text: duration,
                thumbnail_url: best_thumbnail_of(member(member(node, "thumbnail"@), "thumbnails"@)),
                explicit: false,
                video_type: Some(if live { "live"@ } else { "ugc"@ }),
                views_text: or_else(text_of(member(node, "shortViewCountText"@)), text_of(member(node, "viewCountText"@))),
                unavailable: false,
            },
        )
    }
}

fn any_overlay_at(os: &[Json], style: &str) -> (r: bool)
    ensures
        r == any_overlay(os@.map_values(|j: Json| jview(j)), style@),
{
    let ghost ov = os@.map_values(|j: Json| jview(j));
    let mut found = false;
    let mut i: usize = 0;
    while i < os.len()
        invariant
            i <= os@.len(),
            ov == os@.map_values(|j: Json| jview(j)),
            found == any_overlay(ov.take(i as int), style@),
        decreases os.len() - i,
    {
        assert(ov.take(i + 1).drop_last() =~= ov.take(i as int));
        let s = str_at(at(at(Some(&os[i]), "thumbnailOverlayTimeStatusRenderer"), "style"));
        let this = match s {
            Some(t) => is_text(t, style),
            None => false,
        };
        found = found || this;
        i = i + 1;
    }
    assert(ov.take(os@.len() as int) =~= ov);
    found
}


fn any_live_badge_at(bs: &[Json]) -> (r: bool)
    ensures
        r == any_live_badge(bs@.map_values(|j: Json| jview(j))),
{
    let ghost bv = bs@.map_values(|j: Json| jview(j));
    let mut found = false;
    let mut i: usize = 0;
    while i < bs.len()
        invariant
            i <= bs@.len(),
            bv == bs@.map_values(|j: Json| jview(j)),
            found == any_live_badge(bv.take(i as int)),
        decreases bs.len() - i,
    {
        assert(bv.take(i + 1).drop_last() =~= bv.take(i as int));
        let this = opt_str_is(str_at(at(at(Some(&bs[i]), "metadataBadgeRenderer"), "style")), "BADGE_STYLE_TYPE_LIVE_NOW");
        found = found || this;
        i = i + 1;
    }
    assert(bv.take(bs@.len() as int) =~= bv);
    found
}

proof fn lemma_items_view(o: Option<&Json>, r: &[Json])
    requires
        r@.len() == items(view_of(o)).len(),
        forall|i: int| 0 <= i < r@.len() ==> #[trigger] jview(r@[i]) == items(view_of(o))[i],
    ensures
        r@.map_values(|j: Json| jview(j)) == items(view_of(o)),
{
    assert(r@.map_values(|j: Json| jview(j)) =~= items(view_of(o)));
}

fn word(s: &str) -> (r: String)
    ensures
        r@ == s@,
{
    string_of(&chars_of(s))
}

/// `videoRenderer`: a video as a track of its channel; a Short is none.
pub fn video(r: &Json) -> (t: Option<Track>)
    requires
        video_safe(jview(*r)),
    ensures
        t.deep_view() == video_of(jview(*r)),
{
    let n = Some(r);
    let video_id = match string_at(at(n, "videoId")) {
        Some(v) => v,
        None => return None,
    };
    let title = match text_at(at(n, "title")) {
        Some(t) => t,
        None => return None,
    };
    if chars_of(title.as_str()).len() == 0 {
        return None;
    }
    let overlays_node = at(n, "thumbnailOverlays");
    let badges_node = at(n, "badges");
    let overlays = items_at(overlays_node);
    let badges = items_at(badges_node);
    proof {
        lemma_items_view(overlays_node, overlays);
        lemma_items_view(badges_node, badges);
    }
    if at(at(n, "navigationEndpoint"), "reelWatchEndpoint").is_some() || any_overlay_at(overlays, "SHORTS") {
        return None;
    }
    let live = any_live_badge_at(badges) || any_overlay_at(overlays, "LIVE");
    let owner_runs = runs_at(at(n, "ownerText"));
    let byline_runs = runs_at(at(n, "longBylineText"));
    let owner: Option<(String, Option<String>)> = if owner_runs.len() > 0 {
        Some((trimmed_string(owner_runs[0].text.as_str()), crate::music::clone_opt_string(&owner_runs[0].browse_id)))
    } else if byline_runs.len() > 0 {
        Some((trimmed_string(byline_runs[0].text.as_str()), crate::music::clone_opt_string(&byline_runs[0].browse_id)))
    } else {
        None
    };
    let ghost ov = owner_of(jview(*r));
    proof {
        if owner_runs.len() > 0 {
            assert(owner_runs.deep_view()[0] == owner_runs@[0].deep_view());
        } else if byline_runs.len() > 0 {
            assert(byline_runs.deep_view()[0] == byline_runs@[0].deep_view());
        }
    }
    let duration = if live {
        None
    } else {
        text_at(at(n, "lengthText"))
    };
    let duration_ms = duration_ms(&duration);
    let (artists, artists_text) = match owner {
        Some((name, id)) => {
            let text = name.clone();
            (vec![ArtistRef { id, name }], Some(text))
        },
        None => (Vec::new(), None),
    };
    let t = Track {
        video_id,
        title,
        artists,
        artists_text,
        album_id: None,
        album_title: None,
        duration_ms,
        duration_text: duration,
        thumbnail_url: best_thumbnail_at(at(at(n, "thumbnail"), "thumbnails")),
        explicit: false,
        video_type: Some(if live { word("live") } else { word("ugc") }),
        views_text: or_string(text_at(at(n, "shortViewCountText")), text_at(at(n, "viewCountText"))),
        unavailable: false,
    };
    proof {
        reveal_strlit("live");
        reveal_strlit("ugc");
        assert(t.artists.deep_view() =~= video_of(jview(*r))->0.artists);
    }
    Some(t)
}


/// A cover address that starts with `//` gets `https:`.
pub open spec fn https_cover(t: Option<Seq<char>>) -> Option<Seq<char>> {
    match t {
        Some(x) => Some(if is_prefix("//"@, x) { "https:"@ + x } else { x }),
        None => None,
    }
}

/// `channelRenderer`: a channel of plain YouTube.
pub open spec fn channel_of(r: JsonV) -> Option<ItemV> {
    let node = Some(r);
    match (as_str(member(node, "channelId"@)), text_of(member(node, "title"@))) {
        (Some(id), Some(title)) => if title.len() == 0 {
            None
        } else {
            Some(
                ItemV::Artist(
                    ArtistItemV {
                        browse_id: id,
                        name: title,
                        subtitle: or_else(text_of(member(node, "videoCountText"@)), text_of(member(node, "subscriberCountText"@))),
                        thumbnail_url: https_cover(best_thumbnail_of(member(member(node, "thumbnail"@), "thumbnails"@))),
                        is_channel: true,
                    },
                ),
            )
        },
        _ => None,
    }
}

/// `playlistRenderer`: a playlist of the older layout.
pub open spec fn playlist_renderer_of(p: JsonV) -> Option<ItemV> {
    let node = Some(p);
    match (as_str(member(node, "playlistId"@)), text_of(member(node, "title"@))) {
        (Some(id), Some(title)) => if title.len() == 0 {
            None
        } else {
            Some(
                ItemV::Playlist(
                    PlaylistV {
                        playlist_id: id,
                        title,
                        subtitle: text_of(member(node, "longBylineText"@)),
                        thumbnail_url: best_thumbnail_of(member(element(member(node, "thumbnails"@), 0), "thumbnails"@)),
                    },
                ),
            )
        },
        _ => None,
    }
}

fn https_cover_of(t: Option<String>) -> (r: Option<String>)
    ensures
        r.deep_view() == https_cover(t.deep_view()),
{
    match t {
        Some(x) => {
            let v = chars_of(x.as_str());
            if starts_with(&v, &lit("//")) {
                let w = concat(&lit("https:"), &v);
                Some(string_of(&w))
            } else {
                Some(x)
            }
        },
        None => None,
    }
}

/// `channelRenderer`: a channel of plain YouTube.
pub fn channel(r: &Json) -> (item: Option<MusicItem>)
    ensures
        item.deep_view() == channel_of(jview(*r)),
{
    let n = Some(r);
    let id = match string_at(at(n, "channelId")) {
        Some(v) => v,
        None => return None,
    };
    let title = match text_at(at(n, "title")) {
        Some(t) => t,
        None => return None,
    };
    if chars_of(title.as_str()).len() == 0 {
        return None;
    }
    Some(
        MusicItem::Artist(
            ArtistItem {
                browse_id: id,
                name: title,
                subtitle: or_string(text_at(at(n, "videoCountText")), text_at(at(n, "subscriberCountText"))),
                thumbnail_url: https_cover_of(best_thumbnail_at(at(at(n, "thumbnail"), "thumbnails"))),
                is_channel: true,
            },
        ),
    )
}

/// `playlistRenderer`: a playlist of the older layout.
pub fn playlist_renderer(p: &Json) -> (item: Option<MusicItem>)
    ensures
        item.deep_view() == playlist_renderer_of(jview(*p)),
{
    let n = Some(p);
    let id = match string_at(at(n, "playlistId")) {
        Some(v) => v,
        None => return None,
    };
    let title = match text_at(at(n, "title")) {
        Some(t) => t,
        None => return None,
    };
    if chars_of(title.as_str()).len() == 0 {
        return None;
    }
    Some(
        MusicItem::Playlist(
            PlaylistItem {
                playlist_id: id,
                title,
                subtitle: text_at(at(n, "longBylineText")),
                thumbnail_url: best_thumbnail_at(at(at_index(at(n, "thumbnails"), 0), "thumbnails")),
            },
        ),
    )
}

// ── lockupViewModel ──

/// The text of a part of a metadata row.
pub open spec fn part_text(p: JsonV) -> Option<Seq<char>> {
    as_str(member(member(Some(p), "text"@), "content"@))
}

/// The non-empty texts of a row's parts.
pub open spec fn row_parts(ps: Seq<JsonV>) -> Seq<Seq<char>>
    decreases ps.len(),
{
    if ps.len() == 0 {
        Seq::empty()
    } else {
        let acc = row_parts(ps.drop_last());
        match part_text(ps.last()) {
            Some(t) => if t.len() > 0 { acc.push(t) } else { acc },
            None => acc,
        }
    }
}

/// The rows of metadata that have a part with text.
pub open spec fn rows_of(rs: Seq<JsonV>) -> Seq<Seq<Seq<char>>>
    decreases rs.len(),
{
    if rs.len() == 0 {
        Seq::empty()
    } else {
        let acc = rows_of(rs.drop_last());
        let parts = row_parts(items(member(Some(rs.last()), "metadataParts"@)));
        if parts.len() > 0 { acc.push(parts) } else { acc }
    }
}

proof fn lemma_rows_not_empty(rs: Seq<JsonV>)
    ensures
        forall|i: int| 0 <= i < rows_of(rs).len() ==> (#[trigger] rows_of(rs)[i]).len() > 0,
    decreases rs.len(),
{
    if rs.len() > 0 {
        lemma_rows_not_empty(rs.drop_last());
        let acc = rows_of(rs.drop_last());
        assert forall|i: int| 0 <= i < rows_of(rs).len() implies (#[trigger] rows_of(rs)[i]).len() > 0 by {
            if i < acc.len() {
                assert(rows_of(rs)[i] == acc[i]);
            }
        }
    }
}

/// The text of a badge on the cover.
pub open spec fn badge_text(b: JsonV) -> Option<Seq<char>> {
    as_str(member(Some(b), "text"@))
}

/// The first badge text that reads as a duration.
pub open spec fn first_duration(bs: Seq<JsonV>) -> Option<Seq<char>>
    decreases bs.len(),
{
    if bs.len() == 0 {
        None
    } else {
        match badge_text(bs[0]) {
            Some(t) => if duration_of(t) is Value { Some(t) } else { first_duration(bs.drop_first()) },
            None => first_duration(bs.drop_first()),
        }
    }
}

proof fn lemma_first_duration(bs: Seq<JsonV>)
    ensures
        first_duration(bs) matches Some(t) ==> duration_of(t) is Value,
    decreases bs.len(),
{
    if bs.len() > 0 {
        lemma_first_duration(bs.drop_first());
    }
}

/// The badge texts read up to the first duration stay within `i64`.
pub open spec fn badges_safe(bs: Seq<JsonV>) -> bool
    decreases bs.len(),
{
    if bs.len() == 0 {
        true
    } else {
        match badge_text(bs[0]) {
            Some(t) => !(duration_of(t) is Overflow) && (duration_of(t) is Value || badges_safe(bs.drop_first())),
            None => badges_safe(bs.drop_first()),
        }
    }
}

/// A badge says live.
pub open spec fn any_live_style(bs: Seq<JsonV>) -> bool
    decreases bs.len(),
{
    bs.len() > 0 && (any_live_style(bs.drop_last()) || as_str(member(Some(bs.last()), "badgeStyle"@)) == Some(
        "THUMBNAIL_OVERLAY_BADGE_STYLE_LIVE"@,
    ))
}

/// The first channel id (`UC…`) among the browse endpoints.
pub open spec fn first_channel(bs: Seq<JsonV>) -> Option<Seq<char>>
    decreases bs.len(),
{
    if bs.len() == 0 {
        None
    } else {
        match as_str(member(Some(bs[0]), "browseId"@)) {
            Some(id) => if is_prefix("UC"@, id) { Some(id) } else { first_channel(bs.drop_first()) },
            None => first_channel(bs.drop_first()),
        }
    }
}

fn row_parts_at(ps: &[Json]) -> (r: Vec<String>)
    ensures
        r.deep_view() == row_parts(ps@.map_values(|j: Json| jview(j))),
{
    let ghost pv = ps@.map_values(|j: Json| jview(j));
    let mut out: Vec<String> = Vec::new();
    let mut i: usize = 0;
    while i < ps.len()
        invariant
            i <= ps@.len(),
            pv == ps@.map_values(|j: Json| jview(j)),
            out.deep_view() == row_parts(pv.take(i as int)),
        decreases ps.len() - i,
    {
        assert(pv.take(i + 1).drop_last() =~= pv.take(i as int));
        assert(pv.take(i + 1).last() == jview(ps@[i as int]));
        match string_at(at(at(Some(&ps[i]), "text"), "content")) {
            Some(t) => {
                if chars_of(t.as_str()).len() > 0 {
                    let ghost before = out.deep_view();
                    out.push(t);
                    assert(out.deep_view() =~= before.push(part_text(pv[i as int])->0));
                }
            },
            None => {},
        }
        i = i + 1;
    }
    assert(pv.take(ps@.len() as int) =~= pv);
    out
}

fn rows_at(rs: &[Json]) -> (r: Vec<Vec<String>>)
    ensures
        r.deep_view() == rows_of(rs@.map_values(|j: Json| jview(j))),
{
    let ghost rv = rs@.map_values(|j: Json| jview(j));
    let mut out: Vec<Vec<String>> = Vec::new();
    let mut i: usize = 0;
    while i < rs.len()
        invariant
            i <= rs@.len(),
            rv == rs@.map_values(|j: Json| jview(j)),
            out.deep_view() == rows_of(rv.take(i as int)),
        decreases rs.len() - i,
    {
        assert(rv.take(i + 1).drop_last() =~= rv.take(i as int));
        assert(rv.take(i + 1).last() == jview(rs@[i as int]));
        let node = at(Some(&rs[i]), "metadataParts");
        let parts_json = items_at(node);
        proof {
            lemma_items_view(node, parts_json);
        }
        let parts = row_parts_at(parts_json);
        if parts.len() > 0 {
            let ghost before = out.deep_view();
            out.push(parts);
            assert(out.deep_view() =~= before.push(row_parts(items(member(Some(rv[i as int]), "metadataParts"@)))));
        }
        i = i + 1;
    }
    assert(rv.take(rs@.len() as int) =~= rv);
    out
}

fn first_duration_at(bs: &Vec<&Json>) -> (r: Option<String>)
    requires
        badges_safe(refs_view(bs@)),
    ensures
        r.deep_view() == first_duration(refs_view(bs@)),
{
    let ghost bv = refs_view(bs@);
    let mut i: usize = 0;
    assert(bv.skip(0) =~= bv);
    while i < bs.len()
        invariant
            i <= bs@.len(),
            bv == refs_view(bs@),
            first_duration(bv) == first_duration(bv.skip(i as int)),
            badges_safe(bv.skip(i as int)),
        decreases bs.len() - i,
    {
        assert(bv.skip(i as int)[0] == jview(*bs@[i as int]));
        assert(bv.skip(i as int).drop_first() =~= bv.skip(i + 1));
        match string_at(at(Some(bs[i]), "text")) {
            Some(t) => {
                let d = crate::text::parse_duration(Some(t.as_str()));
                if d.is_some() {
                    return Some(t);
                }
            },
            None => {},
        }
        i = i + 1;
    }
    None
}

fn any_live_style_at(bs: &Vec<&Json>) -> (r: bool)
    ensures
        r == any_live_style(refs_view(bs@)),
{
    let ghost bv = refs_view(bs@);
    let mut found = false;
    let mut i: usize = 0;
    while i < bs.len()
        invariant
            i <= bs@.len(),
            bv == refs_view(bs@),
            found == any_live_style(bv.take(i as int)),
        decreases bs.len() - i,
    {
        assert(bv.take(i + 1).drop_last() =~= bv.take(i as int));
        assert(bv.take(i + 1).last() == jview(*bs@[i as int]));
        let this = opt_str_is(str_at(at(Some(bs[i]), "badgeStyle")), "THUMBNAIL_OVERLAY_BADGE_STYLE_LIVE");
        found = found || this;
        i = i + 1;
    }
    assert(bv.take(bs@.len() as int) =~= bv);
    found
}

fn first_channel_at(bs: &Vec<&Json>) -> (r: Option<String>)
    ensures
        r.deep_view() == first_channel(refs_view(bs@)),
{
    let ghost bv = refs_view(bs@);
    let mut i: usize = 0;
    assert(bv.skip(0) =~= bv);
    while i < bs.len()
        invariant
            i <= bs@.len(),
            bv == refs_view(bs@),
            first_channel(bv) == first_channel(bv.skip(i as int)),
        decreases bs.len() - i,
    {
        assert(bv.skip(i as int)[0] == jview(*bs@[i as int]));
        assert(bv.skip(i as int).drop_first() =~= bv.skip(i + 1));
        match string_at(at(Some(bs[i]), "browseId")) {
            Some(id) => {
                if starts_with(&chars_of(id.as_str()), &lit("UC")) {
                    return Some(id);
                }
            },
            None => {},
        }
        i = i + 1;
    }
    None
}

fn join_parts(parts: &Vec<String>) -> (r: String)
    ensures
        r@ == join_dots(parts.deep_view()),
{
    let ghost pv = parts.deep_view();
    let mut out: Vec<char> = Vec::new();
    let mut i: usize = 0;
    while i < parts.len()
        invariant
            i <= parts@.len(),
            pv == parts.deep_view(),
            out@ == join_dots(pv.take(i as int)),
        decreases parts.len() - i,
    {
        assert(pv.take(i + 1).drop_last() =~= pv.take(i as int));
        assert(pv.take(i + 1).last() == parts@[i as int]@);
        if i > 0 {
            crate::chars::extend_str(&mut out, " · ");
        }
        crate::chars::extend_str(&mut out, parts[i].as_str());
        proof {
            reveal_strlit(" · ");
            if i == 0 {
                assert(out@ =~= join_dots(pv.take(1)));
            } else {
                assert(out@ =~= join_dots(pv.take(i + 1)));
            }
        }
        i = i + 1;
    }
    assert(pv.take(parts@.len() as int) =~= pv);
    string_of(&out)
}


/// The metadata of a lockup.
pub open spec fn lockup_meta(r: JsonV) -> Option<JsonV> {
    member(member(Some(r), "metadata"@), "lockupMetadataViewModel"@)
}

pub open spec fn lockup_title(r: JsonV) -> Option<Seq<char>> {
    as_str(member(member(lockup_meta(r), "title"@), "content"@))
}

/// The rows of a lockup's metadata.
pub open spec fn lockup_rows(r: JsonV) -> Seq<Seq<Seq<char>>> {
    rows_of(items(member(member(member(lockup_meta(r), "metadata"@), "contentMetadataViewModel"@), "metadataRows"@)))
}

/// The cover's sources: of a video, else of a collection.
pub open spec fn lockup_image(r: JsonV) -> Option<JsonV> {
    let image = member(Some(r), "contentImage"@);
    or_else(
        member(member(member(image, "thumbnailViewModel"@), "image"@), "sources"@),
        member(member(member(member(member(image, "collectionThumbnailViewModel"@), "primaryThumbnail"@), "thumbnailViewModel"@), "image"@), "sources"@),
    )
}

/// The badges on a lockup's cover.
pub open spec fn lockup_badges(r: JsonV) -> Seq<JsonV> {
    found_all(r, "thumbnailBadgeViewModel"@)
}

/// The browse endpoints of a lockup's metadata.
pub open spec fn lockup_links(r: JsonV) -> Seq<JsonV> {
    match lockup_meta(r) {
        Some(m) => found_all(m, "browseEndpoint"@),
        None => Seq::empty(),
    }
}

/// A lockup with an id and a title is read.
pub open spec fn lockup_read(r: JsonV) -> bool {
    &&& as_str(member(Some(r), "contentId"@)) is Some
    &&& (lockup_title(r) matches Some(t) && t.len() > 0)
}

/// The badges of a lockup that is read stay within `i64` as durations.
pub open spec fn lockup_safe(r: JsonV) -> bool {
    lockup_read(r) ==> badges_safe(lockup_badges(r))
}

/// A mix (`RD…`, but not an album `RDCLAK…`) is an endless queue, not a playlist.
pub open spec fn is_mix(id: Seq<char>) -> bool {
    is_prefix("RD"@, id) && !is_prefix("RDCLAK"@, id)
}

/// `lockupViewModel`: a video or a playlist of YouTube's newer layout.
pub open spec fn lockup_of(r: JsonV) -> Option<ItemV> {
    if !lockup_read(r) {
        None
    } else {
        let id = as_str(member(Some(r), "contentId"@))->0;
        let title = lockup_title(r)->0;
        let rows = lockup_rows(r);
        let thumbnail = best_thumbnail_of(lockup_image(r));
        let badge = first_duration(lockup_badges(r));
        let kind = as_str(member(Some(r), "contentType"@));
        if kind == Some("LOCKUP_CONTENT_TYPE_VIDEO"@) {
            let channel_name = if rows.len() > 1 { Some(rows[0][0]) } else { None };
            let live = badge is None && any_live_style(lockup_badges(r));
            Some(
                ItemV::Track(
                    TrackV {
                        video_id: id,
                        title,
                        artists: match channel_name {
                            Some(n) => seq![ArtistRefV { id: first_channel(lockup_links(r)), name: n }],
                            None => Seq::empty(),
                        },
                        artists_text: channel_name,
                        album_id: None,
                        album_title: None,
                        duration_ms: duration_ms_of(badge),
                        duration_text: badge,
                        thumbnail_url: thumbnail,
                        explicit: false,
                        video_type: Some(if live { "live"@ } else { "ugc"@ }),
                        views_text: if rows.len() > 0 { Some(rows.last()[0]) } else { None },
                        unavailable: false,
                    },
                ),
            )
        } else if kind == Some("LOCKUP_CONTENT_TYPE_PLAYLIST"@) || kind == Some("LOCKUP_CONTENT_TYPE_ALBUM"@) {
            if is_mix(id) {
                None
            } else {
                Some(
                    ItemV::Playlist(
                        PlaylistV {
                            playlist_id: id,
                            title,
                            subtitle: if rows.len() > 0 { Some(join_dots(rows[0])) } else { None },
                            thumbnail_url: thumbnail,
                        },
                    ),
                )
            }
        } else {
            None
        }
    }
}

/// `lockupViewModel`: a video or a playlist of YouTube's newer layout.
pub fn lockup(r: &Json) -> (item: Option<MusicItem>)
    requires
        lockup_safe(jview(*r)),
    ensures
        item.deep_view() == lockup_of(jview(*r)),
{
    let n = Some(r);
    let ghost rv = jview(*r);
    let id = match string_at(at(n, "contentId")) {
        Some(v) => v,
        None => return None,
    };
    let meta = at(at(n, "metadata"), "lockupMetadataViewModel");
    let title = match string_at(at(at(meta, "title"), "content")) {
        Some(t) => t,
        None => return None,
    };
    if chars_of(title.as_str()).len() == 0 {
        return None;
    }
    let rows_node = at(at(at(meta, "metadata"), "contentMetadataViewModel"), "metadataRows");
    let rows_json = items_at(rows_node);
    proof {
        lemma_items_view(rows_node, rows_json);
    }
    let rows = rows_at(rows_json);
    proof {
        lemma_rows_not_empty(items(view_of(rows_node)));
    }
    let image = at(n, "contentImage");
    let sources = crate::innertube::music_parsers::or_json(
        at(at(at(image, "thumbnailViewModel"), "image"), "sources"),
        at(at(at(at(at(image, "collectionThumbnailViewModel"), "primaryThumbnail"), "thumbnailViewModel"), "image"), "sources"),
    );
    let thumbnail = best_thumbnail_at(sources);
    let badges = find_all(n, "thumbnailBadgeViewModel");
    let badge = first_duration_at(&badges);
    let kind = str_at(at(n, "contentType"));
    proof {
        reveal_strlit("live");
        reveal_strlit("ugc");
    }
    if opt_str_is(kind, "LOCKUP_CONTENT_TYPE_VIDEO") {
        let channel_name: Option<String> = if rows.len() > 1 {
            assert(rows.deep_view()[0] == rows@[0].deep_view());
            assert(rows@[0].deep_view()[0] == rows@[0]@[0]@);
            Some(rows[0][0].clone())
        } else {
            None
        };
        let live = badge.is_none() && any_live_style_at(&badges);
        let links = find_all(meta, "browseEndpoint");
        let channel_id = first_channel_at(&links);
        let views: Option<String> = if rows.len() > 0 {
            let last = rows.len() - 1;
            assert(rows.deep_view()[last as int] == rows@[last as int].deep_view());
            assert(rows@[last as int].deep_view()[0] == rows@[last as int]@[0]@);
            Some(rows[last][0].clone())
        } else {
            None
        };
        proof {
            lemma_first_duration(lockup_badges(rv));
        }
        let duration_ms = duration_ms(&badge);
        let (artists, artists_text) = match channel_name {
            Some(name) => {
                let text = name.clone();
                (vec![ArtistRef { id: channel_id, name }], Some(text))
            },
            None => (Vec::new(), None),
        };
        let t = Track {
            video_id: id,
            title,
            artists,
            artists_text,
            album_id: None,
            album_title: None,
            duration_ms,
            duration_text: badge,
            thumbnail_url: thumbnail,
            explicit: false,
            video_type: Some(if live { word("live") } else { word("ugc") }),
            views_text: views,
            unavailable: false,
        };
        proof {
            assert(t.artists.deep_view() =~= (lockup_of(rv)->0->Track_0).artists);
        }
        return Some(MusicItem::Track(t));
    }
    if opt_str_is(kind, "LOCKUP_CONTENT_TYPE_PLAYLIST") || opt_str_is(kind, "LOCKUP_CONTENT_TYPE_ALBUM") {
        let v = chars_of(id.as_str());
        if starts_with(&v, &lit("RD")) && !starts_with(&v, &lit("RDCLAK")) {
            return None;
        }
        let subtitle: Option<String> = if rows.len() > 0 {
            assert(rows.deep_view()[0] == rows@[0].deep_view());
            Some(join_parts(&rows[0]))
        } else {
            None
        };
        return Some(MusicItem::Playlist(PlaylistItem { playlist_id: id, title, subtitle, thumbnail_url: thumbnail }));
    }
    None
}


// ── pages ──

/// An item of plain YouTube: a video, a channel, a lockup or a playlist, by its renderer.
pub open spec fn web_item_of(node: JsonV) -> Option<ItemV> {
    let n = Some(node);
    match member(n, "videoRenderer"@) {
        Some(v) => match video_of(v) {
            Some(t) => Some(ItemV::Track(t)),
            None => None,
        },
        None => match member(n, "channelRenderer"@) {
            Some(c) => channel_of(c),
            None => match member(n, "lockupViewModel"@) {
                Some(l) => lockup_of(l),
                None => match member(n, "playlistRenderer"@) {
                    Some(p) => playlist_renderer_of(p),
                    None => None,
                },
            },
        },
    }
}

/// The durations an item reads stay within `i64`.
pub open spec fn web_item_safe(node: JsonV) -> bool {
    let n = Some(node);
    match member(n, "videoRenderer"@) {
        Some(v) => video_safe(v),
        None => member(n, "channelRenderer"@) is Some || match member(n, "lockupViewModel"@) {
            Some(l) => lockup_safe(l),
            None => true,
        },
    }
}

/// An item of plain YouTube by its renderer.
pub fn web_item(node: &Json) -> (item: Option<MusicItem>)
    requires
        web_item_safe(jview(*node)),
    ensures
        item.deep_view() == web_item_of(jview(*node)),
{
    let n = Some(node);
    match at(n, "videoRenderer") {
        Some(v) => return match video(v) {
            Some(t) => Some(MusicItem::Track(t)),
            None => None,
        },
        None => {},
    }
    match at(n, "channelRenderer") {
        Some(c) => return channel(c),
        None => {},
    }
    match at(n, "lockupViewModel") {
        Some(l) => return lockup(l),
        None => {},
    }
    match at(n, "playlistRenderer") {
        Some(p) => playlist_renderer(p),
        None => None,
    }
}

/// The items read from the elements, in order; those that are no item are left out.
pub open spec fn web_items(vs: Seq<JsonV>) -> Seq<ItemV>
    decreases vs.len(),
{
    if vs.len() == 0 {
        Seq::empty()
    } else {
        let acc = web_items(vs.drop_last());
        match web_item_of(vs.last()) {
            Some(i) => acc.push(i),
            None => acc,
        }
    }
}

/// The continuation token of a `continuationItemRenderer`.
pub open spec fn token_of(more: JsonV) -> Option<Seq<char>> {
    as_str(member(member(member(Some(more), "continuationEndpoint"@), "continuationCommand"@), "token"@))
}

/// A page of items as read so far.
pub struct WebPageV {
    pub items: Seq<ItemV>,
    pub continuation: Option<Seq<char>>,
}

/// One section of a search: an item section gives its items, a continuation its token (the
/// last one counts), anything else is an item where it is one.
pub open spec fn section_step(acc: WebPageV, sec: JsonV) -> WebPageV {
    let n = Some(sec);
    match member(n, "itemSectionRenderer"@) {
        Some(is) => WebPageV { items: acc.items + web_items(items(member(Some(is), "contents"@))), continuation: acc.continuation },
        None => match member(n, "continuationItemRenderer"@) {
            Some(more) => WebPageV { items: acc.items, continuation: token_of(more) },
            None => match web_item_of(sec) {
                Some(i) => WebPageV { items: acc.items.push(i), continuation: acc.continuation },
                None => acc,
            },
        },
    }
}

pub open spec fn search_page_of(secs: Seq<JsonV>) -> WebPageV
    decreases secs.len(),
{
    if secs.len() == 0 {
        WebPageV { items: Seq::empty(), continuation: None }
    } else {
        section_step(search_page_of(secs.drop_last()), secs.last())
    }
}

/// Every item a section reads is safe.
pub open spec fn section_safe(sec: JsonV) -> bool {
    let n = Some(sec);
    match member(n, "itemSectionRenderer"@) {
        Some(is) => forall|j: int|
            0 <= j < items(member(Some(is), "contents"@)).len() ==> #[trigger] web_item_safe(items(member(Some(is), "contents"@))[j]),
        None => member(n, "continuationItemRenderer"@) is Some || web_item_safe(sec),
    }
}

pub open spec fn sections_safe(sections: Option<JsonV>) -> bool {
    forall|i: int| 0 <= i < items(sections).len() ==> #[trigger] section_safe(items(sections)[i])
}

fn web_items_at(vs: &[Json]) -> (r: Vec<MusicItem>)
    requires
        forall|i: int| 0 <= i < vs@.len() ==> #[trigger] web_item_safe(jview(vs@[i])),
    ensures
        r.deep_view() == web_items(vs@.map_values(|j: Json| jview(j))),
{
    let ghost vv = vs@.map_values(|j: Json| jview(j));
    let mut out: Vec<MusicItem> = Vec::new();
    let mut i: usize = 0;
    while i < vs.len()
        invariant
            i <= vs@.len(),
            vv == vs@.map_values(|j: Json| jview(j)),
            forall|k: int| 0 <= k < vs@.len() ==> #[trigger] web_item_safe(jview(vs@[k])),
            out.deep_view() == web_items(vv.take(i as int)),
        decreases vs.len() - i,
    {
        assert(vv.take(i + 1).drop_last() =~= vv.take(i as int));
        assert(vv.take(i + 1).last() == jview(vs@[i as int]));
        assert(web_item_safe(jview(vs@[i as int])));
        match web_item(&vs[i]) {
            Some(x) => {
                let ghost before = out.deep_view();
                out.push(x);
                assert(out.deep_view() =~= before.push(web_item_of(vv[i as int])->0));
            },
            None => {},
        }
        i = i + 1;
    }
    assert(vv.take(vs@.len() as int) =~= vv);
    out
}

fn token_at(more: &Json) -> (r: Option<String>)
    ensures
        r.deep_view() == token_of(jview(*more)),
{
    string_at(at(at(at(Some(more), "continuationEndpoint"), "continuationCommand"), "token"))
}

/// A page of search results of plain YouTube: its items and the continuation.
pub fn search_page(sections: Option<&Json>) -> (r: ItemsPage)
    requires
        sections_safe(view_of(sections)),
    ensures
        r.items.deep_view() == search_page_of(items(view_of(sections))).items,
        r.continuation.deep_view() == search_page_of(items(view_of(sections))).continuation,
{
    let secs = items_at(sections);
    let ghost sv = items(view_of(sections));
    let mut items_out: Vec<MusicItem> = Vec::new();
    let mut cont: Option<String> = None;
    let mut i: usize = 0;
    while i < secs.len()
        invariant
            i <= secs@.len(),
            secs@.len() == sv.len(),
            sv == items(view_of(sections)),
            sections_safe(view_of(sections)),
            forall|m: int| 0 <= m < secs@.len() ==> #[trigger] jview(secs@[m]) == sv[m],
            items_out.deep_view() == search_page_of(sv.take(i as int)).items,
            cont.deep_view() == search_page_of(sv.take(i as int)).continuation,
        decreases secs.len() - i,
    {
        assert(sv.take(i + 1).drop_last() =~= sv.take(i as int));
        assert(sv.take(i + 1).last() == sv[i as int]);
        assert(section_safe(sv[i as int]));
        let n = Some(&secs[i]);
        let ghost before = items_out.deep_view();
        match at(n, "itemSectionRenderer") {
            Some(is) => {
                let cnode = at(Some(is), "contents");
                let cs = items_at(cnode);
                proof {
                    lemma_items_view(cnode, cs);
                    assert forall|k: int| 0 <= k < cs@.len() implies #[trigger] web_item_safe(jview(cs@[k])) by {
                        assert(jview(cs@[k]) == items(view_of(cnode))[k]);
                    }
                }
                let mut found = web_items_at(cs);
                let ghost fv = found.deep_view();
                items_out.append(&mut found);
                assert(items_out.deep_view() =~= before + fv);
            },
            None => match at(n, "continuationItemRenderer") {
                Some(more) => {
                    cont = token_at(more);
                },
                None => {
                    match web_item(&secs[i]) {
                        Some(x) => {
                            items_out.push(x);
                            assert(items_out.deep_view() =~= before.push(web_item_of(sv[i as int])->0));
                        },
                        None => {},
                    }
                },
            },
        }
        i = i + 1;
    }
    assert(sv.take(secs@.len() as int) =~= sv);
    ItemsPage { items: items_out, continuation: cont }
}

/// The node of a grid entry: the content of a `richItemRenderer`, else the entry itself.
pub open spec fn grid_node(e: JsonV) -> JsonV {
    match member(member(Some(e), "richItemRenderer"@), "content"@) {
        Some(c) => c,
        None => e,
    }
}

/// One entry of a channel's grid: a continuation gives its token, anything else is an item
/// where it is one.
pub open spec fn grid_step(acc: WebPageV, e: JsonV) -> WebPageV {
    match member(Some(e), "continuationItemRenderer"@) {
        Some(more) => WebPageV { items: acc.items, continuation: token_of(more) },
        None => match web_item_of(grid_node(e)) {
            Some(i) => WebPageV { items: acc.items.push(i), continuation: acc.continuation },
            None => acc,
        },
    }
}

pub open spec fn grid_page_of(es: Seq<JsonV>) -> WebPageV
    decreases es.len(),
{
    if es.len() == 0 {
        WebPageV { items: Seq::empty(), continuation: None }
    } else {
        grid_step(grid_page_of(es.drop_last()), es.last())
    }
}

pub open spec fn grid_safe(contents: Option<JsonV>) -> bool {
    forall|i: int|
        0 <= i < items(contents).len() ==> (member(Some(#[trigger] items(contents)[i]), "continuationItemRenderer"@) is Some
            || web_item_safe(grid_node(items(contents)[i])))
}

/// A page of a channel's grid: its items and the continuation.
pub fn grid_page(contents: Option<&Json>) -> (r: ItemsPage)
    requires
        grid_safe(view_of(contents)),
    ensures
        r.items.deep_view() == grid_page_of(items(view_of(contents))).items,
        r.continuation.deep_view() == grid_page_of(items(view_of(contents))).continuation,
{
    let es = items_at(contents);
    let ghost ev = items(view_of(contents));
    let mut items_out: Vec<MusicItem> = Vec::new();
    let mut cont: Option<String> = None;
    let mut i: usize = 0;
    while i < es.len()
        invariant
            i <= es@.len(),
            es@.len() == ev.len(),
            ev == items(view_of(contents)),
            grid_safe(view_of(contents)),
            forall|m: int| 0 <= m < es@.len() ==> #[trigger] jview(es@[m]) == ev[m],
            items_out.deep_view() == grid_page_of(ev.take(i as int)).items,
            cont.deep_view() == grid_page_of(ev.take(i as int)).continuation,
        decreases es.len() - i,
    {
        assert(ev.take(i + 1).drop_last() =~= ev.take(i as int));
        assert(ev.take(i + 1).last() == ev[i as int]);
        let n = Some(&es[i]);
        match at(n, "continuationItemRenderer") {
            Some(more) => {
                cont = token_at(more);
            },
            None => {
                let node = match at(at(n, "richItemRenderer"), "content") {
                    Some(c) => c,
                    None => &es[i],
                };
                assert(member(Some(ev[i as int]), "continuationItemRenderer"@) is Some || web_item_safe(grid_node(ev[i as int])));
                let ghost before = items_out.deep_view();
                match web_item(node) {
                    Some(x) => {
                        items_out.push(x);
                        assert(items_out.deep_view() =~= before.push(web_item_of(grid_node(ev[i as int]))->0));
                    },
                    None => {},
                }
            },
        }
        i = i + 1;
    }
    assert(ev.take(es@.len() as int) =~= ev);
    ItemsPage { items: items_out, continuation: cont }
}

/// The sections of a search answer of plain YouTube.
pub open spec fn web_sections(response: JsonV) -> Option<JsonV> {
    member(
        member(member(member(member(Some(response), "contents"@), "twoColumnSearchResultsRenderer"@), "primaryContents"@), "sectionListRenderer"@),
        "contents"@,
    )
}

/// The items of a continued search of plain YouTube.
pub open spec fn web_continued(response: JsonV) -> Option<JsonV> {
    member(
        member(crate::innertube::nav::element(member(Some(response), "onResponseReceivedCommands"@), 0), "appendContinuationItemsAction"@),
        "continuationItems"@,
    )
}

/// A search of plain YouTube: videos (no Shorts), channels, playlists, and the continuation.
pub fn parse_web_search(response: &Json) -> (r: ItemsPage)
    requires
        sections_safe(web_sections(jview(*response))),
    ensures
        r.items.deep_view() == search_page_of(items(web_sections(jview(*response)))).items,
        r.continuation.deep_view() == search_page_of(items(web_sections(jview(*response)))).continuation,
{
    search_page(at(at(at(at(at(Some(response), "contents"), "twoColumnSearchResultsRenderer"), "primaryContents"), "sectionListRenderer"), "contents"))
}

/// More results of a search of plain YouTube.
pub fn parse_web_search_continuation(response: &Json) -> (r: ItemsPage)
    requires
        sections_safe(web_continued(jview(*response))),
    ensures
        r.items.deep_view() == search_page_of(items(web_continued(jview(*response)))).items,
        r.continuation.deep_view() == search_page_of(items(web_continued(jview(*response)))).continuation,
{
    search_page(at(at(at_index(at(Some(response), "onResponseReceivedCommands"), 0), "appendContinuationItemsAction"), "continuationItems"))
}

/// Whether a video's length reads within `i64`: what `video` asks first.
pub fn video_is_safe(r: &Json) -> (b: bool)
    ensures
        b == video_safe(jview(*r)),
{
    let n = Some(r);
    if string_at(at(n, "videoId")).is_none() {
        return true;
    }
    match text_at(at(n, "title")) {
        Some(t) => {
            if chars_of(t.as_str()).len() == 0 {
                return true;
            }
        },
        None => return true,
    }
    let overlays_node = at(n, "thumbnailOverlays");
    let badges_node = at(n, "badges");
    let overlays = items_at(overlays_node);
    let badges = items_at(badges_node);
    proof {
        lemma_items_view(overlays_node, overlays);
        lemma_items_view(badges_node, badges);
    }
    if at(at(n, "navigationEndpoint"), "reelWatchEndpoint").is_some() || any_overlay_at(overlays, "SHORTS") {
        return true;
    }
    if any_live_badge_at(badges) || any_overlay_at(overlays, "LIVE") {
        return true;
    }
    match text_at(at(n, "lengthText")) {
        Some(t) => !duration_overflows_text(t.as_str()),
        None => true,
    }
}

/// Whether the badges read within `i64` up to the first that reads as a duration.
fn badges_are_safe(bs: &Vec<&Json>) -> (r: bool)
    ensures
        r == badges_safe(refs_view(bs@)),
{
    let ghost bv = refs_view(bs@);
    let mut i: usize = 0;
    assert(bv.skip(0) =~= bv);
    while i < bs.len()
        invariant
            i <= bs@.len(),
            bv == refs_view(bs@),
            badges_safe(bv) == badges_safe(bv.skip(i as int)),
        decreases bs.len() - i,
    {
        assert(bv.skip(i as int)[0] == jview(*bs@[i as int]));
        assert(bv.skip(i as int).drop_first() =~= bv.skip(i + 1));
        match string_at(at(Some(bs[i]), "text")) {
            Some(t) => {
                if duration_overflows_text(t.as_str()) {
                    return false;
                }
                if crate::text::parse_duration(Some(t.as_str())).is_some() {
                    return true;
                }
            },
            None => {},
        }
        i = i + 1;
    }
    assert(bv.skip(i as int).len() == 0);
    true
}

/// Whether a lockup's badges read within `i64`: what `lockup` asks first.
pub fn lockup_is_safe(r: &Json) -> (b: bool)
    ensures
        b == lockup_safe(jview(*r)),
{
    let n = Some(r);
    if string_at(at(n, "contentId")).is_none() {
        return true;
    }
    let meta = at(at(n, "metadata"), "lockupMetadataViewModel");
    match string_at(at(at(meta, "title"), "content")) {
        Some(t) => {
            if chars_of(t.as_str()).len() == 0 {
                return true;
            }
        },
        None => return true,
    }
    let badges = find_all(n, "thumbnailBadgeViewModel");
    badges_are_safe(&badges)
}

/// Whether an item of plain YouTube reads within `i64`: what `web_item` asks first.
pub fn web_item_is_safe(node: &Json) -> (b: bool)
    ensures
        b == web_item_safe(jview(*node)),
{
    let n = Some(node);
    match at(n, "videoRenderer") {
        Some(v) => video_is_safe(v),
        None => {
            if at(n, "channelRenderer").is_some() {
                true
            } else {
                match at(n, "lockupViewModel") {
                    Some(l) => lockup_is_safe(l),
                    None => true,
                }
            }
        },
    }
}

/// Whether a section of results reads within `i64`.
fn web_section_is_safe(sec: &Json) -> (b: bool)
    ensures
        b == section_safe(jview(*sec)),
{
    let n = Some(sec);
    let isr = at(n, "itemSectionRenderer");
    match isr {
        Some(is) => {
            assert(member(Some(jview(*sec)), "itemSectionRenderer"@) == Some(jview(*is)));
            let cs_node = at(Some(is), "contents");
            let cs = items_at(cs_node);
            let mut j: usize = 0;
            while j < cs.len()
                invariant
                    j <= cs@.len(),
                    cs@.len() == items(view_of(cs_node)).len(),
                    view_of(cs_node) == member(Some(jview(*is)), "contents"@),
                    member(Some(jview(*sec)), "itemSectionRenderer"@) == Some(jview(*is)),
                    forall|k: int| 0 <= k < cs@.len() ==> #[trigger] jview(cs@[k]) == items(view_of(cs_node))[k],
                    forall|k: int| 0 <= k < j ==> #[trigger] web_item_safe(items(view_of(cs_node))[k]),
                decreases cs@.len() - j,
            {
                assert(jview(cs@[j as int]) == items(view_of(cs_node))[j as int]);
                if !web_item_is_safe(&cs[j]) {
                    assert(!web_item_safe(items(member(Some(jview(*is)), "contents"@))[j as int]));
                    return false;
                }
                j = j + 1;
            }
            true
        },
        None => at(n, "continuationItemRenderer").is_some() || web_item_is_safe(sec),
    }
}

/// Whether the sections of a search read within `i64`: what `search_page` asks first.
pub fn web_sections_are_safe(sections: Option<&Json>) -> (b: bool)
    ensures
        b == sections_safe(view_of(sections)),
{
    let vs = items_at(sections);
    let mut i: usize = 0;
    while i < vs.len()
        invariant
            i <= vs@.len(),
            vs@.len() == items(view_of(sections)).len(),
            forall|k: int| 0 <= k < vs@.len() ==> #[trigger] jview(vs@[k]) == items(view_of(sections))[k],
            forall|k: int| 0 <= k < i ==> #[trigger] section_safe(items(view_of(sections))[k]),
        decreases vs@.len() - i,
    {
        assert(jview(vs@[i as int]) == items(view_of(sections))[i as int]);
        if !web_section_is_safe(&vs[i]) {
            return false;
        }
        i = i + 1;
    }
    true
}

/// Whether a search response reads within `i64`: what `parse_web_search` asks first.
pub fn web_search_is_safe(response: &Json) -> (b: bool)
    ensures
        b == sections_safe(web_sections(jview(*response))),
{
    web_sections_are_safe(at(at(at(at(at(Some(response), "contents"), "twoColumnSearchResultsRenderer"), "primaryContents"), "sectionListRenderer"), "contents"))
}

/// Whether a continued search reads within `i64`: what `parse_web_search_continuation` asks first.
pub fn web_continuation_is_safe(response: &Json) -> (b: bool)
    ensures
        b == sections_safe(web_continued(jview(*response))),
{
    web_sections_are_safe(at(at(at_index(at(Some(response), "onResponseReceivedCommands"), 0), "appendContinuationItemsAction"), "continuationItems"))
}

/// Whether a channel's grid reads within `i64`: what `grid_page` asks first.
pub fn grid_is_safe(contents: Option<&Json>) -> (b: bool)
    ensures
        b == grid_safe(view_of(contents)),
{
    let es = items_at(contents);
    let mut i: usize = 0;
    while i < es.len()
        invariant
            i <= es@.len(),
            es@.len() == items(view_of(contents)).len(),
            forall|k: int| 0 <= k < es@.len() ==> #[trigger] jview(es@[k]) == items(view_of(contents))[k],
            forall|k: int|
                0 <= k < i ==> (member(Some(#[trigger] items(view_of(contents))[k]), "continuationItemRenderer"@) is Some
                    || web_item_safe(grid_node(items(view_of(contents))[k]))),
        decreases es@.len() - i,
    {
        let e = &es[i];
        assert(jview(*e) == items(view_of(contents))[i as int]);
        if at(Some(e), "continuationItemRenderer").is_none() {
            let node = match at(at(Some(e), "richItemRenderer"), "content") {
                Some(c) => c,
                None => e,
            };
            if !web_item_is_safe(node) {
                return false;
            }
        }
        i = i + 1;
    }
    true
}


/// Badges say live exactly where one of them has the live badge style.
pub proof fn law_live_badge_style(bs: Seq<JsonV>)
    ensures
        any_live_style(bs) <==> exists|i: int|
            0 <= i < bs.len() && as_str(member(Some(#[trigger] bs[i]), "badgeStyle"@)) == Some(
                "THUMBNAIL_OVERLAY_BADGE_STYLE_LIVE"@,
            ),
    decreases bs.len(),
{
    if bs.len() > 0 {
        let init = bs.drop_last();
        law_live_badge_style(init);
        if any_live_style(init) {
            let i = choose|i: int|
                0 <= i < init.len() && as_str(member(Some(#[trigger] init[i]), "badgeStyle"@)) == Some(
                    "THUMBNAIL_OVERLAY_BADGE_STYLE_LIVE"@,
                );
            assert(bs[i] == init[i]);
        }
        if exists|i: int|
            0 <= i < bs.len() && as_str(member(Some(#[trigger] bs[i]), "badgeStyle"@)) == Some(
                "THUMBNAIL_OVERLAY_BADGE_STYLE_LIVE"@,
            ) {
            let i = choose|i: int|
                0 <= i < bs.len() && as_str(member(Some(#[trigger] bs[i]), "badgeStyle"@)) == Some(
                    "THUMBNAIL_OVERLAY_BADGE_STYLE_LIVE"@,
                );
            if i < bs.len() - 1 {
                assert(init[i] == bs[i]);
            }
        }
    }
}

/// No badge text reads as a duration: no duration badge is found.
proof fn lemma_no_duration_badge(bs: Seq<JsonV>)
    requires
        forall|i: int| 0 <= i < bs.len() ==> !(badge_text(#[trigger] bs[i]) matches Some(t) && duration_of(t) is Value),
    ensures
        first_duration(bs) is None,
    decreases bs.len(),
{
    if bs.len() > 0 {
        assert forall|i: int| 0 <= i < bs.drop_first().len() implies !(badge_text(#[trigger] bs.drop_first()[i]) matches Some(
            t,
        ) && duration_of(t) is Value) by {
            assert(bs.drop_first()[i] == bs[i + 1]);
        }
        lemma_no_duration_badge(bs.drop_first());
        assert(!(badge_text(bs[0]) matches Some(t) && duration_of(t) is Value));
    }
}

/// A lockup video is a live stream when a badge has the live style and no badge text reads as a
/// duration; with a duration badge it is an ordinary video of that length.
pub proof fn law_live_lockup(r: JsonV)
    requires
        lockup_read(r),
        as_str(member(Some(r), "contentType"@)) == Some("LOCKUP_CONTENT_TYPE_VIDEO"@),
    ensures
        ((exists|i: int|
            0 <= i < lockup_badges(r).len() && as_str(member(Some(#[trigger] lockup_badges(r)[i]), "badgeStyle"@))
                == Some("THUMBNAIL_OVERLAY_BADGE_STYLE_LIVE"@)) && (forall|i: int|
            0 <= i < lockup_badges(r).len() ==> !(badge_text(#[trigger] lockup_badges(r)[i]) matches Some(t) && duration_of(t) is Value)))
            ==> (lockup_of(r) matches Some(ItemV::Track(t)) && t.video_type == Some("live"@)),
        (exists|i: int|
            0 <= i < lockup_badges(r).len() && (badge_text(#[trigger] lockup_badges(r)[i]) matches Some(t) && duration_of(t) is Value))
            ==> (lockup_of(r) matches Some(ItemV::Track(t)) && t.video_type == Some("ugc"@) && t.duration_text is Some),
{
    let bs = lockup_badges(r);
    law_live_badge_style(bs);
    if forall|i: int| 0 <= i < bs.len() ==> !(badge_text(#[trigger] bs[i]) matches Some(t) && duration_of(t) is Value) {
        lemma_no_duration_badge(bs);
    }
    if exists|i: int| 0 <= i < bs.len() && (badge_text(#[trigger] bs[i]) matches Some(t) && duration_of(t) is Value) {
        let i = choose|i: int| 0 <= i < bs.len() && (badge_text(#[trigger] bs[i]) matches Some(t) && duration_of(t) is Value);
        lemma_duration_badge_found(bs, i);
    }
}

/// Where some badge text reads as a duration, a duration badge is found.
proof fn lemma_duration_badge_found(bs: Seq<JsonV>, i: int)
    requires
        0 <= i < bs.len(),
        badge_text(bs[i]) matches Some(t) && duration_of(t) is Value,
    ensures
        first_duration(bs) is Some,
    decreases i,
{
    if i > 0 {
        if !(badge_text(bs[0]) matches Some(t) && duration_of(t) is Value) {
            assert(bs.drop_first()[i - 1] == bs[i]);
            lemma_duration_badge_found(bs.drop_first(), i - 1);
        }
    }
}


/// The cover has an overlay of a style exactly where one of its overlays has that style.
pub proof fn law_overlay_style(os: Seq<JsonV>, style: Seq<char>)
    ensures
        any_overlay(os, style) <==> exists|i: int|
            0 <= i < os.len() && as_str(member(member(Some(#[trigger] os[i]), "thumbnailOverlayTimeStatusRenderer"@), "style"@))
                == Some(style),
    decreases os.len(),
{
    if os.len() > 0 {
        let init = os.drop_last();
        law_overlay_style(init, style);
        if any_overlay(init, style) {
            let i = choose|i: int|
                0 <= i < init.len() && as_str(member(member(Some(#[trigger] init[i]), "thumbnailOverlayTimeStatusRenderer"@), "style"@))
                    == Some(style);
            assert(os[i] == init[i]);
        }
        if exists|i: int|
            0 <= i < os.len() && as_str(member(member(Some(#[trigger] os[i]), "thumbnailOverlayTimeStatusRenderer"@), "style"@))
                == Some(style) {
            let i = choose|i: int|
                0 <= i < os.len() && as_str(member(member(Some(#[trigger] os[i]), "thumbnailOverlayTimeStatusRenderer"@), "style"@))
                    == Some(style);
            if i < os.len() - 1 {
                assert(init[i] == os[i]);
            }
        }
    }
}

/// A video's badges say it is live exactly where one of them has the style "live now".
pub proof fn law_live_now_badge(bs: Seq<JsonV>)
    ensures
        any_live_badge(bs) <==> exists|i: int|
            0 <= i < bs.len() && as_str(member(member(Some(#[trigger] bs[i]), "metadataBadgeRenderer"@), "style"@)) == Some(
                "BADGE_STYLE_TYPE_LIVE_NOW"@,
            ),
    decreases bs.len(),
{
    if bs.len() > 0 {
        let init = bs.drop_last();
        law_live_now_badge(init);
        if any_live_badge(init) {
            let i = choose|i: int|
                0 <= i < init.len() && as_str(member(member(Some(#[trigger] init[i]), "metadataBadgeRenderer"@), "style"@)) == Some(
                    "BADGE_STYLE_TYPE_LIVE_NOW"@,
                );
            assert(bs[i] == init[i]);
        }
        if exists|i: int|
            0 <= i < bs.len() && as_str(member(member(Some(#[trigger] bs[i]), "metadataBadgeRenderer"@), "style"@)) == Some(
                "BADGE_STYLE_TYPE_LIVE_NOW"@,
            ) {
            let i = choose|i: int|
                0 <= i < bs.len() && as_str(member(member(Some(#[trigger] bs[i]), "metadataBadgeRenderer"@), "style"@)) == Some(
                    "BADGE_STYLE_TYPE_LIVE_NOW"@,
                );
            if i < bs.len() - 1 {
                assert(init[i] == bs[i]);
            }
        }
    }
}

} // verus!
