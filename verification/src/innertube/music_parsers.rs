//! Reading YouTube Music's renderers (WEB_REMIX). The kind of an item comes from its link
//! (`pageType`, `musicVideoType`), not from a localised caption; a track's fields come from the
//! links inside its caption (`UC…` is an artist, `MPREb_…` an album), not from their position.
use vstd::prelude::*;
use crate::chars::{
    chars_eq, chars_of, extend_chars, extend_str, is_digit, is_prefix, lit, lowercase, slice_chars, starts_with,
    string_of, trim, trim_chars, trimmed,
};
use crate::innertube::nav::{
    as_str, at, at_index, best_thumbnail_at, element, lookup, best_thumbnail_of, browse_of, i64_at, int_of, is_separator, items, items_at, member,
    page_type_at, page_type_of, runs_at, runs_of, str_at, str_view, string_at, text_at, text_of, text_or_empty,
    view_of, Run, RunV,
};
use crate::innertube::parsers::{
    duration_shape, is_duration, is_type_label, is_year, lemma_shaped_duration, type_labels, video_type_of,
    video_type_spec, year_shape,
};
use crate::json::{clone_json, jview, lemma_array, lemma_object, Json, JsonV};
use crate::music::{
    clone_opt_string, AlbumItem, AlbumV, ArtistItem, ArtistItemV, ArtistRef, ArtistRefV, ItemV, MoodItem, MoodV, MusicItem,
    PlaylistItem, PlaylistV, Shelf, ShelfV, Track, TrackV,
};
use crate::text::{duration_of, duration_overflows_text, parse_duration, DurationFold};

verus! {

pub const PAGE_ALBUM: &'static str = "MUSIC_PAGE_TYPE_ALBUM";
pub const PAGE_AUDIOBOOK: &'static str = "MUSIC_PAGE_TYPE_AUDIOBOOK";
pub const PAGE_ARTIST: &'static str = "MUSIC_PAGE_TYPE_ARTIST";
pub const PAGE_USER_CHANNEL: &'static str = "MUSIC_PAGE_TYPE_USER_CHANNEL";
pub const PAGE_PLAYLIST: &'static str = "MUSIC_PAGE_TYPE_PLAYLIST";

// ── a caption's groups ──

/// The groups of a caption while it is read: the last one is being filled.
pub open spec fn groups_acc(rs: Seq<RunV>) -> Seq<Seq<RunV>>
    decreases rs.len(),
{
    if rs.len() == 0 {
        seq![Seq::empty()]
    } else {
        let g = groups_acc(rs.drop_last());
        let r = rs.last();
        if is_separator(r) {
            if g.last().len() == 0 { g } else { g.push(Seq::empty()) }
        } else {
            g.update(g.len() - 1, g.last().push(r))
        }
    }
}

/// A caption cut at " • " into its non-empty groups.
pub open spec fn groups_of(rs: Seq<RunV>) -> Seq<Seq<RunV>> {
    let g = groups_acc(rs);
    if g.last().len() == 0 { g.drop_last() } else { g }
}

proof fn lemma_groups_acc(rs: Seq<RunV>)
    ensures
        groups_acc(rs).len() >= 1,
    decreases rs.len(),
{
    if rs.len() > 0 {
        lemma_groups_acc(rs.drop_last());
    }
}

/// The texts of a group, one after another.
pub open spec fn joined(g: Seq<RunV>) -> Seq<char>
    decreases g.len(),
{
    if g.len() == 0 { Seq::empty() } else { joined(g.drop_last()) + g.last().text }
}

/// A group's text, trimmed.
pub open spec fn group_text(g: Seq<RunV>) -> Seq<char> {
    trim(joined(g))
}

/// A run that leads to an artist or a channel.
pub open spec fn is_artist_run(r: RunV) -> bool {
    ||| (r.browse_id matches Some(id) && (is_prefix("UC"@, id) || is_prefix(
        "FEmusic_library_privately_owned_artist"@,
        id,
    )))
    ||| r.page_type == Some(PAGE_ARTIST@)
    ||| r.page_type == Some(PAGE_USER_CHANNEL@)
}

/// A run that leads to an album.
pub open spec fn is_album_run(r: RunV) -> bool {
    (r.browse_id matches Some(id) && is_prefix("MPREb_"@, id)) || r.page_type == Some(PAGE_ALBUM@)
}

/// The artists a group links to, by their trimmed text.
pub open spec fn linked_artists(g: Seq<RunV>) -> Seq<ArtistRefV>
    decreases g.len(),
{
    if g.len() == 0 {
        Seq::empty()
    } else {
        let a = linked_artists(g.drop_last());
        if is_artist_run(g.last()) {
            a.push(ArtistRefV { id: g.last().browse_id, name: trim(g.last().text) })
        } else {
            a
        }
    }
}

/// A group's artists: those it links to, or else one artist named by the group's text.
pub open spec fn artists_of(g: Seq<RunV>) -> Seq<ArtistRefV> {
    let linked = linked_artists(g);
    if linked.len() == 0 { seq![ArtistRefV { id: None, name: group_text(g) }] } else { linked }
}

/// No run of the group carries a link.
pub open spec fn unlinked(g: Seq<RunV>) -> bool {
    forall|i: int| 0 <= i < g.len() ==> (#[trigger] g[i]).browse_id is None
}

/// The group's texts joined with " · ".
pub open spec fn join_dots(parts: Seq<Seq<char>>) -> Seq<char>
    decreases parts.len(),
{
    if parts.len() == 0 {
        Seq::empty()
    } else if parts.len() == 1 {
        parts[0]
    } else {
        join_dots(parts.drop_last()) + " · "@ + parts.last()
    }
}

/// The non-empty texts of the groups.
pub open spec fn group_texts(gs: Seq<Seq<RunV>>) -> Seq<Seq<char>>
    decreases gs.len(),
{
    if gs.len() == 0 {
        Seq::empty()
    } else {
        let t = group_texts(gs.drop_last());
        if group_text(gs.last()).len() == 0 { t } else { t.push(group_text(gs.last())) }
    }
}

/// A caption without its leading type label ("Song", "Album", …), joined with " · ".
pub open spec fn subtitle_without_type(gs: Seq<Seq<RunV>>) -> Option<Seq<char>> {
    let parts = group_texts(gs);
    let parts = if parts.len() > 1 && type_labels().contains(lowercase(parts[0])) { parts.drop_first() } else { parts };
    if parts.len() == 0 { None } else { Some(join_dots(parts)) }
}

/// The first group's text where it links nowhere and is no year: "Album", "Single", "EP".
pub open spec fn first_type_text(gs: Seq<Seq<RunV>>) -> Option<Seq<char>> {
    if gs.len() == 0 {
        None
    } else {
        let text = group_text(gs[0]);
        if unlinked(gs[0]) && !year_shape(text) && text.len() != 0 { Some(text) } else { None }
    }
}

/// A playlist's id from its browseId: without the `VL` prefix.
pub open spec fn strip_vl(browse_id: Seq<char>) -> Seq<char> {
    if is_prefix("VL"@, browse_id) { browse_id.skip(2) } else { browse_id }
}

/// A badge that marks explicit content.
pub open spec fn is_explicit_badge(b: JsonV) -> bool {
    as_str(member(member(member(Some(b), "musicInlineBadgeRenderer"@), "icon"@), "iconType"@)) == Some(
        "MUSIC_EXPLICIT_BADGE"@,
    )
}

/// Some badge under `key` marks explicit content.
pub open spec fn is_explicit(node: Option<JsonV>, key: Seq<char>) -> bool {
    exists|i: int| 0 <= i < items(member(node, key)).len() && #[trigger] is_explicit_badge(items(member(node, key))[i])
}

/// The cover image of a renderer, from the first of its three usual places that has one.
pub open spec fn thumb_of(r: Option<JsonV>) -> Option<Seq<char>> {
    let first = best_thumbnail_of(
        member(member(member(member(r, "thumbnail"@), "musicThumbnailRenderer"@), "thumbnail"@), "thumbnails"@),
    );
    let second = best_thumbnail_of(
        member(
            member(member(member(r, "thumbnailRenderer"@), "musicThumbnailRenderer"@), "thumbnail"@),
            "thumbnails"@,
        ),
    );
    let third = best_thumbnail_of(member(member(r, "thumbnail"@), "thumbnails"@));
    if first is Some { first } else if second is Some { second } else { third }
}

impl<'a> Run<'a> {
    pub fn clone_run(&self) -> (r: Run<'a>)
        ensures
            r.deep_view() == self.deep_view(),
    {
        Run {
            text: self.text.clone(),
            browse_id: clone_opt_string(&self.browse_id),
            page_type: clone_opt_string(&self.page_type),
            watch_video_id: clone_opt_string(&self.watch_video_id),
            watch: self.watch,
        }
    }
}

/// A caption cut at " • " into its non-empty groups.
pub fn groups<'a>(runs: &Vec<Run<'a>>) -> (r: Vec<Vec<Run<'a>>>)
    ensures
        r.deep_view() == groups_of(runs.deep_view()),
{
    let ghost rv = runs.deep_view();
    let mut done: Vec<Vec<Run<'a>>> = Vec::new();
    let mut cur: Vec<Run<'a>> = Vec::new();
    let mut i: usize = 0;
    assert(rv.take(0) =~= Seq::<RunV>::empty());
    assert(cur.deep_view() =~= Seq::<RunV>::empty());
    assert(done.deep_view().push(cur.deep_view()) =~= groups_acc(rv.take(0)));
    while i < runs.len()
        invariant
            i <= runs@.len(),
            rv == runs.deep_view(),
            done.deep_view().push(cur.deep_view()) == groups_acc(rv.take(i as int)),
        decreases runs.len() - i,
    {
        let r = runs[i].clone_run();
        proof {
            assert(rv.take(i + 1).drop_last() =~= rv.take(i as int));
            assert(rv.take(i + 1).last() == rv[i as int]);
            assert(runs.deep_view()[i as int] == runs@[i as int].deep_view());
        }
        let ghost before_done = done.deep_view();
        let ghost before_cur = cur.deep_view();
        if r.is_separator() {
            if cur.len() > 0 {
                let full = cur;
                cur = Vec::new();
                done.push(full);
                assert(cur.deep_view() =~= Seq::<RunV>::empty());
                assert(done.deep_view() =~= before_done.push(before_cur));
                assert(done.deep_view().push(cur.deep_view()) =~= before_done.push(before_cur).push(Seq::empty()));
            }
        } else {
            cur.push(r);
            assert(cur.deep_view() =~= before_cur.push(rv[i as int]));
            assert(done.deep_view().push(cur.deep_view()) =~= before_done.push(before_cur).update(
                before_done.len() as int,
                before_cur.push(rv[i as int]),
            ));
        }
        i = i + 1;
    }
    assert(rv.take(runs.len() as int) =~= rv);
    let ghost before_done = done.deep_view();
    if cur.len() > 0 {
        done.push(cur);
        assert(done.deep_view() =~= groups_of(rv));
    } else {
        assert(before_done.push(cur.deep_view()).drop_last() =~= before_done);
    }
    done
}

/// A group's text, trimmed.
pub fn group_text_of(g: &Vec<Run>) -> (r: Vec<char>)
    ensures
        r@ == group_text(g.deep_view()),
{
    let ghost gv = g.deep_view();
    let mut v: Vec<char> = Vec::new();
    let mut i: usize = 0;
    while i < g.len()
        invariant
            i <= g@.len(),
            gv == g.deep_view(),
            v@ == joined(gv.take(i as int)),
        decreases g.len() - i,
    {
        assert(gv.take(i + 1).drop_last() =~= gv.take(i as int));
        assert(gv[i as int] == g@[i as int].deep_view());
        extend_str(&mut v, g[i].text.as_str());
        i = i + 1;
    }
    assert(gv.take(g.len() as int) =~= gv);
    trim_chars(&v)
}

pub fn is_text(s: &str, t: &str) -> (r: bool)
    ensures
        r == (s@ == t@),
{
    chars_eq(&chars_of(s), &lit(t))
}

fn opt_is(s: &Option<String>, t: &str) -> (r: bool)
    ensures
        r == (s.deep_view() == Some(t@)),
{
    match s {
        Some(x) => is_text(x.as_str(), t),
        None => false,
    }
}

/// A run that leads to an artist or a channel.
pub fn artist_run(r: &Run) -> (b: bool)
    ensures
        b == is_artist_run(r.deep_view()),
{
    let by_id = match &r.browse_id {
        Some(id) => {
            let v = chars_of(id.as_str());
            starts_with(&v, &lit("UC")) || starts_with(&v, &lit("FEmusic_library_privately_owned_artist"))
        },
        None => false,
    };
    by_id || opt_is(&r.page_type, PAGE_ARTIST) || opt_is(&r.page_type, PAGE_USER_CHANNEL)
}

/// A run that leads to an album.
pub fn album_run(r: &Run) -> (b: bool)
    ensures
        b == is_album_run(r.deep_view()),
{
    let by_id = match &r.browse_id {
        Some(id) => starts_with(&chars_of(id.as_str()), &lit("MPREb_")),
        None => false,
    };
    by_id || opt_is(&r.page_type, PAGE_ALBUM)
}

/// A group's artists: those it links to, or else one artist named by the group's text.
pub fn artists_in(g: &Vec<Run>) -> (r: Vec<ArtistRef>)
    ensures
        r.deep_view() == artists_of(g.deep_view()),
{
    let ghost gv = g.deep_view();
    let mut out: Vec<ArtistRef> = Vec::new();
    let mut i: usize = 0;
    while i < g.len()
        invariant
            i <= g@.len(),
            gv == g.deep_view(),
            out.deep_view() == linked_artists(gv.take(i as int)),
        decreases g.len() - i,
    {
        assert(gv.take(i + 1).drop_last() =~= gv.take(i as int));
        assert(gv[i as int] == g@[i as int].deep_view());
        if artist_run(&g[i]) {
            let ghost before = out.deep_view();
            let name = string_of(&trim_chars(&chars_of(g[i].text.as_str())));
            out.push(ArtistRef { id: clone_opt_string(&g[i].browse_id), name });
            assert(out.deep_view() =~= before.push(ArtistRefV { id: gv[i as int].browse_id, name: trim(gv[i as int].text) }));
        }
        i = i + 1;
    }
    assert(gv.take(g.len() as int) =~= gv);
    if out.len() == 0 {
        let mut one: Vec<ArtistRef> = Vec::new();
        one.push(ArtistRef { id: None, name: string_of(&group_text_of(g)) });
        assert(one.deep_view() =~= artists_of(gv));
        one
    } else {
        out
    }
}

/// No run of the group carries a link.
pub fn is_unlinked(g: &Vec<Run>) -> (b: bool)
    ensures
        b == unlinked(g.deep_view()),
{
    let mut i: usize = 0;
    while i < g.len()
        invariant
            i <= g@.len(),
            forall|k: int| 0 <= k < i ==> (#[trigger] g.deep_view()[k]).browse_id is None,
        decreases g.len() - i,
    {
        assert(g.deep_view()[i as int] == g@[i as int].deep_view());
        if g[i].browse_id.is_some() {
            return false;
        }
        i = i + 1;
    }
    true
}

/// The first group's text where it links nowhere and is no year: "Album", "Single", "EP".
pub fn first_type_text_of(gs: &Vec<Vec<Run>>) -> (r: Option<String>)
    ensures
        r.deep_view() == first_type_text(gs.deep_view()),
{
    if gs.len() == 0 {
        return None;
    }
    assert(gs.deep_view()[0] == gs@[0].deep_view());
    let tv = group_text_of(&gs[0]);
    let text = string_of(&tv);
    if is_unlinked(&gs[0]) && !is_year(text.as_str()) && tv.len() != 0 {
        Some(text)
    } else {
        None
    }
}

/// A caption without its leading type label, joined with " · ".
pub fn subtitle_without_type_of(gs: &Vec<Vec<Run>>) -> (r: Option<String>)
    ensures
        r.deep_view() == subtitle_without_type(gs.deep_view()),
{
    let ghost gv = gs.deep_view();
    let mut parts: Vec<Vec<char>> = Vec::new();
    let ghost mut pv: Seq<Seq<char>> = Seq::empty();
    let mut i: usize = 0;
    while i < gs.len()
        invariant
            i <= gs@.len(),
            gv == gs.deep_view(),
            pv == group_texts(gv.take(i as int)),
            pv.len() == parts@.len(),
            forall|k: int| 0 <= k < pv.len() ==> #[trigger] pv[k] == parts@[k]@,
        decreases gs.len() - i,
    {
        assert(gv.take(i + 1).drop_last() =~= gv.take(i as int));
        assert(gv[i as int] == gs@[i as int].deep_view());
        let t = group_text_of(&gs[i]);
        if t.len() > 0 {
            proof {
                pv = pv.push(t@);
            }
            parts.push(t);
        }
        i = i + 1;
    }
    assert(gv.take(gs.len() as int) =~= gv);
    let mut start: usize = 0;
    if parts.len() > 1 {
        if is_type_label(string_of(&parts[0]).as_str()) {
            start = 1;
        }
    }
    let ghost kept = if start == 1 { pv.drop_first() } else { pv };
    if start >= parts.len() {
        return None;
    }
    let mut v: Vec<char> = Vec::new();
    let mut k: usize = start;
    while k < parts.len()
        invariant
            start <= k <= parts@.len(),
            start < parts@.len(),
            pv.len() == parts@.len(),
            forall|m: int| 0 <= m < pv.len() ==> #[trigger] pv[m] == parts@[m]@,
            kept =~= pv.skip(start as int),
            k == start ==> v@.len() == 0,
            k > start ==> v@ == join_dots(kept.take(k - start)),
        decreases parts.len() - k,
    {
        assert(pv[k as int] == parts@[k as int]@);
        assert(kept.take(k - start + 1).drop_last() =~= kept.take(k - start));
        assert(kept.take(k - start + 1).last() == pv[k as int]);
        if k > start {
            extend_str(&mut v, " · ");
        }
        extend_chars(&mut v, &parts[k]);
        if k == start {
            assert(kept.take(1)[0] == pv[k as int]);
            assert(v@ =~= parts@[k as int]@);
            assert(v@ =~= join_dots(kept.take(1)));
        }
        k = k + 1;
    }
    assert(kept.take(parts.len() - start) =~= kept);
    Some(string_of(&v))
}

/// A playlist's id from its browseId: without the `VL` prefix.
pub fn strip_vl_of(browse_id: &str) -> (r: String)
    ensures
        r@ == strip_vl(browse_id@),
{
    let v = chars_of(browse_id);
    proof {
        reveal_strlit("VL");
    }
    if starts_with(&v, &lit("VL")) {
        assert(v@.len() >= 2);
        string_of(&slice_chars(&v, 2, v.len()))
    } else {
        string_of(&v)
    }
}

/// Some badge under `key` marks explicit content.
pub fn explicit_at(node: Option<&Json>, key: &str) -> (b: bool)
    ensures
        b == is_explicit(view_of(node), key@),
{
    let bs = items_at(at(node, key));
    let ghost bv = items(member(view_of(node), key@));
    let mut i: usize = 0;
    while i < bs.len()
        invariant
            i <= bs@.len(),
            bs@.len() == bv.len(),
            bv == items(member(view_of(node), key@)),
            forall|m: int| 0 <= m < bs@.len() ==> #[trigger] jview(bs@[m]) == bv[m],
            forall|m: int| 0 <= m < i ==> !#[trigger] is_explicit_badge(bv[m]),
        decreases bs.len() - i,
    {
        let icon = str_at(at(at(at(Some(&bs[i]), "musicInlineBadgeRenderer"), "icon"), "iconType"));
        let hit = match icon {
            Some(t) => is_text(t, "MUSIC_EXPLICIT_BADGE"),
            None => false,
        };
        assert(hit == is_explicit_badge(bv[i as int]));
        if hit {
            assert(is_explicit_badge(items(member(view_of(node), key@))[i as int]));
            return true;
        }
        i = i + 1;
    }
    false
}

/// The cover image of a renderer.
pub fn thumb_at(r: Option<&Json>) -> (t: Option<String>)
    ensures
        t.deep_view() == thumb_of(view_of(r)),
{
    let first = best_thumbnail_at(at(at(at(at(r, "thumbnail"), "musicThumbnailRenderer"), "thumbnail"), "thumbnails"));
    if first.is_some() {
        return first;
    }
    let second = best_thumbnail_at(
        at(at(at(at(r, "thumbnailRenderer"), "musicThumbnailRenderer"), "thumbnail"), "thumbnails"),
    );
    if second.is_some() {
        return second;
    }
    best_thumbnail_at(at(at(r, "thumbnail"), "thumbnails"))
}


// ── what a track's caption tells ──

/// What a track's caption tells, group by group.
pub struct MetaV {
    pub artists: Seq<ArtistRefV>,
    pub artists_text: Option<Seq<char>>,
    pub album_id: Option<Seq<char>>,
    pub album_title: Option<Seq<char>>,
    pub duration: Option<Seq<char>>,
    pub views: Option<Seq<char>>,
    pub year: Option<Seq<char>>,
}

/// The reading of a caption's groups so far: the group that names the artists, what is known,
/// and the groups nothing claimed.
pub struct MetaAcc {
    pub artists: Option<usize>,
    pub album_id: Option<Seq<char>>,
    pub album_title: Option<Seq<char>>,
    pub duration: Option<Seq<char>>,
    pub views: Option<Seq<char>>,
    pub year: Option<Seq<char>>,
    pub rest: Seq<usize>,
}

/// The index of the group's first album run, or its length.
pub open spec fn album_index(g: Seq<RunV>) -> int
    decreases g.len(),
{
    if g.len() == 0 {
        0
    } else if is_album_run(g[0]) {
        0
    } else {
        1 + album_index(g.drop_first())
    }
}

/// Some run of the group leads to an artist.
pub open spec fn has_artist_run(g: Seq<RunV>) -> bool {
    exists|i: int| 0 <= i < g.len() && #[trigger] is_artist_run(g[i])
}

/// The text holds an ASCII digit.
pub open spec fn has_digit(t: Seq<char>) -> bool {
    exists|i: int| 0 <= i < t.len() && #[trigger] is_digit(t[i])
}

/// Some run of some group carries a link.
pub open spec fn any_links(gs: Seq<Seq<RunV>>) -> bool {
    exists|i: int| 0 <= i < gs.len() && !#[trigger] unlinked(gs[i])
}

/// One group read.
pub open spec fn meta_step(gs: Seq<Seq<RunV>>, acc: MetaAcc, i: int) -> MetaAcc {
    let g = gs[i];
    let text = group_text(g);
    let a = album_index(g);
    if text.len() == 0 {
        acc
    } else if a < g.len() {
        MetaAcc { album_id: g[a].browse_id, album_title: Some(g[a].text), ..acc }
    } else if acc.artists is None && has_artist_run(g) {
        MetaAcc { artists: Some(i as usize), ..acc }
    } else if duration_shape(text) {
        MetaAcc { duration: Some(text), ..acc }
    } else if year_shape(text) {
        MetaAcc { year: Some(text), ..acc }
    } else if i == 0 && unlinked(g) && (type_labels().contains(lowercase(text)) || (any_links(gs) && gs.len() > 2)) {
        acc
    } else if unlinked(g) && has_digit(text) && acc.artists is Some {
        MetaAcc { views: if acc.views is None { Some(text) } else { acc.views }, ..acc }
    } else {
        MetaAcc { rest: acc.rest.push(i as usize), ..acc }
    }
}

/// The first `n` groups read.
pub open spec fn meta_fold(gs: Seq<Seq<RunV>>, n: int) -> MetaAcc
    decreases n,
{
    if n <= 0 {
        MetaAcc {
            artists: None,
            album_id: None,
            album_title: None,
            duration: None,
            views: None,
            year: None,
            rest: Seq::empty(),
        }
    } else {
        meta_step(gs, meta_fold(gs, n - 1), n - 1)
    }
}

/// What a track's caption tells: where no group links to an artist, the first group nothing
/// claimed names them; where no group held the views, that group's text does if it has a digit.
pub open spec fn meta_of(gs: Seq<Seq<RunV>>) -> MetaV {
    let acc = meta_fold(gs, gs.len() as int);
    let artists = if acc.artists is None && acc.rest.len() > 0 { Some(acc.rest[0]) } else { acc.artists };
    let rest = if acc.artists is None && acc.rest.len() > 0 { acc.rest.drop_first() } else { acc.rest };
    let views = if acc.views is None && rest.len() > 0 && has_digit(group_text(gs[rest[0] as int])) {
        Some(group_text(gs[rest[0] as int]))
    } else {
        acc.views
    };
    MetaV {
        artists: match artists {
            Some(k) => artists_of(gs[k as int]),
            None => Seq::empty(),
        },
        artists_text: match artists {
            Some(k) => Some(group_text(gs[k as int])),
            None => None,
        },
        album_id: acc.album_id,
        album_title: acc.album_title,
        duration: acc.duration,
        views,
        year: acc.year,
    }
}

/// What a track's caption tells.
pub struct Meta {
    pub artists: Vec<ArtistRef>,
    pub artists_text: Option<String>,
    pub album_id: Option<String>,
    pub album_title: Option<String>,
    pub duration: Option<String>,
    pub views: Option<String>,
    pub year: Option<String>,
}

impl DeepView for Meta {
    type V = MetaV;

    open spec fn deep_view(&self) -> MetaV {
        MetaV {
            artists: self.artists.deep_view(),
            artists_text: self.artists_text.deep_view(),
            album_id: self.album_id.deep_view(),
            album_title: self.album_title.deep_view(),
            duration: self.duration.deep_view(),
            views: self.views.deep_view(),
            year: self.year.deep_view(),
        }
    }
}

/// The index of the group's first album run, or its length.
fn album_index_of(g: &Vec<Run>) -> (r: usize)
    ensures
        r as int == album_index(g.deep_view()),
        r <= g@.len(),
{
    let ghost gv = g.deep_view();
    let mut i: usize = 0;
    assert(gv.skip(0) =~= gv);
    while i < g.len()
        invariant
            i <= g@.len(),
            gv == g.deep_view(),
            album_index(gv) == i + album_index(gv.skip(i as int)),
        decreases g.len() - i,
    {
        assert(gv[i as int] == g@[i as int].deep_view());
        assert(gv.skip(i as int)[0] == gv[i as int]);
        if album_run(&g[i]) {
            return i;
        }
        assert(gv.skip(i as int).drop_first() =~= gv.skip(i + 1));
        i = i + 1;
    }
    assert(gv.skip(g.len() as int) =~= Seq::<RunV>::empty());
    i
}

proof fn lemma_album_index(g: Seq<RunV>)
    ensures
        0 <= album_index(g) <= g.len(),
        album_index(g) < g.len() ==> is_album_run(g[album_index(g)]),
    decreases g.len(),
{
    if g.len() > 0 && !is_album_run(g[0]) {
        lemma_album_index(g.drop_first());
    }
}

fn has_artist_run_of(g: &Vec<Run>) -> (b: bool)
    ensures
        b == has_artist_run(g.deep_view()),
{
    let ghost gv = g.deep_view();
    let mut i: usize = 0;
    while i < g.len()
        invariant
            i <= g@.len(),
            gv == g.deep_view(),
            forall|k: int| 0 <= k < i ==> !#[trigger] is_artist_run(gv[k]),
        decreases g.len() - i,
    {
        assert(gv[i as int] == g@[i as int].deep_view());
        if artist_run(&g[i]) {
            return true;
        }
        i = i + 1;
    }
    false
}

pub fn has_digit_of(t: &Vec<char>) -> (b: bool)
    ensures
        b == has_digit(t@),
{
    let mut i: usize = 0;
    while i < t.len()
        invariant
            i <= t@.len(),
            forall|k: int| 0 <= k < i ==> !#[trigger] is_digit(t@[k]),
        decreases t.len() - i,
    {
        if '0' <= t[i] && t[i] <= '9' {
            assert(is_digit(t@[i as int]));
            return true;
        }
        i = i + 1;
    }
    false
}

fn any_links_of(gs: &Vec<Vec<Run>>) -> (b: bool)
    ensures
        b == any_links(gs.deep_view()),
{
    let ghost gv = gs.deep_view();
    let mut i: usize = 0;
    while i < gs.len()
        invariant
            i <= gs@.len(),
            gv == gs.deep_view(),
            forall|k: int| 0 <= k < i ==> #[trigger] unlinked(gv[k]),
        decreases gs.len() - i,
    {
        assert(gv[i as int] == gs@[i as int].deep_view());
        if !is_unlinked(&gs[i]) {
            return true;
        }
        i = i + 1;
    }
    false
}

pub open spec fn acc_of(
    artists: Option<usize>,
    album_id: Option<String>,
    album_title: Option<String>,
    duration: Option<String>,
    views: Option<String>,
    year: Option<String>,
    rest: Seq<usize>,
) -> MetaAcc {
    MetaAcc {
        artists,
        album_id: album_id.deep_view(),
        album_title: album_title.deep_view(),
        duration: duration.deep_view(),
        views: views.deep_view(),
        year: year.deep_view(),
        rest,
    }
}

/// What a track's caption tells.
pub fn meta_in(gs: &Vec<Vec<Run>>) -> (m: Meta)
    ensures
        m.deep_view() == meta_of(gs.deep_view()),
{
    let ghost gv = gs.deep_view();
    let links = any_links_of(gs);
    let mut artists: Option<usize> = None;
    let mut album_id: Option<String> = None;
    let mut album_title: Option<String> = None;
    let mut duration: Option<String> = None;
    let mut views: Option<String> = None;
    let mut year: Option<String> = None;
    let mut rest: Vec<usize> = Vec::new();
    let mut i: usize = 0;
    while i < gs.len()
        invariant
            i <= gs@.len(),
            gv == gs.deep_view(),
            links == any_links(gv),
            acc_of(artists, album_id, album_title, duration, views, year, rest@) == meta_fold(gv, i as int),
            forall|k: int| 0 <= k < rest@.len() ==> rest@[k] < gs@.len(),
            artists matches Some(k) ==> k < gs@.len(),
        decreases gs.len() - i,
    {
        let g = &gs[i];
        assert(gv[i as int] == g.deep_view());
        let tv = group_text_of(g);
        let text = string_of(&tv);
        let a = album_index_of(g);
        proof {
            lemma_album_index(gv[i as int]);
        }
        if tv.len() == 0 {
        } else if a < g.len() {
            assert(gv[i as int][a as int] == g@[a as int].deep_view());
            album_id = clone_opt_string(&g[a].browse_id);
            album_title = Some(g[a].text.clone());
        } else if artists.is_none() && has_artist_run_of(g) {
            artists = Some(i);
        } else if is_duration(text.as_str()) {
            duration = Some(text);
        } else if is_year(text.as_str()) {
            year = Some(text);
        } else if i == 0 && is_unlinked(g) && (is_type_label(text.as_str()) || (links && gs.len() > 2)) {
        } else if is_unlinked(g) && has_digit_of(&tv) && artists.is_some() {
            if views.is_none() {
                views = Some(text);
            }
        } else {
            rest.push(i);
        }
        i = i + 1;
    }
    let mut start: usize = 0;
    if artists.is_none() && rest.len() > 0 {
        artists = Some(rest[0]);
        start = 1;
    }
    if views.is_none() && start < rest.len() {
        let k = rest[start];
        assert(gv[k as int] == gs@[k as int].deep_view());
        let tv = group_text_of(&gs[k]);
        if has_digit_of(&tv) {
            views = Some(string_of(&tv));
        }
    }
    let (found, artists_text) = match artists {
        Some(k) => {
            assert(gv[k as int] == gs@[k as int].deep_view());
            (artists_in(&gs[k]), Some(string_of(&group_text_of(&gs[k]))))
        },
        None => (Vec::new(), None),
    };
    let m = Meta { artists: found, artists_text, album_id, album_title, duration, views, year };
    proof {
        let acc = meta_fold(gv, gv.len() as int);
        if acc.artists is None && acc.rest.len() > 1 {
            assert(acc.rest.drop_first()[0] == acc.rest[1]);
        }
        assert(m.artists.deep_view() =~= meta_of(gv).artists);
    }
    m
}


// ── list rows ──

/// A track's duration in milliseconds from its text.
pub open spec fn duration_ms_of(t: Option<Seq<char>>) -> Option<i64> {
    match t {
        Some(t) => match duration_of(t) {
            DurationFold::Value(v) => Some(v as i64),
            _ => None,
        },
        None => None,
    }
}

/// A track's duration in milliseconds from its text.
pub(crate) fn duration_ms(t: &Option<String>) -> (r: Option<i64>)
    requires
        t matches Some(x) ==> !(duration_of(x@) is Overflow),
    ensures
        r == duration_ms_of(t.deep_view()),
{
    match t {
        Some(x) => parse_duration(Some(x.as_str())),
        None => None,
    }
}

/// The `musicVideoType` of a `watchEndpoint`.
pub open spec fn music_video_type_of(watch: Option<JsonV>) -> Option<Seq<char>> {
    as_str(
        member(
            member(member(watch, "watchEndpointMusicSupportedConfigs"@), "watchEndpointMusicConfig"@),
            "musicVideoType"@,
        ),
    )
}

/// The `musicVideoType` of a `watchEndpoint`.
fn music_video_type_at(watch: Option<&Json>) -> (r: Option<String>)
    ensures
        r.deep_view() == music_video_type_of(view_of(watch)),
{
    string_at(at(at(at(watch, "watchEndpointMusicSupportedConfigs"), "watchEndpointMusicConfig"), "musicVideoType"))
}

/// A track's `video_type` from its `musicVideoType`.
pub open spec fn video_type_from(t: Option<Seq<char>>) -> Option<Seq<char>> {
    match t {
        Some(t) => Some(video_type_spec(t)),
        None => None,
    }
}

fn video_type_from_of(t: &Option<String>) -> (r: Option<String>)
    ensures
        r.deep_view() == video_type_from(t.deep_view()),
{
    match t {
        Some(x) => video_type_of(Some(x.as_str())),
        None => None,
    }
}

/// The text node of a flex column.
pub open spec fn flex_column(c: JsonV) -> Option<JsonV> {
    member(member(Some(c), "musicResponsiveListItemFlexColumnRenderer"@), "text"@)
}

/// The text nodes of a row's flex columns.
pub open spec fn columns_of(r: Option<JsonV>) -> Seq<Option<JsonV>> {
    items(member(r, "flexColumns"@)).map_values(|c: JsonV| flex_column(c))
}

pub open spec fn separator_run() -> RunV {
    RunV { text: " • "@, browse_id: None, page_type: None, watch_video_id: None, watch: None }
}

/// The runs of the columns, each column closed by a separator.
pub open spec fn column_runs(cols: Seq<Option<JsonV>>) -> Seq<RunV>
    decreases cols.len(),
{
    if cols.len() == 0 {
        Seq::empty()
    } else {
        column_runs(cols.drop_last()) + runs_of(cols.last()) + seq![separator_run()]
    }
}

/// The play button's endpoint over a row's cover image.
pub open spec fn overlay_of(r: Option<JsonV>) -> Option<JsonV> {
    member(
        member(
            member(member(member(r, "overlay"@), "musicItemThumbnailOverlayRenderer"@), "content"@),
            "musicPlayButtonRenderer"@,
        ),
        "playNavigationEndpoint"@,
    )
}

/// The `watchEndpoint` a run leads to.
pub open spec fn watch_of_run(run: JsonV) -> Option<JsonV> {
    member(member(Some(run), "navigationEndpoint"@), "watchEndpoint"@)
}

/// The first `watchEndpoint` among the runs.
pub open spec fn first_watch(rs: Seq<JsonV>) -> Option<JsonV>
    decreases rs.len(),
{
    if rs.len() == 0 {
        None
    } else if watch_of_run(rs[0]) is Some {
        watch_of_run(rs[0])
    } else {
        first_watch(rs.drop_first())
    }
}

/// The text of a fixed column.
pub open spec fn fixed_text(c: JsonV) -> Option<Seq<char>> {
    text_of(member(member(Some(c), "musicResponsiveListItemFixedColumnRenderer"@), "text"@))
}

/// The first fixed column with a non-blank text.
pub open spec fn first_fixed(cs: Seq<JsonV>) -> Option<Seq<char>>
    decreases cs.len(),
{
    if cs.len() == 0 {
        None
    } else {
        match fixed_text(cs[0]) {
            Some(t) => if trim(t).len() != 0 { Some(t) } else { first_fixed(cs.drop_first()) },
            None => first_fixed(cs.drop_first()),
        }
    }
}

pub open spec fn or_else<T>(a: Option<T>, b: Option<T>) -> Option<T> {
    if a is Some { a } else { b }
}

pub open spec fn is_album_page(page_type: Option<Seq<char>>) -> bool {
    page_type == Some(PAGE_ALBUM@) || page_type == Some(PAGE_AUDIOBOOK@)
}

pub open spec fn is_artist_page(page_type: Option<Seq<char>>) -> bool {
    page_type == Some(PAGE_ARTIST@) || page_type == Some(PAGE_USER_CHANNEL@)
}

/// A row that is a track.
pub open spec fn responsive_track(r: JsonV, title: Seq<char>, gs: Seq<Seq<RunV>>) -> Option<ItemV> {
    let node = Some(r);
    let cols = columns_of(node);
    let title_watch = first_watch(items(member(cols[0], "runs"@)));
    let overlay_watch = member(overlay_of(node), "watchEndpoint"@);
    let video_id = or_else(
        as_str(member(member(node, "playlistItemData"@), "videoId"@)),
        or_else(as_str(member(title_watch, "videoId"@)), as_str(member(overlay_watch, "videoId"@))),
    );
    let mvt = or_else(music_video_type_of(title_watch), music_video_type_of(overlay_watch));
    match video_id {
        None => None,
        Some(video_id) => if mvt == Some("MUSIC_VIDEO_TYPE_PODCAST_EPISODE"@) {
            None
        } else {
            let meta = meta_of(gs);
            let duration_text = match first_fixed(items(member(node, "fixedColumns"@))) {
                Some(t) => if duration_shape(trim(t)) { Some(trim(t)) } else { meta.duration },
                None => meta.duration,
            };
            Some(
                ItemV::Track(
                    TrackV {
                        video_id,
                        title,
                        artists: meta.artists,
                        artists_text: meta.artists_text,
                        album_id: meta.album_id,
                        album_title: meta.album_title,
                        duration_ms: duration_ms_of(duration_text),
                        duration_text,
                        thumbnail_url: thumb_of(node),
                        explicit: is_explicit(node, "badges"@),
                        video_type: video_type_from(mvt),
                        views_text: meta.views,
                        unavailable: as_str(member(node, "musicItemRendererDisplayPolicy"@)) == Some(
                            "MUSIC_ITEM_RENDERER_DISPLAY_POLICY_GREY_OUT"@,
                        ),
                    },
                ),
            )
        },
    }
}

/// `musicResponsiveListItemRenderer`: a track, album, artist or playlist; anything else is
/// `None`. An album, artist or playlist by the page its link opens; otherwise a track by its
/// video id, unless it is a podcast episode.
pub open spec fn responsive_item_of(r: JsonV) -> Option<ItemV> {
    let node = Some(r);
    let cols = columns_of(node);
    if cols.len() == 0 || cols[0] is None {
        None
    } else {
        let title = trim(text_or_empty(text_of(cols[0])));
        let browse = browse_of(node);
        let browse_id = as_str(member(browse, "browseId"@));
        let page_type = page_type_of(browse);
        let gs = groups_of(column_runs(cols.drop_first()));
        if title.len() == 0 {
            None
        } else if browse_id is Some && is_album_page(page_type) {
            let meta = meta_of(gs);
            Some(
                ItemV::Album(
                    AlbumV {
                        browse_id: browse_id.unwrap(),
                        title,
                        artists: meta.artists,
                        artists_text: meta.artists_text,
                        year: meta.year,
                        type_text: first_type_text(gs),
                        thumbnail_url: thumb_of(node),
                        playlist_id: as_str(member(member(overlay_of(node), "watchPlaylistEndpoint"@), "playlistId"@)),
                        explicit: is_explicit(node, "badges"@),
                    },
                ),
            )
        } else if browse_id is Some && is_artist_page(page_type) {
            Some(
                ItemV::Artist(
                    ArtistItemV {
                        browse_id: browse_id.unwrap(),
                        name: title,
                        subtitle: subtitle_without_type(gs),
                        thumbnail_url: thumb_of(node),
                        is_channel: page_type == Some(PAGE_USER_CHANNEL@),
                    },
                ),
            )
        } else if browse_id is Some && page_type == Some(PAGE_PLAYLIST@) {
            Some(
                ItemV::Playlist(
                    PlaylistV {
                        playlist_id: strip_vl(browse_id.unwrap()),
                        title,
                        subtitle: subtitle_without_type(gs),
                        thumbnail_url: thumb_of(node),
                    },
                ),
            )
        } else {
            responsive_track(r, title, gs)
        }
    }
}

pub open spec fn opt_item(o: Option<JsonV>, f: spec_fn(JsonV) -> Option<ItemV>) -> Option<ItemV> {
    match o {
        Some(v) => f(v),
        None => None,
    }
}

pub fn opt_str_is(s: Option<&str>, t: &str) -> (r: bool)
    ensures
        r == (str_view(s) == Some(t@)),
{
    match s {
        Some(x) => is_text(x, t),
        None => false,
    }
}

pub fn or_string(a: Option<String>, b: Option<String>) -> (r: Option<String>)
    ensures
        r.deep_view() == or_else(a.deep_view(), b.deep_view()),
{
    if a.is_some() {
        a
    } else {
        b
    }
}

pub fn or_json<'a>(a: Option<&'a Json>, b: Option<&'a Json>) -> (r: Option<&'a Json>)
    ensures
        view_of(r) == or_else(view_of(a), view_of(b)),
{
    if a.is_some() {
        a
    } else {
        b
    }
}

/// The text nodes of a row's flex columns.
fn columns_at<'a>(r: Option<&'a Json>) -> (cols: Vec<Option<&'a Json>>)
    ensures
        cols@.len() == columns_of(view_of(r)).len(),
        forall|i: int| 0 <= i < cols@.len() ==> #[trigger] view_of(cols@[i]) == columns_of(view_of(r))[i],
{
    let cs = items_at(at(r, "flexColumns"));
    let ghost cv = items(member(view_of(r), "flexColumns"@));
    let mut out: Vec<Option<&'a Json>> = Vec::new();
    let mut i: usize = 0;
    while i < cs.len()
        invariant
            i <= cs@.len(),
            cs@.len() == cv.len(),
            cv == items(member(view_of(r), "flexColumns"@)),
            forall|m: int| 0 <= m < cs@.len() ==> #[trigger] jview(cs@[m]) == cv[m],
            out@.len() == i,
            forall|m: int| 0 <= m < i ==> #[trigger] view_of(out@[m]) == flex_column(cv[m]),
        decreases cs.len() - i,
    {
        out.push(at(at(Some(&cs[i]), "musicResponsiveListItemFlexColumnRenderer"), "text"));
        i = i + 1;
    }
    out
}

/// The runs of the columns after the first, each column closed by a separator.
fn subtitle_runs<'a>(cols: &Vec<Option<&'a Json>>) -> (r: Vec<Run<'a>>)
    requires
        cols@.len() >= 1,
    ensures
        r.deep_view() == column_runs(cols@.map_values(|c: Option<&Json>| view_of(c)).drop_first()),
{
    let ghost cv = cols@.map_values(|c: Option<&Json>| view_of(c)).drop_first();
    let mut out: Vec<Run<'a>> = Vec::new();
    let mut i: usize = 1;
    assert(cv.take(0) =~= Seq::<Option<JsonV>>::empty());
    assert(out.deep_view() =~= Seq::<RunV>::empty());
    while i < cols.len()
        invariant
            1 <= i <= cols@.len(),
            cv == cols@.map_values(|c: Option<&Json>| view_of(c)).drop_first(),
            out.deep_view() == column_runs(cv.take(i - 1)),
        decreases cols.len() - i,
    {
        let ghost before = out.deep_view();
        let mut more = runs_at(cols[i]);
        let ghost mv = more.deep_view();
        out.append(&mut more);
        out.push(Run::separator());
        proof {
            assert(cv.take(i as int).drop_last() =~= cv.take(i - 1));
            assert(cv.take(i as int).last() == view_of(cols@[i as int]));
            assert(out.deep_view() =~= before + mv + seq![separator_run()]);
        }
        i = i + 1;
    }
    assert(cv.take(cols.len() - 1) =~= cv);
    out
}

/// The first `watchEndpoint` among the runs.
fn first_watch_at<'a>(rs: &'a [Json]) -> (w: Option<&'a Json>)
    ensures
        view_of(w) == first_watch(rs@.map_values(|j: Json| jview(j))),
{
    let ghost rv = rs@.map_values(|j: Json| jview(j));
    let mut i: usize = 0;
    assert(rv.skip(0) =~= rv);
    while i < rs.len()
        invariant
            i <= rs@.len(),
            rv == rs@.map_values(|j: Json| jview(j)),
            first_watch(rv) == first_watch(rv.skip(i as int)),
        decreases rs.len() - i,
    {
        let w = at(at(Some(&rs[i]), "navigationEndpoint"), "watchEndpoint");
        assert(rv.skip(i as int)[0] == rv[i as int]);
        if w.is_some() {
            return w;
        }
        assert(rv.skip(i as int).drop_first() =~= rv.skip(i + 1));
        i = i + 1;
    }
    assert(rv.skip(rs@.len() as int) =~= Seq::<JsonV>::empty());
    None
}

/// The first fixed column with a non-blank text.
fn first_fixed_at(cs: &[Json]) -> (t: Option<String>)
    ensures
        t.deep_view() == first_fixed(cs@.map_values(|j: Json| jview(j))),
{
    let ghost cv = cs@.map_values(|j: Json| jview(j));
    let mut i: usize = 0;
    assert(cv.skip(0) =~= cv);
    while i < cs.len()
        invariant
            i <= cs@.len(),
            cv == cs@.map_values(|j: Json| jview(j)),
            first_fixed(cv) == first_fixed(cv.skip(i as int)),
        decreases cs.len() - i,
    {
        let t = text_at(at(at(Some(&cs[i]), "musicResponsiveListItemFixedColumnRenderer"), "text"));
        assert(cv.skip(i as int)[0] == cv[i as int]);
        assert(cv.skip(i as int).drop_first() =~= cv.skip(i + 1));
        match t {
            Some(x) => {
                if trimmed(x.as_str()).len() != 0 {
                    return Some(x);
                }
            },
            None => {},
        }
        i = i + 1;
    }
    assert(cv.skip(cs@.len() as int) =~= Seq::<JsonV>::empty());
    None
}

proof fn lemma_slice_view(rs: &[Json], v: Seq<JsonV>)
    requires
        rs@.len() == v.len(),
        forall|m: int| 0 <= m < rs@.len() ==> #[trigger] jview(rs@[m]) == v[m],
    ensures
        rs@.map_values(|j: Json| jview(j)) == v,
{
    assert(rs@.map_values(|j: Json| jview(j)) =~= v);
}

pub(crate) fn trimmed_string(s: &str) -> (r: String)
    ensures
        r@ == trim(s@),
{
    string_of(&trimmed(s))
}

/// `musicResponsiveListItemRenderer`: a track, album, artist or playlist; anything else is `None`.
pub fn responsive_item(r: Option<&Json>) -> (item: Option<MusicItem>)
    ensures
        item.deep_view() == opt_item(view_of(r), |v: JsonV| responsive_item_of(v)),
{
    let node = match r {
        Some(n) => n,
        None => return None,
    };
    let ghost rv = jview(*node);
    let n = Some(node);
    let cols = columns_at(n);
    if cols.len() == 0 {
        return None;
    }
    assert(view_of(cols@[0]) == columns_of(Some(rv))[0]);
    let first = match cols[0] {
        Some(c) => c,
        None => return None,
    };
    let title_chars = match text_at(Some(first)) {
        Some(t) => trimmed(t.as_str()),
        None => Vec::new(),
    };
    assert(title_chars@ == trim(text_or_empty(text_of(Some(jview(*first))))));
    let title = string_of(&title_chars);
    let runs = subtitle_runs(&cols);
    let gs = groups(&runs);
    proof {
        assert(cols@.map_values(|c: Option<&Json>| view_of(c)) =~= columns_of(Some(rv)));
    }
    if title_chars.len() == 0 {
        return None;
    }
    let browse = at(at(n, "navigationEndpoint"), "browseEndpoint");
    let browse_id = string_at(at(browse, "browseId"));
    let page_type = page_type_at(browse);
    let thumbnail = thumb_at(n);
    let overlay = at(
        at(at(at(at(n, "overlay"), "musicItemThumbnailOverlayRenderer"), "content"), "musicPlayButtonRenderer"),
        "playNavigationEndpoint",
    );
    match browse_id {
        Some(b) => {
            if opt_str_is(page_type, PAGE_ALBUM) || opt_str_is(page_type, PAGE_AUDIOBOOK) {
                let meta = meta_in(&gs);
                return Some(
                    MusicItem::Album(
                        AlbumItem {
                            browse_id: b,
                            title,
                            artists: meta.artists,
                            artists_text: meta.artists_text,
                            year: meta.year,
                            type_text: first_type_text_of(&gs),
                            thumbnail_url: thumbnail,
                            playlist_id: string_at(at(at(overlay, "watchPlaylistEndpoint"), "playlistId")),
                            explicit: explicit_at(n, "badges"),
                        },
                    ),
                );
            } else if opt_str_is(page_type, PAGE_ARTIST) || opt_str_is(page_type, PAGE_USER_CHANNEL) {
                return Some(
                    MusicItem::Artist(
                        ArtistItem {
                            browse_id: b,
                            name: title,
                            subtitle: subtitle_without_type_of(&gs),
                            thumbnail_url: thumbnail,
                            is_channel: opt_str_is(page_type, PAGE_USER_CHANNEL),
                        },
                    ),
                );
            } else if opt_str_is(page_type, PAGE_PLAYLIST) {
                return Some(
                    MusicItem::Playlist(
                        PlaylistItem {
                            playlist_id: strip_vl_of(b.as_str()),
                            title,
                            subtitle: subtitle_without_type_of(&gs),
                            thumbnail_url: thumbnail,
                        },
                    ),
                );
            }
        },
        None => {},
    }
    let title_runs = items_at(at(Some(first), "runs"));
    proof {
        lemma_slice_view(title_runs, items(member(Some(jview(*first)), "runs"@)));
    }
    let title_watch = first_watch_at(title_runs);
    let overlay_watch = at(overlay, "watchEndpoint");
    let video_id = or_string(
        string_at(at(at(n, "playlistItemData"), "videoId")),
        or_string(string_at(at(title_watch, "videoId")), string_at(at(overlay_watch, "videoId"))),
    );
    let video_id = match video_id {
        Some(v) => v,
        None => return None,
    };
    let mvt = or_string(music_video_type_at(title_watch), music_video_type_at(overlay_watch));
    if opt_is(&mvt, "MUSIC_VIDEO_TYPE_PODCAST_EPISODE") {
        return None;
    }
    let fixed_cols = items_at(at(n, "fixedColumns"));
    proof {
        lemma_slice_view(fixed_cols, items(member(Some(rv), "fixedColumns"@)));
    }
    let fixed = first_fixed_at(fixed_cols);
    let meta = meta_in(&gs);
    let duration_text = match fixed {
        Some(t) => {
            let tt = trimmed_string(t.as_str());
            if is_duration(tt.as_str()) {
                proof {
                    lemma_shaped_duration(tt@);
                }
                Some(tt)
            } else {
                meta.duration
            }
        },
        None => meta.duration,
    };
    proof {
        if meta.duration is Some && duration_text == meta.duration {
            lemma_meta_duration(gs.deep_view());
        }
    }
    let duration_ms = duration_ms(&duration_text);
    Some(
        MusicItem::Track(
            Track {
                video_id,
                title,
                artists: meta.artists,
                artists_text: meta.artists_text,
                album_id: meta.album_id,
                album_title: meta.album_title,
                duration_ms,
                duration_text,
                thumbnail_url: thumbnail,
                explicit: explicit_at(n, "badges"),
                video_type: video_type_from_of(&mvt),
                views_text: meta.views,
                unavailable: opt_str_is(
                    str_at(at(n, "musicItemRendererDisplayPolicy")),
                    "MUSIC_ITEM_RENDERER_DISPLAY_POLICY_GREY_OUT",
                ),
            },
        ),
    )
}

proof fn lemma_fold_duration(gs: Seq<Seq<RunV>>, n: int)
    ensures
        meta_fold(gs, n).duration matches Some(t) ==> duration_shape(t),
    decreases n,
{
    if n > 0 {
        lemma_fold_duration(gs, n - 1);
    }
}

/// The duration a caption tells is in YouTube's shape.
proof fn lemma_meta_duration(gs: Seq<Seq<RunV>>)
    ensures
        meta_of(gs).duration matches Some(t) ==> duration_of(t) is Value,
{
    lemma_fold_duration(gs, gs.len() as int);
    if meta_of(gs).duration is Some {
        lemma_shaped_duration(meta_of(gs).duration.unwrap());
    }
}


// ── cards ──

/// The artists that carry a link.
pub open spec fn with_ids(a: Seq<ArtistRefV>) -> Seq<ArtistRefV>
    decreases a.len(),
{
    if a.len() == 0 {
        Seq::empty()
    } else {
        let w = with_ids(a.drop_last());
        if a.last().id is Some { w.push(a.last()) } else { w }
    }
}

/// The album's play button: its playlist.
pub open spec fn card_playlist_of(node: Option<JsonV>) -> Option<Seq<char>> {
    let overlay = member(
        member(
            member(member(member(node, "thumbnailOverlay"@), "musicItemThumbnailOverlayRenderer"@), "content"@),
            "musicPlayButtonRenderer"@,
        ),
        "playNavigationEndpoint"@,
    );
    as_str(member(member(overlay, "watchPlaylistEndpoint"@), "playlistId"@))
}

/// `musicTwoRowItemRenderer`: an album, artist or playlist by the page its link opens, or a
/// track by the video it plays; an album lists only the artists it links to.
pub open spec fn two_row_of(r: JsonV) -> Option<ItemV> {
    let node = Some(r);
    match text_of(member(node, "title"@)) {
        None => None,
        Some(t) => {
            let title = trim(t);
            let gs = groups_of(runs_of(member(node, "subtitle"@)));
            let nav = member(node, "navigationEndpoint"@);
            let browse = member(nav, "browseEndpoint"@);
            let browse_id = as_str(member(browse, "browseId"@));
            let page_type = page_type_of(browse);
            let meta = meta_of(gs);
            if title.len() == 0 {
                None
            } else if browse is Some {
                if browse_id is None {
                    None
                } else if is_album_page(page_type) {
                    let linked = with_ids(meta.artists);
                    Some(
                        ItemV::Album(
                            AlbumV {
                                browse_id: browse_id.unwrap(),
                                title,
                                artists: linked,
                                artists_text: if linked.len() > 0 { meta.artists_text } else { None },
                                year: meta.year,
                                type_text: first_type_text(gs),
                                thumbnail_url: thumb_of(node),
                                playlist_id: card_playlist_of(node),
                                explicit: is_explicit(node, "subtitleBadges"@),
                            },
                        ),
                    )
                } else if is_artist_page(page_type) {
                    Some(
                        ItemV::Artist(
                            ArtistItemV {
                                browse_id: browse_id.unwrap(),
                                name: title,
                                subtitle: subtitle_without_type(gs),
                                thumbnail_url: thumb_of(node),
                                is_channel: page_type == Some(PAGE_USER_CHANNEL@),
                            },
                        ),
                    )
                } else if page_type == Some(PAGE_PLAYLIST@) {
                    Some(
                        ItemV::Playlist(
                            PlaylistV {
                                playlist_id: strip_vl(browse_id.unwrap()),
                                title,
                                subtitle: subtitle_without_type(gs),
                                thumbnail_url: thumb_of(node),
                            },
                        ),
                    )
                } else {
                    None
                }
            } else {
                let watch = member(nav, "watchEndpoint"@);
                let mvt = music_video_type_of(watch);
                match as_str(member(watch, "videoId"@)) {
                    None => None,
                    Some(video_id) => if watch is None || mvt == Some("MUSIC_VIDEO_TYPE_PODCAST_EPISODE"@) {
                        None
                    } else {
                        Some(
                            ItemV::Track(
                                TrackV {
                                    video_id,
                                    title,
                                    artists: meta.artists,
                                    artists_text: meta.artists_text,
                                    album_id: meta.album_id,
                                    album_title: meta.album_title,
                                    duration_ms: duration_ms_of(meta.duration),
                                    duration_text: meta.duration,
                                    thumbnail_url: thumb_of(node),
                                    explicit: false,
                                    video_type: video_type_from(mvt),
                                    views_text: meta.views,
                                    unavailable: false,
                                },
                            ),
                        )
                    },
                }
            }
        },
    }
}

fn with_ids_of(a: &Vec<ArtistRef>) -> (r: Vec<ArtistRef>)
    ensures
        r.deep_view() == with_ids(a.deep_view()),
{
    let ghost av = a.deep_view();
    let mut out: Vec<ArtistRef> = Vec::new();
    let mut i: usize = 0;
    while i < a.len()
        invariant
            i <= a@.len(),
            av == a.deep_view(),
            out.deep_view() == with_ids(av.take(i as int)),
        decreases a.len() - i,
    {
        assert(av.take(i + 1).drop_last() =~= av.take(i as int));
        assert(av[i as int] == a@[i as int].deep_view());
        if a[i].id.is_some() {
            let ghost before = out.deep_view();
            out.push(a[i].clone());
            assert(out.deep_view() =~= before.push(av[i as int]));
        }
        i = i + 1;
    }
    assert(av.take(a.len() as int) =~= av);
    out
}

/// `musicTwoRowItemRenderer`: an album, artist, playlist or track.
pub fn two_row_item(r: Option<&Json>) -> (item: Option<MusicItem>)
    ensures
        item.deep_view() == opt_item(view_of(r), |v: JsonV| two_row_of(v)),
{
    let node = match r {
        Some(n) => n,
        None => return None,
    };
    let n = Some(node);
    let title_chars = match text_at(at(n, "title")) {
        Some(t) => trimmed(t.as_str()),
        None => return None,
    };
    if title_chars.len() == 0 {
        return None;
    }
    let title = string_of(&title_chars);
    let subtitle = runs_at(at(n, "subtitle"));
    let gs = groups(&subtitle);
    let thumbnail = thumb_at(n);
    let nav = at(n, "navigationEndpoint");
    let browse = at(nav, "browseEndpoint");
    if browse.is_some() {
        let browse_id = match string_at(at(browse, "browseId")) {
            Some(b) => b,
            None => return None,
        };
        let page_type = page_type_at(browse);
        if opt_str_is(page_type, PAGE_ALBUM) || opt_str_is(page_type, PAGE_AUDIOBOOK) {
            let meta = meta_in(&gs);
            let linked = with_ids_of(&meta.artists);
            let artists_text = if linked.len() > 0 { meta.artists_text } else { None };
            let overlay = at(
                at(at(at(at(n, "thumbnailOverlay"), "musicItemThumbnailOverlayRenderer"), "content"), "musicPlayButtonRenderer"),
                "playNavigationEndpoint",
            );
            let playlist_id = string_at(at(at(overlay, "watchPlaylistEndpoint"), "playlistId"));
            return Some(
                MusicItem::Album(
                    AlbumItem {
                        browse_id,
                        title,
                        artists: linked,
                        artists_text,
                        year: meta.year,
                        type_text: first_type_text_of(&gs),
                        thumbnail_url: thumbnail,
                        playlist_id,
                        explicit: explicit_at(n, "subtitleBadges"),
                    },
                ),
            );
        } else if opt_str_is(page_type, PAGE_ARTIST) || opt_str_is(page_type, PAGE_USER_CHANNEL) {
            return Some(
                MusicItem::Artist(
                    ArtistItem {
                        browse_id,
                        name: title,
                        subtitle: subtitle_without_type_of(&gs),
                        thumbnail_url: thumbnail,
                        is_channel: opt_str_is(page_type, PAGE_USER_CHANNEL),
                    },
                ),
            );
        } else if opt_str_is(page_type, PAGE_PLAYLIST) {
            return Some(
                MusicItem::Playlist(
                    PlaylistItem {
                        playlist_id: strip_vl_of(browse_id.as_str()),
                        title,
                        subtitle: subtitle_without_type_of(&gs),
                        thumbnail_url: thumbnail,
                    },
                ),
            );
        } else {
            return None;
        }
    }
    let watch = at(nav, "watchEndpoint");
    if watch.is_none() {
        return None;
    }
    let video_id = match string_at(at(watch, "videoId")) {
        Some(v) => v,
        None => return None,
    };
    let mvt = music_video_type_at(watch);
    if opt_is(&mvt, "MUSIC_VIDEO_TYPE_PODCAST_EPISODE") {
        return None;
    }
    let meta = meta_in(&gs);
    proof {
        lemma_meta_duration(gs.deep_view());
    }
    let duration_ms = duration_ms(&meta.duration);
    Some(
        MusicItem::Track(
            Track {
                video_id,
                title,
                artists: meta.artists,
                artists_text: meta.artists_text,
                album_id: meta.album_id,
                album_title: meta.album_title,
                duration_ms,
                duration_text: meta.duration,
                thumbnail_url: thumbnail,
                explicit: false,
                video_type: video_type_from_of(&mvt),
                views_text: meta.views,
                unavailable: false,
            },
        ),
    )
}

/// `musicNavigationButtonRenderer`: a mood tile.
pub open spec fn navigation_button_of(r: JsonV) -> Option<ItemV> {
    let node = Some(r);
    let browse = member(member(node, "clickCommand"@), "browseEndpoint"@);
    match text_of(member(node, "buttonText"@)) {
        Some(title) => if title.len() == 0 {
            None
        } else {
            match as_str(member(browse, "browseId"@)) {
                Some(browse_id) => Some(
                    ItemV::Mood(
                        MoodV {
                            title,
                            browse_id,
                            params: as_str(member(browse, "params"@)),
                            color: match int_of(member(member(node, "solid"@), "leftStripeColor"@)) {
                                Some(c) => Some(c as u32),
                                None => None,
                            },
                        },
                    ),
                ),
                None => None,
            }
        },
        None => None,
    }
}

/// `musicNavigationButtonRenderer`: a mood tile.
pub fn navigation_button(r: Option<&Json>) -> (item: Option<MusicItem>)
    ensures
        item.deep_view() == opt_item(view_of(r), |v: JsonV| navigation_button_of(v)),
{
    let title = match text_at(at(r, "buttonText")) {
        Some(t) => t,
        None => return None,
    };
    if chars_of(title.as_str()).len() == 0 {
        return None;
    }
    let browse = at(at(r, "clickCommand"), "browseEndpoint");
    let browse_id = match string_at(at(browse, "browseId")) {
        Some(b) => b,
        None => return None,
    };
    let color = match i64_at(at(at(r, "solid"), "leftStripeColor")) {
        Some(c) => Some(c as u32),
        None => None,
    };
    Some(MusicItem::Mood(MoodItem { title, browse_id, params: string_at(at(browse, "params")), color }))
}

/// The length text of a queue row reads without leaving `i64`.
pub open spec fn panel_safe(r: JsonV) -> bool {
    text_of(member(Some(r), "lengthText"@)) matches Some(t) ==> !(duration_of(trim(t)) is Overflow)
}

/// A row of the "Up next" queue (`playlistPanelVideoRenderer`).
pub open spec fn panel_video_of(r: JsonV) -> Option<TrackV> {
    let node = Some(r);
    let video_id = or_else(
        as_str(member(node, "videoId"@)),
        as_str(member(member(member(node, "navigationEndpoint"@), "watchEndpoint"@), "videoId"@)),
    );
    let meta = meta_of(groups_of(runs_of(member(node, "longBylineText"@))));
    let duration = match text_of(member(node, "lengthText"@)) {
        Some(t) => Some(trim(t)),
        None => None,
    };
    match (video_id, text_of(member(node, "title"@))) {
        (Some(video_id), Some(t)) => if trim(t).len() == 0 {
            None
        } else {
            Some(
                TrackV {
                    video_id,
                    title: trim(t),
                    artists: meta.artists,
                    artists_text: or_else(meta.artists_text, text_of(member(node, "shortBylineText"@))),
                    album_id: meta.album_id,
                    album_title: meta.album_title,
                    duration_ms: duration_ms_of(duration),
                    duration_text: duration,
                    thumbnail_url: best_thumbnail_of(member(member(node, "thumbnail"@), "thumbnails"@)),
                    explicit: is_explicit(node, "badges"@),
                    video_type: video_type_from(
                        music_video_type_of(member(member(node, "navigationEndpoint"@), "watchEndpoint"@)),
                    ),
                    views_text: None,
                    unavailable: member(node, "unplayableText"@) is Some,
                },
            )
        },
        _ => None,
    }
}

/// A row of the "Up next" queue (`playlistPanelVideoRenderer`).
pub fn panel_video(r: Option<&Json>) -> (t: Option<Track>)
    requires
        r matches Some(j) ==> panel_safe(jview(*j)),
    ensures
        t.deep_view() == match view_of(r) {
            Some(v) => panel_video_of(v),
            None => None,
        },
{
    let node = match r {
        Some(n) => n,
        None => return None,
    };
    let n = Some(node);
    let video_id = or_string(
        string_at(at(n, "videoId")),
        string_at(at(at(at(n, "navigationEndpoint"), "watchEndpoint"), "videoId")),
    );
    let video_id = match video_id {
        Some(v) => v,
        None => return None,
    };
    let title_chars = match text_at(at(n, "title")) {
        Some(t) => trimmed(t.as_str()),
        None => return None,
    };
    if title_chars.len() == 0 {
        return None;
    }
    let byline = runs_at(at(n, "longBylineText"));
    let meta = meta_in(&groups(&byline));
    let duration = match text_at(at(n, "lengthText")) {
        Some(t) => Some(trimmed_string(t.as_str())),
        None => None,
    };
    let duration_ms = duration_ms(&duration);
    Some(
        Track {
            video_id,
            title: string_of(&title_chars),
            artists: meta.artists,
            artists_text: or_string(meta.artists_text, text_at(at(n, "shortBylineText"))),
            album_id: meta.album_id,
            album_title: meta.album_title,
            duration_ms,
            duration_text: duration,
            thumbnail_url: best_thumbnail_at(at(at(n, "thumbnail"), "thumbnails")),
            explicit: explicit_at(n, "badges"),
            video_type: video_type_from_of(&music_video_type_at(at(at(n, "navigationEndpoint"), "watchEndpoint"))),
            views_text: None,
            unavailable: at(n, "unplayableText").is_some(),
        },
    )
}


// ── shelves ──

/// An item of a shelf: a row, a card, a mood tile or a queue row, by its renderer.
pub open spec fn item_of(v: JsonV) -> Option<ItemV> {
    let node = Some(v);
    let row = member(node, "musicResponsiveListItemRenderer"@);
    let card = member(node, "musicTwoRowItemRenderer"@);
    let button = member(node, "musicNavigationButtonRenderer"@);
    let panel = member(node, "playlistPanelVideoRenderer"@);
    if row is Some {
        responsive_item_of(row.unwrap())
    } else if card is Some {
        two_row_of(card.unwrap())
    } else if button is Some {
        navigation_button_of(button.unwrap())
    } else {
        match panel {
            Some(p) => match panel_video_of(p) {
                Some(t) => Some(ItemV::Track(t)),
                None => None,
            },
            None => None,
        }
    }
}

/// An item whose queue row, if it is read as one, has a length that reads within `i64`.
pub open spec fn item_safe(v: JsonV) -> bool {
    let node = Some(v);
    (member(node, "musicResponsiveListItemRenderer"@) is None && member(node, "musicTwoRowItemRenderer"@) is None
        && member(node, "musicNavigationButtonRenderer"@) is None) ==> (member(node, "playlistPanelVideoRenderer"@) matches Some(
        p,
    ) ==> panel_safe(p))
}

/// The items read from the elements, in order; those that are no item are left out.
pub open spec fn collect_items(vs: Seq<JsonV>) -> Seq<ItemV>
    decreases vs.len(),
{
    if vs.len() == 0 {
        Seq::empty()
    } else {
        let c = collect_items(vs.drop_last());
        match item_of(vs.last()) {
            Some(i) => c.push(i),
            None => c,
        }
    }
}

/// The items of a shelf's contents.
pub open spec fn items_in(contents: Option<JsonV>) -> Seq<ItemV> {
    collect_items(items(contents))
}

/// Every element of the contents is safe to read.
pub open spec fn contents_safe(contents: Option<JsonV>) -> bool {
    forall|i: int| 0 <= i < items(contents).len() ==> #[trigger] item_safe(items(contents)[i])
}

/// The items of a shelf's contents.
pub fn items_of(contents: Option<&Json>) -> (r: Vec<MusicItem>)
    requires
        contents_safe(view_of(contents)),
    ensures
        r.deep_view() == items_in(view_of(contents)),
{
    let cs = items_at(contents);
    let ghost cv = items(view_of(contents));
    let mut out: Vec<MusicItem> = Vec::new();
    let mut i: usize = 0;
    while i < cs.len()
        invariant
            i <= cs@.len(),
            cs@.len() == cv.len(),
            cv == items(view_of(contents)),
            contents_safe(view_of(contents)),
            forall|m: int| 0 <= m < cs@.len() ==> #[trigger] jview(cs@[m]) == cv[m],
            out.deep_view() == collect_items(cv.take(i as int)),
        decreases cs.len() - i,
    {
        assert(cv.take(i + 1).drop_last() =~= cv.take(i as int));
        assert(cv.take(i + 1).last() == cv[i as int]);
        assert(item_safe(cv[i as int]));
        let item = Some(&cs[i]);
        let row = at(item, "musicResponsiveListItemRenderer");
        let card = at(item, "musicTwoRowItemRenderer");
        let button = at(item, "musicNavigationButtonRenderer");
        let found = if row.is_some() {
            responsive_item(row)
        } else if card.is_some() {
            two_row_item(card)
        } else if button.is_some() {
            navigation_button(button)
        } else {
            let panel = at(item, "playlistPanelVideoRenderer");
            match panel_video(panel) {
                Some(t) => Some(MusicItem::Track(t)),
                None => None,
            }
        };
        let ghost before = out.deep_view();
        match found {
            Some(x) => {
                out.push(x);
                assert(out.deep_view() =~= before.push(item_of(cv[i as int]).unwrap()));
            },
            None => {},
        }
        i = i + 1;
    }
    assert(cv.take(cs@.len() as int) =~= cv);
    out
}

/// The browse endpoint of a title's first run.
pub open spec fn title_browse(node: Option<JsonV>) -> Option<JsonV> {
    member(member(element(member(member(node, "title"@), "runs"@), 0), "navigationEndpoint"@), "browseEndpoint"@)
}

/// A grid as a shelf.
pub open spec fn grid_shelf(grid: Option<JsonV>) -> ShelfV {
    ShelfV {
        title: text_of(member(member(member(grid, "header"@), "gridHeaderRenderer"@), "title"@)),
        items: items_in(member(grid, "items"@)),
        more_browse_id: None,
        more_params: None,
    }
}

/// The grids among an item section's contents.
pub open spec fn inner_grids(vs: Seq<JsonV>) -> Seq<ShelfV>
    decreases vs.len(),
{
    if vs.len() == 0 {
        Seq::empty()
    } else {
        let g = inner_grids(vs.drop_last());
        let grid = member(Some(vs.last()), "gridRenderer"@);
        if grid is Some { g.push(grid_shelf(grid)) } else { g }
    }
}

/// The grids of an item section are safe to read.
pub open spec fn inner_grids_safe(vs: Seq<JsonV>) -> bool {
    forall|i: int|
        0 <= i < vs.len() ==> #[trigger] contents_safe(member(member(Some(vs[i]), "gridRenderer"@), "items"@))
}

/// The shelves of a section: a list, a carousel, a grid, a playlist, or the grids of an item
/// section; "All ›" from the bottom button or the header's button, else from the title's link.
pub open spec fn section_shelves(sec: JsonV) -> Seq<ShelfV> {
    let node = Some(sec);
    let list = member(node, "musicShelfRenderer"@);
    let carousel = member(node, "musicCarouselShelfRenderer"@);
    let grid = member(node, "gridRenderer"@);
    let playlist = member(node, "musicPlaylistShelfRenderer"@);
    let item_section = member(node, "itemSectionRenderer"@);
    if list is Some {
        let more = or_else(member(member(list, "bottomEndpoint"@), "browseEndpoint"@), title_browse(list));
        seq![
            ShelfV {
                title: text_of(member(list, "title"@)),
                items: items_in(member(list, "contents"@)),
                more_browse_id: as_str(member(more, "browseId"@)),
                more_params: as_str(member(more, "params"@)),
            },
        ]
    } else if carousel is Some {
        let header = member(member(carousel, "header"@), "musicCarouselShelfBasicHeaderRenderer"@);
        let more = or_else(
            member(
                member(member(member(header, "moreContentButton"@), "buttonRenderer"@), "navigationEndpoint"@),
                "browseEndpoint"@,
            ),
            title_browse(header),
        );
        seq![
            ShelfV {
                title: text_of(member(header, "title"@)),
                items: items_in(member(carousel, "contents"@)),
                more_browse_id: as_str(member(more, "browseId"@)),
                more_params: as_str(member(more, "params"@)),
            },
        ]
    } else if grid is Some {
        seq![grid_shelf(grid)]
    } else if playlist is Some {
        seq![ShelfV { title: None, items: items_in(member(playlist, "contents"@)), more_browse_id: None, more_params: None }]
    } else if item_section is Some {
        inner_grids(items(member(item_section, "contents"@)))
    } else {
        Seq::empty()
    }
}

/// The contents a section's shelves read are safe to read.
pub open spec fn section_safe(sec: JsonV) -> bool {
    let node = Some(sec);
    let list = member(node, "musicShelfRenderer"@);
    let carousel = member(node, "musicCarouselShelfRenderer"@);
    let grid = member(node, "gridRenderer"@);
    let playlist = member(node, "musicPlaylistShelfRenderer"@);
    let item_section = member(node, "itemSectionRenderer"@);
    if list is Some {
        contents_safe(member(list, "contents"@))
    } else if carousel is Some {
        contents_safe(member(carousel, "contents"@))
    } else if grid is Some {
        contents_safe(member(grid, "items"@))
    } else if playlist is Some {
        contents_safe(member(playlist, "contents"@))
    } else if item_section is Some {
        inner_grids_safe(items(member(item_section, "contents"@)))
    } else {
        true
    }
}

/// The shelves of all sections, in order.
pub open spec fn all_shelves(secs: Seq<JsonV>) -> Seq<ShelfV>
    decreases secs.len(),
{
    if secs.len() == 0 { Seq::empty() } else { all_shelves(secs.drop_last()) + section_shelves(secs.last()) }
}

/// The shelves that hold items.
pub open spec fn non_empty_shelves(shs: Seq<ShelfV>) -> Seq<ShelfV>
    decreases shs.len(),
{
    if shs.len() == 0 {
        Seq::empty()
    } else {
        let n = non_empty_shelves(shs.drop_last());
        if shs.last().items.len() > 0 { n.push(shs.last()) } else { n }
    }
}

/// The shelves of `sectionListRenderer.contents` that hold items.
pub open spec fn shelves_in(section_contents: Option<JsonV>) -> Seq<ShelfV> {
    non_empty_shelves(all_shelves(items(section_contents)))
}

/// Every section is safe to read.
pub open spec fn sections_safe(section_contents: Option<JsonV>) -> bool {
    forall|i: int| 0 <= i < items(section_contents).len() ==> #[trigger] section_safe(items(section_contents)[i])
}

fn grid_shelf_at(grid: Option<&Json>) -> (r: Shelf)
    requires
        contents_safe(member(view_of(grid), "items"@)),
    ensures
        r.deep_view() == grid_shelf(view_of(grid)),
{
    Shelf {
        title: text_at(at(at(at(grid, "header"), "gridHeaderRenderer"), "title")),
        items: items_of(at(grid, "items")),
        more_browse_id: None,
        more_params: None,
    }
}

fn shelf_with_more(title: Option<String>, items: Vec<MusicItem>, more: Option<&Json>) -> (r: Shelf)
    ensures
        r.deep_view() == (ShelfV {
            title: title.deep_view(),
            items: items.deep_view(),
            more_browse_id: as_str(member(view_of(more), "browseId"@)),
            more_params: as_str(member(view_of(more), "params"@)),
        }),
{
    Shelf { title, items, more_browse_id: string_at(at(more, "browseId")), more_params: string_at(at(more, "params")) }
}

/// The shelves of one section, pushed onto `out`.
fn push_section_shelves(out: &mut Vec<Shelf>, sec: &Json)
    requires
        section_safe(jview(*sec)),
    ensures
        final(out).deep_view() == old(out).deep_view() + section_shelves(jview(*sec)),
{
    let ghost before = out.deep_view();
    let node = Some(sec);
    let list = at(node, "musicShelfRenderer");
    let carousel = at(node, "musicCarouselShelfRenderer");
    let grid = at(node, "gridRenderer");
    let playlist = at(node, "musicPlaylistShelfRenderer");
    let item_section = at(node, "itemSectionRenderer");
    if list.is_some() {
        let more = or_json(
            at(at(list, "bottomEndpoint"), "browseEndpoint"),
            at(at(at_index(at(at(list, "title"), "runs"), 0), "navigationEndpoint"), "browseEndpoint"),
        );
        out.push(shelf_with_more(text_at(at(list, "title")), items_of(at(list, "contents")), more));
    } else if carousel.is_some() {
        let header = at(at(carousel, "header"), "musicCarouselShelfBasicHeaderRenderer");
        let more = or_json(
            at(at(at(at(header, "moreContentButton"), "buttonRenderer"), "navigationEndpoint"), "browseEndpoint"),
            at(at(at_index(at(at(header, "title"), "runs"), 0), "navigationEndpoint"), "browseEndpoint"),
        );
        out.push(shelf_with_more(text_at(at(header, "title")), items_of(at(carousel, "contents")), more));
    } else if grid.is_some() {
        out.push(grid_shelf_at(grid));
    } else if playlist.is_some() {
        out.push(Shelf { title: None, items: items_of(at(playlist, "contents")), more_browse_id: None, more_params: None });
    } else if item_section.is_some() {
        let inner = items_at(at(item_section, "contents"));
        let ghost iv = items(member(view_of(item_section), "contents"@));
        let mut i: usize = 0;
        while i < inner.len()
            invariant
                i <= inner@.len(),
                inner@.len() == iv.len(),
                inner_grids_safe(iv),
                forall|m: int| 0 <= m < inner@.len() ==> #[trigger] jview(inner@[m]) == iv[m],
                out.deep_view() == before + inner_grids(iv.take(i as int)),
            decreases inner.len() - i,
        {
            assert(iv.take(i + 1).drop_last() =~= iv.take(i as int));
            assert(iv.take(i + 1).last() == iv[i as int]);
            assert(contents_safe(member(member(Some(iv[i as int]), "gridRenderer"@), "items"@)));
            let g = at(Some(&inner[i]), "gridRenderer");
            if g.is_some() {
                let ghost mid = out.deep_view();
                out.push(grid_shelf_at(g));
                assert(out.deep_view() =~= mid.push(grid_shelf(view_of(g))));
            }
            i = i + 1;
        }
        assert(iv.take(inner@.len() as int) =~= iv);
        return;
    }
    assert(out.deep_view() =~= before + section_shelves(jview(*sec)));
}

/// The shelves of `sectionListRenderer.contents`: lists, carousels, grids; those without items
/// are left out.
pub fn shelves(section_contents: Option<&Json>) -> (r: Vec<Shelf>)
    requires
        sections_safe(view_of(section_contents)),
    ensures
        r.deep_view() == shelves_in(view_of(section_contents)),
{
    let secs = items_at(section_contents);
    let ghost sv = items(view_of(section_contents));
    let mut all: Vec<Shelf> = Vec::new();
    let mut i: usize = 0;
    while i < secs.len()
        invariant
            i <= secs@.len(),
            secs@.len() == sv.len(),
            sv == items(view_of(section_contents)),
            sections_safe(view_of(section_contents)),
            forall|m: int| 0 <= m < secs@.len() ==> #[trigger] jview(secs@[m]) == sv[m],
            all.deep_view() == all_shelves(sv.take(i as int)),
        decreases secs.len() - i,
    {
        assert(sv.take(i + 1).drop_last() =~= sv.take(i as int));
        assert(sv.take(i + 1).last() == sv[i as int]);
        assert(section_safe(sv[i as int]));
        push_section_shelves(&mut all, &secs[i]);
        i = i + 1;
    }
    assert(sv.take(secs@.len() as int) =~= sv);
    let ghost av = all.deep_view();
    let mut kept: Vec<Shelf> = Vec::new();
    let mut rest = all;
    let mut k: usize = 0;
    let n = rest.len();
    while rest.len() > 0
        invariant
            k + rest@.len() == n,
            n == av.len(),
            forall|m: int| 0 <= m < rest@.len() ==> #[trigger] rest@[m].deep_view() == av[k + m],
            kept.deep_view() == non_empty_shelves(av.take(k as int)),
        decreases rest.len(),
    {
        let sh = rest.remove(0);
        assert(sh.deep_view() == av[k as int]);
        assert(av.take(k + 1).drop_last() =~= av.take(k as int));
        assert(av.take(k + 1).last() == av[k as int]);
        let ghost before = kept.deep_view();
        if sh.items.len() > 0 {
            kept.push(sh);
            assert(kept.deep_view() =~= before.push(av[k as int]));
        }
        k = k + 1;
    }
    assert(av.take(n as int) =~= av);
    kept
}

/// The continuation token of a shelf's last `continuationItemRenderer`.
pub open spec fn token_of(c: JsonV) -> Option<Seq<char>> {
    as_str(
        member(
            member(member(member(Some(c), "continuationItemRenderer"@), "continuationEndpoint"@), "continuationCommand"@),
            "token"@,
        ),
    )
}

/// The token of the last element that has one.
pub open spec fn last_token(cs: Seq<JsonV>) -> Option<Seq<char>>
    decreases cs.len(),
{
    if cs.len() == 0 {
        None
    } else if token_of(cs.last()) is Some {
        token_of(cs.last())
    } else {
        last_token(cs.drop_last())
    }
}

/// A continuation token: the old `continuations[0]` (`nextContinuationData`, else
/// `nextRadioContinuationData`), else the last `continuationItemRenderer` of the contents (or of
/// the node itself where it is an array).
pub open spec fn continuation_of(shelf: Option<JsonV>) -> Option<Seq<char>> {
    let first = element(member(shelf, "continuations"@), 0);
    let old = as_str(
        or_else(
            member(member(first, "nextContinuationData"@), "continuation"@),
            member(member(first, "nextRadioContinuationData"@), "continuation"@),
        ),
    );
    if old is Some {
        old
    } else {
        let own = match shelf {
            Some(JsonV::Array(_)) => shelf,
            _ => None,
        };
        last_token(items(or_else(member(shelf, "contents"@), own)))
    }
}

/// A continuation token, old style or new.
pub fn continuation(shelf: Option<&Json>) -> (r: Option<String>)
    ensures
        r.deep_view() == continuation_of(view_of(shelf)),
{
    let first = at_index(at(shelf, "continuations"), 0);
    let old = string_at(
        or_json(
            at(at(first, "nextContinuationData"), "continuation"),
            at(at(first, "nextRadioContinuationData"), "continuation"),
        ),
    );
    if old.is_some() {
        return old;
    }
    let own = match shelf {
        Some(Json::Array(_)) => shelf,
        _ => None,
    };
    let cs = items_at(or_json(at(shelf, "contents"), own));
    let ghost cv = items(or_else(member(view_of(shelf), "contents"@), view_of(own)));
    let mut i: usize = cs.len();
    assert(cv.take(cv.len() as int) =~= cv);
    assert(continuation_of(view_of(shelf)) == last_token(cv));
    while i > 0
        invariant
            i <= cs@.len(),
            continuation_of(view_of(shelf)) == last_token(cv),
            cs@.len() == cv.len(),
            forall|m: int| 0 <= m < cs@.len() ==> #[trigger] jview(cs@[m]) == cv[m],
            last_token(cv) == last_token(cv.take(i as int)),
        decreases i,
    {
        let t = string_at(
            at(at(at(at(Some(&cs[i - 1]), "continuationItemRenderer"), "continuationEndpoint"), "continuationCommand"), "token"),
        );
        assert(cv.take(i as int).last() == cv[i - 1]);
        assert(cv.take(i as int).drop_last() =~= cv.take(i - 1));
        if t.is_some() {
            return t;
        }
        i = i - 1;
    }
    None
}


// ── the best match of "All" ──

pub open spec fn or_null(o: Option<JsonV>) -> JsonV {
    match o {
        Some(v) => v,
        None => JsonV::Null,
    }
}

/// A flex column holding `text`.
pub open spec fn flex_of(text: Option<JsonV>) -> JsonV {
    JsonV::Object(
        seq![("musicResponsiveListItemFlexColumnRenderer"@, JsonV::Object(seq![("text"@, or_null(text))]))],
    )
}

/// A list row made of a card: its title and subtitle as columns, its cover image, the link of its
/// title, and the video its title plays.
pub open spec fn synthetic_of(card: JsonV, video_id: Option<Seq<char>>) -> JsonV {
    let node = Some(card);
    let base = seq![
        ("flexColumns"@, JsonV::Array(seq![flex_of(member(node, "title"@)), flex_of(member(node, "subtitle"@))])),
        (
            "navigationEndpoint"@,
            or_null(member(element(member(member(node, "title"@), "runs"@), 0), "navigationEndpoint"@)),
        ),
    ];
    let with_play = match video_id {
        Some(v) => base.push(("playlistItemData"@, JsonV::Object(seq![("videoId"@, JsonV::Str(v))]))),
        None => base,
    };
    JsonV::Object(with_play.push(("thumbnail"@, or_null(member(node, "thumbnail"@)))))
}

/// The best match of "All" (`musicCardShelfRenderer`), read as a list row.
pub open spec fn card_top_of(card: JsonV) -> Option<ItemV> {
    let runs = runs_of(member(Some(card), "title"@));
    if runs.len() == 0 { None } else { responsive_item_of(synthetic_of(card, runs[0].watch_video_id)) }
}

fn or_null_json(o: Option<&Json>) -> (r: Json)
    ensures
        jview(r) == or_null(view_of(o)),
{
    match o {
        Some(j) => clone_json(j),
        None => Json::Null,
    }
}

fn key_of(s: &str) -> (r: String)
    ensures
        r@ == s@,
{
    s.to_owned()
}

fn object_of_one(k: &str, v: Json) -> (r: Json)
    ensures
        jview(r) == JsonV::Object(seq![(k@, jview(v))]),
{
    let ghost vv = jview(v);
    let mut pairs: Vec<(String, Json)> = Vec::new();
    pairs.push((key_of(k), v));
    let r = Json::Object(pairs);
    proof {
        lemma_object(r);
        assert(jview(r)->Object_0 =~= seq![(k@, vv)]);
    }
    r
}

fn flex_json(text: Option<&Json>) -> (r: Json)
    ensures
        jview(r) == flex_of(view_of(text)),
{
    object_of_one("musicResponsiveListItemFlexColumnRenderer", object_of_one("text", or_null_json(text)))
}

/// The best match of "All" (`musicCardShelfRenderer`), read as a list row.
pub fn card_top(card: &Json) -> (item: Option<MusicItem>)
    ensures
        item.deep_view() == card_top_of(jview(*card)),
{
    let node = Some(card);
    let title = at(node, "title");
    let title_runs = runs_at(title);
    if title_runs.len() == 0 {
        return None;
    }
    let ghost rv = title_runs.deep_view();
    assert(rv[0] == title_runs@[0].deep_view());
    let mut columns: Vec<Json> = Vec::new();
    columns.push(flex_json(title));
    columns.push(flex_json(at(node, "subtitle")));
    let cols = Json::Array(columns);
    proof {
        lemma_array(cols);
        assert(jview(cols)->Array_0 =~= seq![flex_of(member(Some(jview(*card)), "title"@)), flex_of(member(Some(jview(*card)), "subtitle"@))]);
    }
    let nav = or_null_json(at(at_index(at(title, "runs"), 0), "navigationEndpoint"));
    let mut pairs: Vec<(String, Json)> = Vec::new();
    pairs.push((key_of("flexColumns"), cols));
    pairs.push((key_of("navigationEndpoint"), nav));
    let ghost base = pairs@;
    match &title_runs[0].watch_video_id {
        Some(v) => {
            pairs.push((key_of("playlistItemData"), object_of_one("videoId", Json::Str(v.clone()))));
        },
        None => {},
    }
    pairs.push((key_of("thumbnail"), or_null_json(at(node, "thumbnail"))));
    let synthetic = Json::Object(pairs);
    proof {
        lemma_object(synthetic);
        assert(jview(synthetic)->Object_0 =~= synthetic_of(jview(*card), rv[0].watch_video_id)->Object_0);
    }
    responsive_item(Some(&synthetic))
}


// ── a whole answer safe to read ──

/// Every queue row anywhere in the value has a length that reads within `i64`.
pub open spec fn tree_safe(v: JsonV) -> bool
    decreases v,
{
    match v {
        JsonV::Object(ps) => forall|i: int|
            0 <= i < ps.len() ==> {
                &&& (#[trigger] ps[i]).0 == "playlistPanelVideoRenderer"@ ==> panel_safe(ps[i].1)
                &&& tree_safe(ps[i].1)
            },
        JsonV::Array(a) => forall|i: int| 0 <= i < a.len() ==> tree_safe(#[trigger] a[i]),
        _ => true,
    }
}

pub open spec fn opt_tree_safe(o: Option<JsonV>) -> bool {
    match o {
        Some(v) => tree_safe(v),
        None => true,
    }
}

proof fn lemma_lookup_in(ps: Seq<(Seq<char>, JsonV)>, key: Seq<char>)
    ensures
        lookup(ps, key) matches Some(v) ==> exists|i: int| 0 <= i < ps.len() && #[trigger] ps[i] == (key, v),
    decreases ps.len(),
{
    if ps.len() > 0 && ps[0].0 != key {
        lemma_lookup_in(ps.drop_first(), key);
        if lookup(ps.drop_first(), key) is Some {
            let i = choose|i: int| 0 <= i < ps.drop_first().len() && #[trigger] ps.drop_first()[i] == (key, lookup(ps, key).unwrap());
            assert(ps[i + 1] == (key, lookup(ps, key).unwrap()));
        }
    } else if ps.len() > 0 {
        assert(ps[0] == (key, ps[0].1));
    }
}

/// A member of a safe value is safe.
pub proof fn lemma_member_safe(o: Option<JsonV>, key: Seq<char>)
    requires
        opt_tree_safe(o),
    ensures
        opt_tree_safe(member(o, key)),
        key == "playlistPanelVideoRenderer"@ ==> (member(o, key) matches Some(p) ==> panel_safe(p)),
{
    if let Some(JsonV::Object(ps)) = o {
        lemma_lookup_in(ps, key);
        if lookup(ps, key) is Some {
            let i = choose|i: int| 0 <= i < ps.len() && #[trigger] ps[i] == (key, lookup(ps, key).unwrap());
            assert(tree_safe(ps[i].1));
        }
    }
}

/// The elements of a safe array are safe.
pub proof fn lemma_items_safe(o: Option<JsonV>)
    requires
        opt_tree_safe(o),
    ensures
        forall|i: int| 0 <= i < items(o).len() ==> tree_safe(#[trigger] items(o)[i]),
{
}

/// An element of a safe array is safe.
pub proof fn lemma_element_safe(o: Option<JsonV>, i: int)
    requires
        opt_tree_safe(o),
    ensures
        opt_tree_safe(element(o, i)),
{
}

/// The contents of a safe value are safe to read as items.
pub proof fn lemma_contents_safe(o: Option<JsonV>)
    requires
        opt_tree_safe(o),
    ensures
        contents_safe(o),
{
    assert forall|i: int| 0 <= i < items(o).len() implies #[trigger] item_safe(items(o)[i]) by {
        lemma_items_safe(o);
        lemma_member_safe(Some(items(o)[i]), "playlistPanelVideoRenderer"@);
    }
}

/// The sections of a safe value are safe to read as shelves.
pub proof fn lemma_sections_safe(o: Option<JsonV>)
    requires
        opt_tree_safe(o),
    ensures
        sections_safe(o),
{
    assert forall|i: int| 0 <= i < items(o).len() implies #[trigger] section_safe(items(o)[i]) by {
        lemma_items_safe(o);
        let node = Some(items(o)[i]);
        lemma_member_safe(node, "musicShelfRenderer"@);
        lemma_member_safe(node, "musicCarouselShelfRenderer"@);
        lemma_member_safe(node, "gridRenderer"@);
        lemma_member_safe(node, "musicPlaylistShelfRenderer"@);
        lemma_member_safe(node, "itemSectionRenderer"@);
        lemma_member_safe(member(node, "musicShelfRenderer"@), "contents"@);
        lemma_contents_safe(member(member(node, "musicShelfRenderer"@), "contents"@));
        lemma_member_safe(member(node, "musicCarouselShelfRenderer"@), "contents"@);
        lemma_contents_safe(member(member(node, "musicCarouselShelfRenderer"@), "contents"@));
        lemma_member_safe(member(node, "gridRenderer"@), "items"@);
        lemma_contents_safe(member(member(node, "gridRenderer"@), "items"@));
        lemma_member_safe(member(node, "musicPlaylistShelfRenderer"@), "contents"@);
        lemma_contents_safe(member(member(node, "musicPlaylistShelfRenderer"@), "contents"@));
        let inner = member(member(node, "itemSectionRenderer"@), "contents"@);
        lemma_member_safe(member(node, "itemSectionRenderer"@), "contents"@);
        lemma_items_safe(inner);
        assert forall|k: int| 0 <= k < items(inner).len() implies #[trigger] contents_safe(
            member(member(Some(items(inner)[k]), "gridRenderer"@), "items"@),
        ) by {
            lemma_member_safe(Some(items(inner)[k]), "gridRenderer"@);
            lemma_member_safe(member(Some(items(inner)[k]), "gridRenderer"@), "items"@);
            lemma_contents_safe(member(member(Some(items(inner)[k]), "gridRenderer"@), "items"@));
        }
    }
}

/// Whether a panel row's length reads within `i64`: what `panel_video` asks first.
pub fn panel_is_safe(r: &Json) -> (b: bool)
    ensures
        b == panel_safe(jview(*r)),
{
    match text_at(at(Some(r), "lengthText")) {
        Some(t) => {
            let trimmed = trimmed_string(t.as_str());
            !duration_overflows_text(trimmed.as_str())
        },
        None => true,
    }
}

/// Whether a shelf element reads without overflow.
pub fn item_is_safe(v: &Json) -> (b: bool)
    ensures
        b == item_safe(jview(*v)),
{
    let n = Some(v);
    if at(n, "musicResponsiveListItemRenderer").is_none() && at(n, "musicTwoRowItemRenderer").is_none() && at(
        n,
        "musicNavigationButtonRenderer",
    ).is_none() {
        match at(n, "playlistPanelVideoRenderer") {
            Some(p) => panel_is_safe(p),
            None => true,
        }
    } else {
        true
    }
}

/// Whether a shelf's contents read without overflow: what `items_of` asks first.
pub fn contents_are_safe(contents: Option<&Json>) -> (b: bool)
    ensures
        b == contents_safe(view_of(contents)),
{
    let cs = items_at(contents);
    let mut i: usize = 0;
    while i < cs.len()
        invariant
            i <= cs@.len(),
            cs@.len() == items(view_of(contents)).len(),
            forall|k: int| 0 <= k < cs@.len() ==> #[trigger] jview(cs@[k]) == items(view_of(contents))[k],
            forall|k: int| 0 <= k < i ==> #[trigger] item_safe(items(view_of(contents))[k]),
        decreases cs@.len() - i,
    {
        assert(jview(cs@[i as int]) == items(view_of(contents))[i as int]);
        if !item_is_safe(&cs[i]) {
            return false;
        }
        i = i + 1;
    }
    true
}

/// Whether the grids of an item section read without overflow.
fn inner_grids_are_safe(o: Option<&Json>) -> (b: bool)
    ensures
        b == inner_grids_safe(items(view_of(o))),
{
    let vs = items_at(o);
    let mut i: usize = 0;
    while i < vs.len()
        invariant
            i <= vs@.len(),
            vs@.len() == items(view_of(o)).len(),
            forall|k: int| 0 <= k < vs@.len() ==> #[trigger] jview(vs@[k]) == items(view_of(o))[k],
            forall|k: int|
                0 <= k < i ==> #[trigger] contents_safe(member(member(Some(items(view_of(o))[k]), "gridRenderer"@), "items"@)),
        decreases vs@.len() - i,
    {
        assert(jview(vs@[i as int]) == items(view_of(o))[i as int]);
        if !contents_are_safe(at(at(Some(&vs[i]), "gridRenderer"), "items")) {
            return false;
        }
        i = i + 1;
    }
    true
}

/// Whether a section reads without overflow.
pub fn section_is_safe(sec: &Json) -> (b: bool)
    ensures
        b == section_safe(jview(*sec)),
{
    let n = Some(sec);
    let list = at(n, "musicShelfRenderer");
    let carousel = at(n, "musicCarouselShelfRenderer");
    let grid = at(n, "gridRenderer");
    let playlist = at(n, "musicPlaylistShelfRenderer");
    let item_section = at(n, "itemSectionRenderer");
    if list.is_some() {
        contents_are_safe(at(list, "contents"))
    } else if carousel.is_some() {
        contents_are_safe(at(carousel, "contents"))
    } else if grid.is_some() {
        contents_are_safe(at(grid, "items"))
    } else if playlist.is_some() {
        contents_are_safe(at(playlist, "contents"))
    } else if item_section.is_some() {
        inner_grids_are_safe(at(item_section, "contents"))
    } else {
        true
    }
}

/// Whether sections read without overflow: what `shelves` asks first.
pub fn sections_are_safe(section_contents: Option<&Json>) -> (b: bool)
    ensures
        b == sections_safe(view_of(section_contents)),
{
    let vs = items_at(section_contents);
    let mut i: usize = 0;
    while i < vs.len()
        invariant
            i <= vs@.len(),
            vs@.len() == items(view_of(section_contents)).len(),
            forall|k: int| 0 <= k < vs@.len() ==> #[trigger] jview(vs@[k]) == items(view_of(section_contents))[k],
            forall|k: int| 0 <= k < i ==> #[trigger] section_safe(items(view_of(section_contents))[k]),
        decreases vs@.len() - i,
    {
        assert(jview(vs@[i as int]) == items(view_of(section_contents))[i as int]);
        if !section_is_safe(&vs[i]) {
            return false;
        }
        i = i + 1;
    }
    true
}

/// Whether every panel row anywhere in a response reads within `i64`: what the parsers of whole
/// responses ask first.
pub fn tree_is_safe(j: &Json) -> (b: bool)
    ensures
        b == tree_safe(jview(*j)),
    decreases j,
{
    match j {
        Json::Object(m) => {
            proof {
                lemma_object(*j);
            }
            let ghost v = jview(*j);
            let mut i: usize = 0;
            while i < m.len()
                invariant
                    i <= m@.len(),
                    *j == Json::Object(*m),
                    v == jview(*j),
                    v is Object,
                    v->Object_0.len() == m@.len(),
                    forall|k: int| 0 <= k < m@.len() ==> #[trigger] v->Object_0[k] == (m@[k].0@, jview(m@[k].1)),
                    forall|k: int|
                        0 <= k < i ==> {
                            &&& (#[trigger] v->Object_0[k]).0 == "playlistPanelVideoRenderer"@ ==> panel_safe(v->Object_0[k].1)
                            &&& tree_safe(v->Object_0[k].1)
                        },
                decreases m.len() - i,
            {
                assert(v->Object_0[i as int] == (m@[i as int].0@, jview(m@[i as int].1)));
                let value = &m[i].1;
                if is_text(m[i].0.as_str(), "playlistPanelVideoRenderer") && !panel_is_safe(value) {
                    return false;
                }
                proof {
                    assert(decreases_to!(*j => (*j)->Object_0));
                    assert(decreases_to!((*j)->Object_0 => (*j)->Object_0@));
                    assert(decreases_to!((*j)->Object_0@ => (*j)->Object_0@[i as int]));
                    assert(decreases_to!((*j)->Object_0@[i as int] => (*j)->Object_0@[i as int].1));
                }
                if !tree_is_safe(value) {
                    return false;
                }
                i = i + 1;
            }
            true
        },
        Json::Array(a) => {
            proof {
                lemma_array(*j);
            }
            let ghost v = jview(*j);
            let mut i: usize = 0;
            while i < a.len()
                invariant
                    i <= a@.len(),
                    *j == Json::Array(*a),
                    v == jview(*j),
                    v is Array,
                    v->Array_0.len() == a@.len(),
                    forall|k: int| 0 <= k < a@.len() ==> #[trigger] v->Array_0[k] == jview(a@[k]),
                    forall|k: int| 0 <= k < i ==> tree_safe(#[trigger] v->Array_0[k]),
                decreases a.len() - i,
            {
                proof {
                    assert(decreases_to!(*j => (*j)->Array_0));
                    assert(decreases_to!((*j)->Array_0 => (*j)->Array_0@));
                    assert(decreases_to!((*j)->Array_0@ => (*j)->Array_0@[i as int]));
                }
                assert(v->Array_0[i as int] == jview(a@[i as int]));
                if !tree_is_safe(&a[i]) {
                    return false;
                }
                i = i + 1;
            }
            true
        },
        _ => true,
    }
}


/// A group of a caption that nothing else claims: it has text, no album link, is neither a
/// duration nor a year, and is not a leading type label ("Song", "Album"…).
pub open spec fn unclaimed_group(gs: Seq<Seq<RunV>>, k: int) -> bool {
    let g = gs[k];
    let text = group_text(g);
    &&& text.len() > 0
    &&& album_index(g) >= g.len()
    &&& !duration_shape(text)
    &&& !year_shape(text)
    &&& !(k == 0 && unlinked(g) && (type_labels().contains(lowercase(text)) || (any_links(gs) && gs.len() > 2)))
}

proof fn lemma_fold_without_artist_links(gs: Seq<Seq<RunV>>, n: int, k: int)
    requires
        0 <= n <= gs.len(),
        gs.len() <= usize::MAX,
        forall|i: int| 0 <= i < gs.len() ==> !has_artist_run(#[trigger] gs[i]),
    ensures
        meta_fold(gs, n).artists is None,
        (forall|i: int| 0 <= i < n ==> !unclaimed_group(gs, i)) ==> meta_fold(gs, n).rest.len() == 0,
        (0 <= k < n && unclaimed_group(gs, k) && forall|i: int| 0 <= i < k ==> !unclaimed_group(gs, i)) ==> {
            &&& meta_fold(gs, n).rest.len() > 0
            &&& meta_fold(gs, n).rest[0] == k
        },
    decreases n,
{
    if n > 0 {
        lemma_fold_without_artist_links(gs, n - 1, k);
        assert(!has_artist_run(gs[n - 1]));
        let acc = meta_fold(gs, n - 1);
        assert(meta_fold(gs, n) == meta_step(gs, acc, n - 1));
        let nr = meta_fold(gs, n).rest;
        assert(nr == acc.rest || nr == acc.rest.push((n - 1) as usize));
        assert(unclaimed_group(gs, n - 1) ==> nr == acc.rest.push((n - 1) as usize));
        assert(!unclaimed_group(gs, n - 1) ==> nr == acc.rest);
        if (0 <= k < n && unclaimed_group(gs, k) && forall|i: int| 0 <= i < k ==> !unclaimed_group(gs, i)) {
            if k == n - 1 {
                assert(forall|i: int| 0 <= i < n - 1 ==> !unclaimed_group(gs, i));
                assert(acc.rest.len() == 0);
                assert(nr[0] == (n - 1) as usize);
            } else {
                assert(acc.rest[0] == k);
                assert(nr[0] == acc.rest[0]);
            }
        }
    }
}

/// Where no group of a caption links to an artist, the first group that nothing else claims names
/// the artists: its text is the track's artists text and its runs are its artists; where there is
/// no such group, no artist is named.
pub proof fn law_unlinked_group_names_the_artists(gs: Seq<Seq<RunV>>)
    requires
        gs.len() <= usize::MAX,
        forall|i: int| 0 <= i < gs.len() ==> !has_artist_run(#[trigger] gs[i]),
    ensures
        forall|k: int|
            0 <= k < gs.len() && #[trigger] unclaimed_group(gs, k) && (forall|i: int| 0 <= i < k ==> !unclaimed_group(gs, i))
                ==> meta_of(gs).artists_text == Some(group_text(gs[k])) && meta_of(gs).artists == artists_of(gs[k]),
        (forall|i: int| 0 <= i < gs.len() ==> !unclaimed_group(gs, i)) ==> meta_of(gs).artists_text is None
            && meta_of(gs).artists.len() == 0,
{
    assert forall|k: int|
        0 <= k < gs.len() && #[trigger] unclaimed_group(gs, k) && (forall|i: int| 0 <= i < k ==> !unclaimed_group(gs, i))
        implies meta_of(gs).artists_text == Some(group_text(gs[k])) && meta_of(gs).artists == artists_of(gs[k]) by {
        lemma_fold_without_artist_links(gs, gs.len() as int, k);
    }
    lemma_fold_without_artist_links(gs, gs.len() as int, 0);
}

} // verus!
