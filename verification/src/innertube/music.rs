//! The catalogue of YouTube Music and plain YouTube: the search filters and the tracks of a list.
use vstd::prelude::*;
use crate::chars::chars_of;
use crate::innertube::music_parsers::{
    card_top, card_top_of, continuation, continuation_of, has_digit, has_digit_of, items_in, items_of,
    lemma_contents_safe, lemma_element_safe, lemma_items_safe, lemma_member_safe, opt_str_is, opt_tree_safe, or_else,
    or_json, panel_video, panel_video_of, tree_safe,
};
use crate::chars::{trim, trimmed};
use crate::innertube::nav::{
    as_str, at, at_index, element, find_all, flag_at, flag_of, found_all, items, items_at, member, page_type_at,
    page_type_of, refs_view, str_view, string_at, text_at, text_of, view_of,
};
use crate::json::{jview, Json, JsonV};
use crate::music::{
    distinct, distinct_v, lemma_distinct_view, lemma_items_deep_view, tracks_in, ArtistItemV, ArtistRef, ArtistRefV,
    ItemV, ItemsPage, MusicItem, NextPage, SearchSummary, Track, TrackV,
};

verus! {

/// A YouTube Music result filter (the search chips' parameters).
#[derive(Clone, Copy, Debug, PartialEq, Eq, Structural)]
pub enum MusicFilter {
    Songs,
    Videos,
    Albums,
    Artists,
    CommunityPlaylists,
    FeaturedPlaylists,
}

impl MusicFilter {
    pub open spec fn params_spec(self) -> &'static str {
        match self {
            MusicFilter::Songs => "EgWKAQIIAWoSEAMQCRAEEAUQChAQEBUQDhAR",
            MusicFilter::Videos => "EgWKAQIQAWoSEAMQCRAEEAUQChAQEBUQDhAR",
            MusicFilter::Albums => "EgWKAQIYAWoSEAMQCRAEEAUQChAQEBUQDhAR",
            MusicFilter::Artists => "EgWKAQIgAWoSEAMQCRAEEAUQChAQEBUQDhAR",
            MusicFilter::CommunityPlaylists => "EgeKAQQoAEABahIQAxAJEAQQBRAKEBAQFRAOEBE=",
            MusicFilter::FeaturedPlaylists => "EgeKAQQoADgBahIQAxAJEAQQBRAKEBAQFRAOEBE=",
        }
    }

    /// The `params` of a filtered search.
    pub fn params(self) -> (r: &'static str)
        ensures
            r == self.params_spec(),
    {
        match self {
            MusicFilter::Songs => "EgWKAQIIAWoSEAMQCRAEEAUQChAQEBUQDhAR",
            MusicFilter::Videos => "EgWKAQIQAWoSEAMQCRAEEAUQChAQEBUQDhAR",
            MusicFilter::Albums => "EgWKAQIYAWoSEAMQCRAEEAUQChAQEBUQDhAR",
            MusicFilter::Artists => "EgWKAQIgAWoSEAMQCRAEEAUQChAQEBUQDhAR",
            MusicFilter::CommunityPlaylists => "EgeKAQQoAEABahIQAxAJEAQQBRAKEBAQFRAOEBE=",
            MusicFilter::FeaturedPlaylists => "EgeKAQQoADgBahIQAxAJEAQQBRAKEBAQFRAOEBE=",
        }
    }
}

/// A plain YouTube result filter.
#[derive(Clone, Copy, Debug, PartialEq, Eq, Structural)]
pub enum WebFilter {
    Videos,
    Channels,
    Playlists,
    Live,
}

impl WebFilter {
    pub open spec fn params_spec(self) -> &'static str {
        match self {
            WebFilter::Videos => "EgIQAQ==",
            WebFilter::Channels => "EgIQAg==",
            WebFilter::Playlists => "EgIQAw==",
            WebFilter::Live => "EgJAAQ==",
        }
    }

    /// The `params` of a filtered search.
    pub fn params(self) -> (r: &'static str)
        ensures
            r == self.params_spec(),
    {
        match self {
            WebFilter::Videos => "EgIQAQ==",
            WebFilter::Channels => "EgIQAg==",
            WebFilter::Playlists => "EgIQAw==",
            WebFilter::Live => "EgJAAQ==",
        }
    }
}

/// The tracks among the items (to play a shelf).
pub fn tracks_of(items: &Vec<MusicItem>) -> (r: Vec<Track>)
    ensures
        r@.len() == tracks_in(items@).len(),
        forall|k: int| 0 <= k < r@.len() ==> (#[trigger] r@[k]).same_as(&tracks_in(items@)[k]),
{
    let mut r: Vec<Track> = Vec::new();
    let mut i: usize = 0;
    while i < items.len()
        invariant
            i <= items@.len(),
            r@.len() == tracks_in(items@.take(i as int)).len(),
            forall|k: int| 0 <= k < r@.len() ==> (#[trigger] r@[k]).same_as(&tracks_in(items@.take(i as int))[k]),
        decreases items.len() - i,
    {
        assert(items@.take(i + 1).drop_last() =~= items@.take(i as int));
        match items[i].as_track() {
            Some(t) => r.push(t.clone()),
            None => {},
        }
        i = i + 1;
    }
    assert(items@.take(items.len() as int) =~= items@);
    r
}


// ── reading the answers ──

/// The sections of a YouTube Music search answer.
pub open spec fn search_sections(response: JsonV) -> Seq<JsonV> {
    let tab = element(member(member(member(Some(response), "contents"@), "tabbedSearchResultsRenderer"@), "tabs"@), 0);
    items(member(member(member(member(tab, "tabRenderer"@), "content"@), "sectionListRenderer"@), "contents"@))
}

fn search_sections_at<'a>(response: &'a Json) -> (r: &'a [Json])
    ensures
        r@.map_values(|j: Json| jview(j)) == search_sections(jview(*response)),
{
    let tab = at_index(at(at(at(Some(response), "contents"), "tabbedSearchResultsRenderer"), "tabs"), 0);
    let r = items_at(at(at(at(at(tab, "tabRenderer"), "content"), "sectionListRenderer"), "contents"));
    assert(r@.map_values(|j: Json| jview(j)) =~= search_sections(jview(*response)));
    r
}

/// In an artist's card its songs come without the artist in their caption ("Song • 94M plays"):
/// a track that links to no artist gets the card's artist, and a caption with a digit becomes
/// the plays.
pub open spec fn credit_artist(item: ItemV, artist: ArtistItemV) -> ItemV {
    match item {
        ItemV::Track(t) => if forall|k: int| 0 <= k < t.artists.len() ==> (#[trigger] t.artists[k]).id is None {
            ItemV::Track(
                TrackV {
                    views_text: if (t.artists_text matches Some(x) && has_digit(x)) {
                        t.artists_text
                    } else {
                        t.views_text
                    },
                    artists: seq![ArtistRefV { id: Some(artist.browse_id), name: artist.name }],
                    artists_text: Some(artist.name),
                    ..t
                },
            )
        } else {
            item
        },
        _ => item,
    }
}

/// The best match and the items of "All", as read so far.
pub struct SummaryAcc {
    pub top: Option<ItemV>,
    pub items: Seq<ItemV>,
}

/// One section of "All" read: a card gives the best match (the first card's) and its items;
/// an item section or a list gives its items.
pub open spec fn summary_step(acc: SummaryAcc, sec: JsonV) -> SummaryAcc {
    let node = Some(sec);
    let card = member(node, "musicCardShelfRenderer"@);
    match card {
        Some(c) => {
            let top = card_top_of(c);
            let found = items_in(member(card, "contents"@));
            let found = match top {
                Some(ItemV::Artist(a)) => found.map_values(|x: ItemV| credit_artist(x, a)),
                _ => found,
            };
            SummaryAcc { top: if acc.top is None { top } else { acc.top }, items: acc.items + found }
        },
        None => match or_else(member(node, "itemSectionRenderer"@), member(node, "musicShelfRenderer"@)) {
            Some(shelf) => SummaryAcc { top: acc.top, items: acc.items + items_in(member(Some(shelf), "contents"@)) },
            None => acc,
        },
    }
}

pub open spec fn summary_fold(secs: Seq<JsonV>) -> SummaryAcc
    decreases secs.len(),
{
    if secs.len() == 0 {
        SummaryAcc { top: None, items: Seq::empty() }
    } else {
        summary_step(summary_fold(secs.drop_last()), secs.last())
    }
}

fn credit(item: MusicItem, browse_id: &String, name: &String) -> (r: MusicItem)
    ensures
        r.deep_view() == credit_artist(
            item.deep_view(),
            ArtistItemV { browse_id: browse_id@, name: name@, subtitle: None, thumbnail_url: None, is_channel: false },
        ),
{
    match item {
        MusicItem::Track(t) => {
            let ghost tv = t.deep_view();
            let mut k: usize = 0;
            while k < t.artists.len()
                invariant
                    k <= t.artists@.len(),
                    tv == t.deep_view(),
                    item.deep_view() == ItemV::Track(tv),
                    forall|m: int| 0 <= m < k ==> (#[trigger] tv.artists[m]).id is None,
                decreases t.artists.len() - k,
            {
                assert(tv.artists[k as int] == t.artists@[k as int].deep_view());
                if t.artists[k].id.is_some() {
                    assert(tv.artists[k as int].id is Some);
                    return MusicItem::Track(t);
                }
                k = k + 1;
            }
            let mut t = t;
            let digits = match &t.artists_text {
                Some(x) => has_digit_of(&chars_of(x.as_str())),
                None => false,
            };
            if digits {
                t.views_text = t.artists_text;
            }
            let mut artists: Vec<ArtistRef> = Vec::new();
            artists.push(ArtistRef { id: Some(browse_id.clone()), name: name.clone() });
            t.artists = artists;
            t.artists_text = Some(name.clone());
            let r = MusicItem::Track(t);
            assert(r.deep_view()->Track_0.artists =~= seq![ArtistRefV { id: Some(browse_id@), name: name@ }]);
            r
        },
        other => other,
    }
}

/// The search "All": the best match (the first card's) and the mixed results without repeats.
pub fn parse_search_summary(response: &Json) -> (r: SearchSummary)
    requires
        tree_safe(jview(*response)),
    ensures
        r.top.deep_view() == summary_fold(search_sections(jview(*response))).top,
        r.items.deep_view() == distinct_v(summary_fold(search_sections(jview(*response))).items),
{
    let secs = search_sections_at(response);
    let ghost sv = search_sections(jview(*response));
    proof {
        lemma_sections_items_safe(jview(*response));
    }
    let mut top: Option<MusicItem> = None;
    let mut items: Vec<MusicItem> = Vec::new();
    let mut i: usize = 0;
    while i < secs.len()
        invariant
            i <= secs@.len(),
            secs@.map_values(|j: Json| jview(j)) == sv,
            forall|m: int| 0 <= m < sv.len() ==> tree_safe(#[trigger] sv[m]),
            top.deep_view() == summary_fold(sv.take(i as int)).top,
            items.deep_view() == summary_fold(sv.take(i as int)).items,
        decreases secs.len() - i,
    {
        assert(sv.take(i + 1).drop_last() =~= sv.take(i as int));
        assert(sv.take(i + 1).last() == sv[i as int]);
        assert(sv[i as int] == jview(secs@[i as int]));
        let node = Some(&secs[i]);
        let card = at(node, "musicCardShelfRenderer");
        let ghost before = items.deep_view();
        proof {
            lemma_member_safe(Some(sv[i as int]), "musicCardShelfRenderer"@);
            lemma_member_safe(Some(sv[i as int]), "itemSectionRenderer"@);
            lemma_member_safe(Some(sv[i as int]), "musicShelfRenderer"@);
        }
        match card {
            Some(c) => {
                let card_top = card_top(c);
                proof {
                    lemma_member_safe(view_of(card), "contents"@);
                    lemma_contents_safe(member(view_of(card), "contents"@));
                }
                let found = items_of(at(card, "contents"));
                let ghost fv = found.deep_view();
                let mut found = found;
                match &card_top {
                    Some(MusicItem::Artist(a)) => {
                        let ghost av = a.deep_view();
                        let mut fixed: Vec<MusicItem> = Vec::new();
                        let mut k: usize = 0;
                        let n = found.len();
                        while found.len() > 0
                            invariant
                                k + found@.len() == n,
                                n == fv.len(),
                                av == a.deep_view(),
                                forall|m: int| 0 <= m < found@.len() ==> #[trigger] found@[m].deep_view() == fv[k + m],
                                fixed@.len() == k,
                                forall|m: int|
                                    0 <= m < k ==> #[trigger] fixed@[m].deep_view() == credit_artist(
                                        fv[m],
                                        ArtistItemV {
                                            browse_id: av.browse_id,
                                            name: av.name,
                                            subtitle: None,
                                            thumbnail_url: None,
                                            is_channel: false,
                                        },
                                    ),
                            decreases found.len(),
                        {
                            let x = found.remove(0);
                            assert(x.deep_view() == fv[k as int]);
                            let ghost old_fixed = fixed@;
                            let y = credit(x, &a.browse_id, &a.name);
                            fixed.push(y);
                            assert(forall|m: int| 0 <= m < k ==> fixed@[m] == old_fixed[m]);
                            assert(fixed@[k as int] == y);
                            k = k + 1;
                        }
                        proof {
                            assert forall|m: int| 0 <= m < n implies #[trigger] fixed@[m].deep_view() == credit_artist(
                                fv[m],
                                av,
                            ) by {
                                let x = fv[m];
                                assert(credit_artist(
                                    x,
                                    ArtistItemV {
                                        browse_id: av.browse_id,
                                        name: av.name,
                                        subtitle: None,
                                        thumbnail_url: None,
                                        is_channel: false,
                                    },
                                ) == credit_artist(x, av));
                            }
                            assert(fixed.deep_view() =~= fv.map_values(|x: ItemV| credit_artist(x, av)));
                        }
                        found = fixed;
                    },
                    _ => {},
                }
                let ghost fixed_view = found.deep_view();
                if top.is_none() {
                    top = card_top;
                }
                items.append(&mut found);
                assert(items.deep_view() =~= before + fixed_view);
            },
            None => {
                let shelf = or_json(at(node, "itemSectionRenderer"), at(node, "musicShelfRenderer"));
                if shelf.is_some() {
                    proof {
                        lemma_member_safe(view_of(shelf), "contents"@);
                        lemma_contents_safe(member(view_of(shelf), "contents"@));
                    }
                    let mut found = items_of(at(shelf, "contents"));
                    let ghost fixed_view = found.deep_view();
                    items.append(&mut found);
                    assert(items.deep_view() =~= before + fixed_view);
                }
            },
        }
        i = i + 1;
    }
    assert(sv.take(secs@.len() as int) =~= sv);
    let ghost all = items@;
    let r = distinct(items);
    proof {
        lemma_items_deep_view(items);
        lemma_items_deep_view(r);
        lemma_distinct_view(all);
    }
    SearchSummary { top, items: r }
}

proof fn lemma_sections_items_safe(response: JsonV)
    requires
        tree_safe(response),
    ensures
        forall|m: int| 0 <= m < search_sections(response).len() ==> tree_safe(#[trigger] search_sections(response)[m]),
{
    let o = Some(response);
    lemma_member_safe(o, "contents"@);
    lemma_member_safe(member(o, "contents"@), "tabbedSearchResultsRenderer"@);
    let tabs = member(member(member(o, "contents"@), "tabbedSearchResultsRenderer"@), "tabs"@);
    lemma_member_safe(member(member(o, "contents"@), "tabbedSearchResultsRenderer"@), "tabs"@);
    lemma_element_safe(tabs, 0);
    let tab = element(tabs, 0);
    lemma_member_safe(tab, "tabRenderer"@);
    lemma_member_safe(member(tab, "tabRenderer"@), "content"@);
    lemma_member_safe(member(member(tab, "tabRenderer"@), "content"@), "sectionListRenderer"@);
    lemma_member_safe(member(member(member(tab, "tabRenderer"@), "content"@), "sectionListRenderer"@), "contents"@);
    lemma_items_safe(member(member(member(member(tab, "tabRenderer"@), "content"@), "sectionListRenderer"@), "contents"@));
}


/// The items and continuation of a filtered search, as read so far.
pub struct SearchAcc {
    pub items: Seq<ItemV>,
    pub continuation: Option<Seq<char>>,
}

/// One section of a filtered search: a list (or an item section) gives its items, and the
/// first that has one its continuation.
pub open spec fn search_step(acc: SearchAcc, sec: JsonV) -> SearchAcc {
    let node = Some(sec);
    match or_else(member(node, "musicShelfRenderer"@), member(node, "itemSectionRenderer"@)) {
        Some(shelf) => SearchAcc {
            items: acc.items + items_in(member(Some(shelf), "contents"@)),
            continuation: if acc.continuation is None { continuation_of(Some(shelf)) } else { acc.continuation },
        },
        None => acc,
    }
}

pub open spec fn search_fold(secs: Seq<JsonV>) -> SearchAcc
    decreases secs.len(),
{
    if secs.len() == 0 {
        SearchAcc { items: Seq::empty(), continuation: None }
    } else {
        search_step(search_fold(secs.drop_last()), secs.last())
    }
}

/// A filtered YouTube Music search: its items without repeats, and the continuation.
pub fn parse_search(response: &Json) -> (r: ItemsPage)
    requires
        tree_safe(jview(*response)),
    ensures
        r.items.deep_view() == distinct_v(search_fold(search_sections(jview(*response))).items),
        r.continuation.deep_view() == search_fold(search_sections(jview(*response))).continuation,
{
    let secs = search_sections_at(response);
    let ghost sv = search_sections(jview(*response));
    proof {
        lemma_sections_items_safe(jview(*response));
    }
    let mut items: Vec<MusicItem> = Vec::new();
    let mut cont: Option<String> = None;
    let mut i: usize = 0;
    while i < secs.len()
        invariant
            i <= secs@.len(),
            secs@.map_values(|j: Json| jview(j)) == sv,
            forall|m: int| 0 <= m < sv.len() ==> tree_safe(#[trigger] sv[m]),
            items.deep_view() == search_fold(sv.take(i as int)).items,
            cont.deep_view() == search_fold(sv.take(i as int)).continuation,
        decreases secs.len() - i,
    {
        assert(sv.take(i + 1).drop_last() =~= sv.take(i as int));
        assert(sv.take(i + 1).last() == sv[i as int]);
        assert(sv[i as int] == jview(secs@[i as int]));
        let node = Some(&secs[i]);
        let shelf = or_json(at(node, "musicShelfRenderer"), at(node, "itemSectionRenderer"));
        if shelf.is_some() {
            proof {
                lemma_member_safe(Some(sv[i as int]), "itemSectionRenderer"@);
                lemma_member_safe(Some(sv[i as int]), "musicShelfRenderer"@);
                lemma_member_safe(view_of(shelf), "contents"@);
                lemma_contents_safe(member(view_of(shelf), "contents"@));
            }
            let ghost before = items.deep_view();
            let mut found = items_of(at(shelf, "contents"));
            let ghost fv = found.deep_view();
            items.append(&mut found);
            assert(items.deep_view() =~= before + fv);
            if cont.is_none() {
                cont = continuation(shelf);
            }
        }
        i = i + 1;
    }
    assert(sv.take(secs@.len() as int) =~= sv);
    let ghost all = items@;
    let r = distinct(items);
    proof {
        lemma_items_deep_view(items);
        lemma_items_deep_view(r);
        lemma_distinct_view(all);
    }
    ItemsPage { items: r, continuation: cont }
}

/// The list a search continuation answers with: the old `musicShelfContinuation`, else the
/// appended items of a command (or an action).
pub open spec fn continued_shelf(response: JsonV) -> Option<JsonV> {
    member(member(Some(response), "continuationContents"@), "musicShelfContinuation"@)
}

pub open spec fn appended_items(response: JsonV) -> Option<JsonV> {
    let o = Some(response);
    or_else(
        member(member(element(member(o, "onResponseReceivedCommands"@), 0), "appendContinuationItemsAction"@), "continuationItems"@),
        member(member(element(member(o, "onResponseReceivedActions"@), 0), "appendContinuationItemsAction"@), "continuationItems"@),
    )
}

/// A search continuation: more items and the next continuation.
pub fn parse_search_continuation(response: &Json) -> (r: ItemsPage)
    requires
        tree_safe(jview(*response)),
    ensures
        r.items.deep_view() == match continued_shelf(jview(*response)) {
            Some(shelf) => items_in(member(Some(shelf), "contents"@)),
            None => items_in(appended_items(jview(*response))),
        },
        r.continuation.deep_view() == match continued_shelf(jview(*response)) {
            Some(shelf) => continuation_of(Some(shelf)),
            None => continuation_of(appended_items(jview(*response))),
        },
{
    let o = Some(response);
    let rv = Ghost(jview(*response));
    proof {
        lemma_member_safe(Some(rv@), "continuationContents"@);
        lemma_member_safe(member(Some(rv@), "continuationContents"@), "musicShelfContinuation"@);
    }
    let shelf = at(at(o, "continuationContents"), "musicShelfContinuation");
    if shelf.is_some() {
        proof {
            lemma_member_safe(view_of(shelf), "contents"@);
            lemma_contents_safe(member(view_of(shelf), "contents"@));
        }
        return ItemsPage { items: items_of(at(shelf, "contents")), continuation: continuation(shelf) };
    }
    let appended = or_json(
        at(at(at_index(at(o, "onResponseReceivedCommands"), 0), "appendContinuationItemsAction"), "continuationItems"),
        at(at(at_index(at(o, "onResponseReceivedActions"), 0), "appendContinuationItemsAction"), "continuationItems"),
    );
    proof {
        lemma_path_safe(Some(rv@), "onResponseReceivedCommands"@);
        lemma_path_safe(Some(rv@), "onResponseReceivedActions"@);
        lemma_contents_safe(appended_items(rv@));
    }
    ItemsPage { items: items_of(appended), continuation: continuation(appended) }
}

proof fn lemma_path_safe(o: Option<JsonV>, first: Seq<char>)
    requires
        opt_tree_safe(o),
    ensures
        opt_tree_safe(member(member(element(member(o, first), 0), "appendContinuationItemsAction"@), "continuationItems"@)),
{
    lemma_member_safe(o, first);
    lemma_element_safe(member(o, first), 0);
    lemma_member_safe(element(member(o, first), 0), "appendContinuationItemsAction"@);
    lemma_member_safe(member(element(member(o, first), 0), "appendContinuationItemsAction"@), "continuationItems"@);
}

/// The queue row of an element of a queue: plain, or inside a wrapper.
pub open spec fn panel_row(item: JsonV) -> Option<JsonV> {
    let node = Some(item);
    or_else(
        member(node, "playlistPanelVideoRenderer"@),
        member(
            member(member(node, "playlistPanelVideoWrapperRenderer"@), "primaryRenderer"@),
            "playlistPanelVideoRenderer"@,
        ),
    )
}

/// The tracks of queue rows, in order; rows that are no track are left out.
pub open spec fn collect_panel(vs: Seq<JsonV>) -> Seq<TrackV>
    decreases vs.len(),
{
    if vs.len() == 0 {
        Seq::empty()
    } else {
        let c = collect_panel(vs.drop_last());
        match panel_row(vs.last()) {
            Some(p) => match panel_video_of(p) {
                Some(t) => c.push(t),
                None => c,
            },
            None => c,
        }
    }
}

/// The tracks of a queue panel.
pub open spec fn panel_tracks_of(panel: Option<JsonV>) -> Seq<TrackV> {
    collect_panel(items(member(panel, "contents"@)))
}

/// The tracks of a queue panel.
pub fn panel_tracks(panel: Option<&Json>) -> (r: Vec<Track>)
    requires
        opt_tree_safe(view_of(panel)),
    ensures
        r.deep_view() == panel_tracks_of(view_of(panel)),
{
    proof {
        lemma_member_safe(view_of(panel), "contents"@);
        lemma_items_safe(member(view_of(panel), "contents"@));
    }
    let cs = items_at(at(panel, "contents"));
    let ghost cv = items(member(view_of(panel), "contents"@));
    let mut out: Vec<Track> = Vec::new();
    let mut i: usize = 0;
    while i < cs.len()
        invariant
            i <= cs@.len(),
            cs@.len() == cv.len(),
            forall|m: int| 0 <= m < cs@.len() ==> #[trigger] jview(cs@[m]) == cv[m],
            forall|m: int| 0 <= m < cv.len() ==> tree_safe(#[trigger] cv[m]),
            out.deep_view() == collect_panel(cv.take(i as int)),
        decreases cs.len() - i,
    {
        assert(cv.take(i + 1).drop_last() =~= cv.take(i as int));
        assert(cv.take(i + 1).last() == cv[i as int]);
        let item = Some(&cs[i]);
        let row = or_json(
            at(item, "playlistPanelVideoRenderer"),
            at(at(at(item, "playlistPanelVideoWrapperRenderer"), "primaryRenderer"), "playlistPanelVideoRenderer"),
        );
        proof {
            let node = Some(cv[i as int]);
            lemma_member_safe(node, "playlistPanelVideoRenderer"@);
            lemma_member_safe(node, "playlistPanelVideoWrapperRenderer"@);
            lemma_member_safe(member(node, "playlistPanelVideoWrapperRenderer"@), "primaryRenderer"@);
            lemma_member_safe(
                member(member(node, "playlistPanelVideoWrapperRenderer"@), "primaryRenderer"@),
                "playlistPanelVideoRenderer"@,
            );
        }
        let ghost before = out.deep_view();
        match panel_video(row) {
            Some(t) => {
                out.push(t);
                assert(out.deep_view() =~= before.push(panel_video_of(panel_row(cv[i as int]).unwrap()).unwrap()));
            },
            None => {},
        }
        i = i + 1;
    }
    assert(cv.take(cs@.len() as int) =~= cv);
    out
}

/// The tabs of the "Up next" answer.
pub open spec fn next_tabs(response: JsonV) -> Option<JsonV> {
    member(
        member(
            member(
                member(member(Some(response), "contents"@), "singleColumnMusicWatchNextResultsRenderer"@),
                "tabbedRenderer"@,
            ),
            "watchNextTabbedResultsRenderer"@,
        ),
        "tabs"@,
    )
}

/// The queue panel of the first tab.
pub open spec fn next_panel(response: JsonV) -> Option<JsonV> {
    let tab = element(next_tabs(response), 0);
    member(
        member(member(member(member(tab, "tabRenderer"@), "content"@), "musicQueueRenderer"@), "content"@),
        "playlistPanelRenderer"@,
    )
}

/// The lyrics and related tabs, as found so far.
pub open spec fn tabs_fold(tabs: Seq<JsonV>) -> (Option<Seq<char>>, Option<Seq<char>>)
    decreases tabs.len(),
{
    if tabs.len() == 0 {
        (None, None)
    } else {
        let (lyrics, related) = tabs_fold(tabs.drop_last());
        let tab = Some(tabs.last());
        let browse = member(member(member(tab, "tabRenderer"@), "endpoint"@), "browseEndpoint"@);
        let page_type = page_type_of(browse);
        if page_type == Some("MUSIC_PAGE_TYPE_TRACK_LYRICS"@) && !flag_of(
            member(member(tab, "tabRenderer"@), "unselectable"@),
        ) {
            (as_str(member(browse, "browseId"@)), related)
        } else if page_type == Some("MUSIC_PAGE_TYPE_TRACK_RELATED"@) {
            (lyrics, as_str(member(browse, "browseId"@)))
        } else {
            (lyrics, related)
        }
    }
}

/// "Up next": the queue of the first tab, its continuation and playlist, and the lyrics (where
/// selectable) and related tabs.
pub fn parse_next(response: &Json) -> (r: NextPage)
    requires
        tree_safe(jview(*response)),
    ensures
        r.tracks.deep_view() == panel_tracks_of(next_panel(jview(*response))),
        r.continuation.deep_view() == continuation_of(next_panel(jview(*response))),
        r.playlist_id.deep_view() == as_str(member(next_panel(jview(*response)), "playlistId"@)),
        r.lyrics_browse_id.deep_view() == tabs_fold(items(next_tabs(jview(*response)))).0,
        r.related_browse_id.deep_view() == tabs_fold(items(next_tabs(jview(*response)))).1,
{
    let o = Some(response);
    let ghost rv = jview(*response);
    let tabs = at(
        at(at(at(at(o, "contents"), "singleColumnMusicWatchNextResultsRenderer"), "tabbedRenderer"), "watchNextTabbedResultsRenderer"),
        "tabs",
    );
    let panel = at(at(at(at(at(at_index(tabs, 0), "tabRenderer"), "content"), "musicQueueRenderer"), "content"), "playlistPanelRenderer");
    proof {
        lemma_next_panel_safe(rv);
    }
    let tracks = panel_tracks(panel);
    let cont = continuation(panel);
    let playlist_id = string_at(at(panel, "playlistId"));
    let ts = items_at(tabs);
    let ghost tv = items(next_tabs(rv));
    let mut lyrics: Option<String> = None;
    let mut related: Option<String> = None;
    let mut i: usize = 0;
    while i < ts.len()
        invariant
            i <= ts@.len(),
            ts@.len() == tv.len(),
            forall|m: int| 0 <= m < ts@.len() ==> #[trigger] jview(ts@[m]) == tv[m],
            (lyrics.deep_view(), related.deep_view()) == tabs_fold(tv.take(i as int)),
        decreases ts.len() - i,
    {
        assert(tv.take(i + 1).drop_last() =~= tv.take(i as int));
        assert(tv.take(i + 1).last() == tv[i as int]);
        let tab = Some(&ts[i]);
        let browse = at(at(at(tab, "tabRenderer"), "endpoint"), "browseEndpoint");
        let page_type = page_type_at(browse);
        if opt_str_is(page_type, "MUSIC_PAGE_TYPE_TRACK_LYRICS") && !flag_at(at(at(tab, "tabRenderer"), "unselectable")) {
            lyrics = string_at(at(browse, "browseId"));
        } else if opt_str_is(page_type, "MUSIC_PAGE_TYPE_TRACK_RELATED") {
            related = string_at(at(browse, "browseId"));
        }
        i = i + 1;
    }
    assert(tv.take(ts@.len() as int) =~= tv);
    NextPage { tracks, continuation: cont, playlist_id, lyrics_browse_id: lyrics, related_browse_id: related }
}

proof fn lemma_next_panel_safe(rv: JsonV)
    requires
        tree_safe(rv),
    ensures
        opt_tree_safe(next_panel(rv)),
{
    let o = Some(rv);
    lemma_member_safe(o, "contents"@);
    lemma_member_safe(member(o, "contents"@), "singleColumnMusicWatchNextResultsRenderer"@);
    let a = member(member(o, "contents"@), "singleColumnMusicWatchNextResultsRenderer"@);
    lemma_member_safe(a, "tabbedRenderer"@);
    lemma_member_safe(member(a, "tabbedRenderer"@), "watchNextTabbedResultsRenderer"@);
    lemma_member_safe(member(member(a, "tabbedRenderer"@), "watchNextTabbedResultsRenderer"@), "tabs"@);
    lemma_element_safe(next_tabs(rv), 0);
    let tab = element(next_tabs(rv), 0);
    lemma_member_safe(tab, "tabRenderer"@);
    lemma_member_safe(member(tab, "tabRenderer"@), "content"@);
    lemma_member_safe(member(member(tab, "tabRenderer"@), "content"@), "musicQueueRenderer"@);
    let q = member(member(member(tab, "tabRenderer"@), "content"@), "musicQueueRenderer"@);
    lemma_member_safe(q, "content"@);
    lemma_member_safe(member(q, "content"@), "playlistPanelRenderer"@);
}

/// A continuation of "Up next": more of the queue, for the same playlist.
pub open spec fn continued_panel(response: JsonV) -> Option<JsonV> {
    member(member(Some(response), "continuationContents"@), "playlistPanelContinuation"@)
}

/// A continuation of "Up next": more of the queue, for the same playlist.
pub fn parse_next_continuation(response: &Json, playlist_id: Option<&str>) -> (r: NextPage)
    requires
        tree_safe(jview(*response)),
    ensures
        r.tracks.deep_view() == panel_tracks_of(continued_panel(jview(*response))),
        r.continuation.deep_view() == continuation_of(continued_panel(jview(*response))),
        r.playlist_id.deep_view() == str_view(playlist_id),
        r.lyrics_browse_id is None,
        r.related_browse_id is None,
{
    let ghost rv = jview(*response);
    let panel = at(at(Some(response), "continuationContents"), "playlistPanelContinuation");
    proof {
        lemma_member_safe(Some(rv), "continuationContents"@);
        lemma_member_safe(member(Some(rv), "continuationContents"@), "playlistPanelContinuation"@);
    }
    NextPage {
        tracks: panel_tracks(panel),
        continuation: continuation(panel),
        playlist_id: match playlist_id {
            Some(p) => Some(p.to_owned()),
            None => None,
        },
        lyrics_browse_id: None,
        related_browse_id: None,
    }
}

/// Search suggestions: the texts of the `searchSuggestionRenderer`s, without blank ones or
/// repeats, at most ten.
pub open spec fn suggestions_fold(found: Seq<JsonV>) -> Seq<Seq<char>>
    decreases found.len(),
{
    if found.len() == 0 {
        Seq::empty()
    } else {
        let kept = suggestions_fold(found.drop_last());
        match text_of(member(Some(found.last()), "suggestion"@)) {
            Some(t) => if kept.len() < 10 && trim(t).len() != 0 && !kept.contains(t) { kept.push(t) } else { kept },
            None => kept,
        }
    }
}

/// Search suggestions: at most ten texts, without blank ones or repeats.
pub fn parse_suggestions(response: &Json) -> (r: Vec<String>)
    ensures
        r.deep_view() == suggestions_fold(found_all(jview(*response), "searchSuggestionRenderer"@)),
{
    let found = find_all(Some(response), "searchSuggestionRenderer");
    let ghost fv = found_all(jview(*response), "searchSuggestionRenderer"@);
    assert(refs_view(found@) == fv);
    let mut kept: Vec<String> = Vec::new();
    let mut i: usize = 0;
    while i < found.len()
        invariant
            i <= found@.len(),
            refs_view(found@) == fv,
            kept.deep_view() == suggestions_fold(fv.take(i as int)),
        decreases found.len() - i,
    {
        assert(fv.take(i + 1).drop_last() =~= fv.take(i as int));
        assert(fv.take(i + 1).last() == fv[i as int]);
        assert(fv[i as int] == jview(*found@[i as int]));
        let ghost kv = kept.deep_view();
        match text_at(at(Some(found[i]), "suggestion")) {
            Some(t) => {
                if kept.len() < 10 && trimmed(t.as_str()).len() != 0 {
                    let mut seen = false;
                    let mut k: usize = 0;
                    while k < kept.len()
                        invariant
                            k <= kept@.len(),
                            kv == kept.deep_view(),
                            seen == (exists|m: int| 0 <= m < k && kv[m] == t@),
                        decreases kept.len() - k,
                    {
                        assert(kv[k as int] == kept@[k as int]@);
                        if kept[k] == t {
                            seen = true;
                        }
                        k = k + 1;
                    }
                    proof {
                        if seen {
                            let m = choose|m: int| 0 <= m < kept@.len() && kv[m] == t@;
                            assert(kv.contains(t@));
                        } else {
                            assert(!kv.contains(t@));
                        }
                    }
                    if !seen {
                        kept.push(t);
                        assert(kept.deep_view() =~= kv.push(t@));
                    }
                }
            },
            None => {},
        }
        i = i + 1;
    }
    assert(fv.take(found@.len() as int) =~= fv);
    kept
}

} // verus!
