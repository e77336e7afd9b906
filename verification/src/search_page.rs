//! The search results page: "All · Music · YouTube". "All" joins two answers, the catalogue's
//! best match with its first rows and the YouTube videos that the catalogue lacks; the other tabs
//! page through one kind of result. Each load carries a generation, so an answer to an older load
//! never reaches the list, and a row whose key was already shown is not shown again.
use vstd::prelude::*;
use crate::chars::{chars_eq, chars_of};
use crate::music::{item_key, key_seen, opt_view, ItemsPage, MusicItem, SearchSummary};

verus! {

/// Rows of the catalogue on the "All" tab.
pub const CATALOGUE_ROWS: usize = 8;

/// YouTube videos on the "All" tab.
pub const EXTRA_VIDEOS: usize = 6;

/// Filters of the "Music" tab: songs, albums, artists, clips, playlists.
pub const MUSIC_FILTERS: usize = 5;

/// The first `n` of `s`, or all of it where it is shorter.
pub open spec fn at_most<A>(s: Seq<A>, n: nat) -> Seq<A> {
    if s.len() <= n {
        s
    } else {
        s.take(n as int)
    }
}

/// The keys of the items, in order.
pub open spec fn keys_of(items: Seq<MusicItem>) -> Seq<Seq<char>> {
    items.map_values(|i: MusicItem| item_key(i))
}

/// The character sequences of the vectors, in order.
pub open spec fn keys_view(keys: Seq<Vec<char>>) -> Seq<Seq<char>> {
    keys.map_values(|k: Vec<char>| k@)
}

/// Items whose key differs from `key`.
pub open spec fn other_key(key: Seq<char>) -> spec_fn(MusicItem) -> bool {
    |i: MusicItem| item_key(i) != key
}

/// Tracks whose key none of `rows` has.
pub open spec fn new_video(rows: Seq<MusicItem>) -> spec_fn(MusicItem) -> bool {
    |i: MusicItem| (i is Track) && !keys_of(rows).contains(item_key(i))
}

/// The catalogue rows of the "All" tab: the best match first, then the other items without it.
pub open spec fn catalogue_rows(summary: Option<SearchSummary>) -> Seq<MusicItem> {
    match summary {
        Some(s) => at_most(
            match s.top {
                Some(t) => seq![t] + s.items@.filter(other_key(item_key(t))),
                None => s.items@,
            },
            CATALOGUE_ROWS as nat,
        ),
        None => Seq::empty(),
    }
}

/// The items of a web answer; none where it failed.
pub open spec fn web_items(web: Option<ItemsPage>) -> Seq<MusicItem> {
    match web {
        Some(p) => p.items@,
        None => Seq::empty(),
    }
}

/// The videos of the "All" tab: tracks of the web answer that the catalogue rows lack.
pub open spec fn extra_videos(web: Option<ItemsPage>, rows: Seq<MusicItem>) -> Seq<MusicItem> {
    at_most(web_items(web).filter(new_video(rows)), EXTRA_VIDEOS as nat)
}

/// Whether `k` is one of `keys`.
fn key_in(keys: &Vec<Vec<char>>, k: &Vec<char>) -> (r: bool)
    ensures
        r == keys_view(keys@).contains(k@),
{
    let mut j: usize = 0;
    while j < keys.len()
        invariant
            j <= keys@.len(),
            forall|m: int| 0 <= m < j ==> (#[trigger] keys@[m])@ != k@,
        decreases keys@.len() - j,
    {
        if chars_eq(&keys[j], k) {
            assert(keys_view(keys@)[j as int] == k@);
            return true;
        }
        j = j + 1;
    }
    assert forall|m: int| 0 <= m < keys_view(keys@).len() implies #[trigger] keys_view(keys@)[m] != k@ by {
        assert(keys_view(keys@)[m] == keys@[m]@);
    }
    false
}

/// The items whose key differs from `key`, in order.
fn without_key(items: Vec<MusicItem>, key: &Vec<char>) -> (r: Vec<MusicItem>)
    ensures
        r@ == items@.filter(other_key(key@)),
{
    let ghost all = items@;
    let mut items = items;
    let mut r: Vec<MusicItem> = Vec::new();
    let ghost mut i: int = 0;
    while items.len() > 0
        invariant
            0 <= i <= all.len(),
            items@ == all.skip(i),
            r@ == all.take(i).filter(other_key(key@)),
        decreases items.len(),
    {
        let x = items.remove(0);
        proof {
            assert(x == all[i]);
            assert(all.take(i + 1).drop_last() =~= all.take(i));
            assert(all.take(i + 1).last() == x);
            reveal(Seq::filter);
            assert(items@ =~= all.skip(i + 1));
        }
        let k = chars_of(x.key().as_str());
        if !chars_eq(&k, key) {
            r.push(x);
        }
        proof {
            i = i + 1;
        }
    }
    assert(all.take(all.len() as int) =~= all);
    r
}

/// The keys of `rows`, in order.
fn keys_of_rows(rows: &Vec<MusicItem>) -> (r: Vec<Vec<char>>)
    ensures
        keys_view(r@) == keys_of(rows@),
{
    let mut r: Vec<Vec<char>> = Vec::new();
    let mut j: usize = 0;
    while j < rows.len()
        invariant
            j <= rows@.len(),
            keys_view(r@) == keys_of(rows@.take(j as int)),
        decreases rows@.len() - j,
    {
        r.push(chars_of(rows[j].key().as_str()));
        assert(keys_of(rows@.take(j + 1)) =~= keys_of(rows@.take(j as int)).push(item_key(rows@[j as int])));
        assert(keys_view(r@) =~= keys_view(r@.drop_last()).push(r@.last()@));
        j = j + 1;
    }
    assert(rows@.take(rows@.len() as int) =~= rows@);
    r
}

/// The tracks of `items` whose key none of `known` has.
fn new_videos(items: Vec<MusicItem>, known: &Vec<Vec<char>>, Ghost(rows): Ghost<Seq<MusicItem>>) -> (r: Vec<MusicItem>)
    requires
        keys_view(known@) == keys_of(rows),
    ensures
        r@ == items@.filter(new_video(rows)),
{
    let ghost all = items@;
    let mut items = items;
    let mut r: Vec<MusicItem> = Vec::new();
    let ghost mut i: int = 0;
    while items.len() > 0
        invariant
            0 <= i <= all.len(),
            items@ == all.skip(i),
            keys_view(known@) == keys_of(rows),
            r@ == all.take(i).filter(new_video(rows)),
        decreases items.len(),
    {
        let x = items.remove(0);
        proof {
            assert(x == all[i]);
            assert(all.take(i + 1).drop_last() =~= all.take(i));
            assert(all.take(i + 1).last() == x);
            reveal(Seq::filter);
            assert(items@ =~= all.skip(i + 1));
        }
        let is_track = match &x {
            MusicItem::Track(_) => true,
            _ => false,
        };
        if is_track {
            let k = chars_of(x.key().as_str());
            if !key_in(known, &k) {
                r.push(x);
            }
        }
        proof {
            i = i + 1;
        }
    }
    assert(all.take(all.len() as int) =~= all);
    r
}

/// What the "All" tab shows of its two answers: `None` where both failed, else the catalogue
/// rows (the best match first, then the others without it, at most eight) and the videos of the
/// web answer that those rows lack (tracks only, at most six).
pub fn all_results(summary: Option<SearchSummary>, web: Option<ItemsPage>) -> (r: Option<(Vec<MusicItem>, Vec<MusicItem>)>)
    ensures
        (r is None) <==> (summary is None && web is None),
        r matches Some((rows, _)) ==> rows@ == catalogue_rows(summary),
        r matches Some((_, videos)) ==> videos@ == extra_videos(web, catalogue_rows(summary)),
{
    if summary.is_none() && web.is_none() {
        return None;
    }
    let ghost summary0 = summary;
    let ghost web0 = web;
    let mut rows: Vec<MusicItem> = Vec::new();
    match summary {
        Some(s) => {
            let SearchSummary { top, items } = s;
            match top {
                Some(t) => {
                    let k = chars_of(t.key().as_str());
                    rows.push(t);
                    let mut rest = without_key(items, &k);
                    rows.append(&mut rest);
                },
                None => {
                    rows = items;
                },
            }
        },
        None => {},
    }
    rows.truncate(CATALOGUE_ROWS);
    assert(rows@ == catalogue_rows(summary0));
    let known = keys_of_rows(&rows);
    let items = match web {
        Some(p) => p.items,
        None => Vec::new(),
    };
    assert(items@ == web_items(web0));
    let mut videos = new_videos(items, &known, Ghost(rows@));
    videos.truncate(EXTRA_VIDEOS);
    Some((rows, videos))
}

/// The rows of `items` to show after `shown`: those whose key is neither among `shown` nor on an
/// earlier item, in order.
pub open spec fn fresh_rows(shown: Seq<Seq<char>>, items: Seq<MusicItem>) -> Seq<MusicItem>
    decreases items.len(),
{
    if items.len() == 0 {
        Seq::empty()
    } else {
        let d = fresh_rows(shown, items.drop_last());
        let k = item_key(items.last());
        if shown.contains(k) || key_seen(items, items.len() - 1, k) {
            d
        } else {
            d.push(items.last())
        }
    }
}

/// A pushed sequence holds what the sequence held and the pushed value.
proof fn lemma_push_contains<A>(s: Seq<A>, v: A, k: A)
    ensures
        s.push(v).contains(k) <==> (s.contains(k) || v == k),
{
    if s.push(v).contains(k) {
        let j = choose|j: int| 0 <= j < s.len() + 1 && s.push(v)[j] == k;
        if j < s.len() {
            assert(s[j] == k);
        }
    }
    if s.contains(k) {
        let j = choose|j: int| 0 <= j < s.len() && s[j] == k;
        assert(s.push(v)[j] == k);
    }
    if v == k {
        assert(s.push(v)[s.len() as int] == k);
    }
}

/// After the fresh rows of `items` are shown, a key is shown exactly where it was shown before or
/// some item has it.
pub proof fn lemma_fresh_rows_cover(shown: Seq<Seq<char>>, items: Seq<MusicItem>, k: Seq<char>)
    ensures
        (shown + keys_of(fresh_rows(shown, items))).contains(k) <==> (shown.contains(k) || keys_of(
            items,
        ).contains(k)),
    decreases items.len(),
{
    if items.len() == 0 {
        assert(keys_of(fresh_rows(shown, items)) =~= Seq::<Seq<char>>::empty());
        assert(shown + keys_of(fresh_rows(shown, items)) =~= shown);
        if keys_of(items).contains(k) {
            let j = choose|j: int| 0 <= j < keys_of(items).len() && keys_of(items)[j] == k;
        }
    } else {
        let init = items.drop_last();
        let x = items.last();
        let kx = item_key(x);
        lemma_fresh_rows_cover(shown, init, k);
        assert(keys_of(items) =~= keys_of(init).push(kx));
        lemma_push_contains(keys_of(init), kx, k);
        let d = fresh_rows(shown, init);
        if shown.contains(kx) || key_seen(items, items.len() - 1, kx) {
            if key_seen(items, items.len() - 1, kx) {
                let j = choose|j: int| 0 <= j < items.len() - 1 && #[trigger] item_key(items[j]) == kx;
                assert(keys_of(init)[j] == kx);
            }
        } else {
            assert(keys_of(d.push(x)) =~= keys_of(d).push(kx));
            assert(shown + keys_of(d.push(x)) =~= (shown + keys_of(d)).push(kx));
            lemma_push_contains(shown + keys_of(d), kx, k);
        }
    }
}

/// The tabs of the results.
#[derive(Debug, Clone, Copy, PartialEq, Eq, Structural)]
pub enum Scope {
    All,
    Music,
    YouTube,
}

/// What came of an answer for the "All" tab.
#[derive(Debug)]
pub enum AllOutcome {
    /// The answer belongs to an older load.
    Stale,
    /// Both requests failed: the page shows the error with "Try again".
    Failed,
    /// Neither answer had a row: "Nothing found".
    Nothing,
    /// The rows to add under "YouTube Music" and under "YouTube".
    Sections { catalogue: Vec<MusicItem>, videos: Vec<MusicItem> },
}

/// What came of an answer for the "Music" or "YouTube" tab.
#[derive(Debug)]
pub enum PageOutcome {
    /// The answer belongs to an older load.
    Stale,
    /// The page is empty: "Nothing found".
    Nothing,
    /// The rows to add.
    Rows(Vec<MusicItem>),
}

/// The state of a results page.
#[derive(Debug)]
pub struct SearchState {
    pub scope: Scope,
    /// The filter of the tab, by its position.
    pub filter: usize,
    /// Grows with each load; an answer carries the generation of the load that asked for it.
    pub generation: u64,
    /// Where the next page of the tab starts.
    pub continuation: Option<String>,
    /// A next page is on its way.
    pub loading_more: bool,
    /// The keys of the rows shown since the last load.
    pub shown: Vec<Vec<char>>,
}

/// `s1` is `s0` after a new load: the next generation, no continuation and no rows.
pub open spec fn reloaded(s0: SearchState, s1: SearchState) -> bool {
    &&& s1.scope == s0.scope
    &&& s1.filter == s0.filter
    &&& s1.generation == s0.generation + 1
    &&& s1.continuation is None
    &&& s1.loading_more == s0.loading_more
    &&& s1.shown_keys() == Seq::<Seq<char>>::empty()
}

/// `s1` is `s0` with `rows` shown and nothing else changed.
pub open spec fn shown_more(s0: SearchState, s1: SearchState, rows: Seq<MusicItem>) -> bool {
    &&& s1.scope == s0.scope
    &&& s1.filter == s0.filter
    &&& s1.generation == s0.generation
    &&& s1.continuation == s0.continuation
    &&& s1.loading_more == s0.loading_more
    &&& s1.shown_keys() == s0.shown_keys() + keys_of(rows)
}

/// The continuation after a next page: none where the page names the token it was asked with.
pub open spec fn next_continuation(token: Seq<char>, next: Option<String>) -> Option<Seq<char>> {
    if opt_view(next) == Some(token) {
        None
    } else {
        opt_view(next)
    }
}

impl SearchState {
    /// The keys shown since the last load.
    pub open spec fn shown_keys(&self) -> Seq<Seq<char>> {
        keys_view(self.shown@)
    }

    /// A page on the "All" tab before its first load.
    pub fn new() -> (s: SearchState)
        ensures
            s.scope == Scope::All,
            s.filter == 0,
            s.generation == 0,
            s.continuation is None,
            !s.loading_more,
            s.shown_keys() == Seq::<Seq<char>>::empty(),
    {
        let s = SearchState {
            scope: Scope::All,
            filter: 0,
            generation: 0,
            continuation: None,
            loading_more: false,
            shown: Vec::new(),
        };
        assert(s.shown_keys() =~= Seq::<Seq<char>>::empty());
        s
    }

    /// A new load of the tab: the list is cleared and the answer must carry the returned
    /// generation.
    pub fn load(&mut self) -> (g: u64)
        requires
            old(self).generation < u64::MAX,
        ensures
            g == final(self).generation,
            reloaded(*old(self), *final(self)),
    {
        self.generation = self.generation + 1;
        self.continuation = None;
        self.shown = Vec::new();
        assert(self.shown_keys() =~= Seq::<Seq<char>>::empty());
        self.generation
    }

    /// Switches to a tab and one of its filters, and loads it.
    pub fn show(&mut self, scope: Scope, filter: usize) -> (g: u64)
        requires
            old(self).generation < u64::MAX,
        ensures
            g == final(self).generation,
            final(self).scope == scope,
            final(self).filter == filter,
            final(self).generation == old(self).generation + 1,
            final(self).continuation is None,
            final(self).loading_more == old(self).loading_more,
            final(self).shown_keys() == Seq::<Seq<char>>::empty(),
    {
        self.scope = scope;
        self.filter = filter;
        self.load()
    }

    /// Another filter was picked: a known filter other than the current one loads anew.
    pub fn select_filter(&mut self, index: usize) -> (r: Option<u64>)
        requires
            old(self).generation < u64::MAX,
        ensures
            (index != old(self).filter && index < MUSIC_FILTERS) ==> {
                &&& r == Some(final(self).generation)
                &&& final(self).filter == index
                &&& reloaded((SearchState { filter: index, ..*old(self) }), *final(self))
            },
            !(index != old(self).filter && index < MUSIC_FILTERS) ==> (r is None) && *final(self) == *old(self),
    {
        if index != self.filter && index < MUSIC_FILTERS {
            self.filter = index;
            Some(self.load())
        } else {
            None
        }
    }

    /// Whether an answer with this generation belongs to the current load.
    pub fn is_current(&self, generation: u64) -> (r: bool)
        ensures
            r == (generation == self.generation),
    {
        generation == self.generation
    }

    /// The rows of `items` to add to the list: those whose key was not shown yet, each key once.
    pub fn append(&mut self, items: Vec<MusicItem>) -> (r: Vec<MusicItem>)
        ensures
            r@ == fresh_rows(old(self).shown_keys(), items@),
            shown_more(*old(self), *final(self), r@),
    {
        let ghost all = items@;
        let ghost shown0 = self.shown_keys();
        let mut items = items;
        let mut r: Vec<MusicItem> = Vec::new();
        let ghost mut i: int = 0;
        while items.len() > 0
            invariant
                0 <= i <= all.len(),
                items@ == all.skip(i),
                r@ == fresh_rows(shown0, all.take(i)),
                self.shown_keys() == shown0 + keys_of(r@),
                self.scope == old(self).scope,
                self.filter == old(self).filter,
                self.generation == old(self).generation,
                self.continuation == old(self).continuation,
                self.loading_more == old(self).loading_more,
                shown0 == old(self).shown_keys(),
            decreases items.len(),
        {
            let x = items.remove(0);
            let k = chars_of(x.key().as_str());
            let seen = key_in(&self.shown, &k);
            proof {
                let t = all.take(i + 1);
                assert(x == all[i]);
                assert(t.drop_last() =~= all.take(i));
                assert(t.last() == x);
                assert(items@ =~= all.skip(i + 1));
                lemma_fresh_rows_cover(shown0, all.take(i), k@);
                if key_seen(t, i, k@) {
                    let j = choose|j: int| 0 <= j < i && #[trigger] item_key(t[j]) == k@;
                    assert(keys_of(all.take(i))[j] == k@);
                }
                if keys_of(all.take(i)).contains(k@) {
                    let j = choose|j: int| 0 <= j < keys_of(all.take(i)).len() && keys_of(all.take(i))[j] == k@;
                    assert(item_key(t[j]) == k@);
                }
            }
            if !seen {
                let ghost s0 = self.shown@;
                self.shown.push(k);
                r.push(x);
                proof {
                    assert(keys_view(self.shown@) =~= keys_view(s0).push(k@));
                    assert(keys_of(r@) =~= keys_of(r@.drop_last()).push(item_key(x)));
                    assert(shown0 + keys_of(r@) =~= (shown0 + keys_of(r@.drop_last())).push(k@));
                }
            }
            proof {
                i = i + 1;
            }
        }
        assert(all.take(all.len() as int) =~= all);
        r
    }

    /// The answers for the "All" tab of the load with `generation`.
    pub fn all_arrived(&mut self, generation: u64, summary: Option<SearchSummary>, web: Option<ItemsPage>) -> (r:
        AllOutcome)
        ensures
            generation != old(self).generation ==> (r is Stale) && *final(self) == *old(self),
            generation == old(self).generation && summary is None && web is None ==> (r is Failed)
                && *final(self) == *old(self),
            generation == old(self).generation && !(summary is None && web is None) && catalogue_rows(
                summary,
            ).len() == 0 && extra_videos(web, catalogue_rows(summary)).len() == 0 ==> (r is Nothing)
                && *final(self) == *old(self),
            r matches AllOutcome::Sections { catalogue, videos } ==> {
                &&& generation == old(self).generation
                &&& !(catalogue_rows(summary).len() == 0 && extra_videos(web, catalogue_rows(summary)).len()
                    == 0)
                &&& catalogue@ == fresh_rows(old(self).shown_keys(), catalogue_rows(summary))
                &&& videos@ == fresh_rows(
                    old(self).shown_keys() + keys_of(catalogue@),
                    extra_videos(web, catalogue_rows(summary)),
                )
                &&& shown_more(*old(self), *final(self), catalogue@ + videos@)
            },
            generation == old(self).generation && !(catalogue_rows(summary).len() == 0 && extra_videos(
                web,
                catalogue_rows(summary),
            ).len() == 0) ==> (r is Sections),
    {
        if generation != self.generation {
            return AllOutcome::Stale;
        }
        match all_results(summary, web) {
            None => AllOutcome::Failed,
            Some((rows, videos)) => {
                if rows.len() == 0 && videos.len() == 0 {
                    AllOutcome::Nothing
                } else {
                    let ghost s0 = *self;
                    let catalogue = self.append(rows);
                    let videos = self.append(videos);
                    proof {
                        assert(keys_of(catalogue@ + videos@) =~= keys_of(catalogue@) + keys_of(videos@));
                        assert(s0.shown_keys() + keys_of(catalogue@) + keys_of(videos@) =~= s0.shown_keys()
                            + (keys_of(catalogue@) + keys_of(videos@)));
                    }
                    AllOutcome::Sections { catalogue, videos }
                }
            },
        }
    }

    /// The answer for the "Music" or "YouTube" tab of the load with `generation`: an empty page
    /// shows "Nothing found"; else its continuation is kept and its new rows are added.
    pub fn page_arrived(&mut self, generation: u64, page: ItemsPage) -> (r: PageOutcome)
        ensures
            generation != old(self).generation ==> (r is Stale) && *final(self) == *old(self),
            generation == old(self).generation && page.items@.len() == 0 ==> (r is Nothing) && *final(self) == *old(self),
            generation == old(self).generation && page.items@.len() > 0 ==> (r is Rows),
            r matches PageOutcome::Rows(rows) ==> {
                &&& rows@ == fresh_rows(old(self).shown_keys(), page.items@)
                &&& shown_more((SearchState { continuation: page.continuation, ..*old(self) }), *final(self), rows@)
            },
    {
        if generation != self.generation {
            return PageOutcome::Stale;
        }
        if page.items.len() == 0 {
            return PageOutcome::Nothing;
        }
        let ItemsPage { items, continuation } = page;
        self.continuation = continuation;
        PageOutcome::Rows(self.append(items))
    }

    /// The list neared its end: the next page is asked for, with the current generation and the
    /// token, unless one is on its way, the tab is "All" or there is no next page.
    pub fn start_more(&mut self) -> (r: Option<(u64, String)>)
        ensures
            (old(self).loading_more || old(self).scope == Scope::All || old(self).continuation is None)
                ==> (r is None) && *final(self) == *old(self),
            !(old(self).loading_more || old(self).scope == Scope::All || old(self).continuation is None)
                ==> {
                &&& r matches Some((g, token)) && g == old(self).generation && Some(token) == old(self).continuation
                &&& *final(self) == (SearchState { loading_more: true, ..*old(self) })
            },
    {
        if self.loading_more || self.scope == Scope::All {
            return None;
        }
        match &self.continuation {
            None => None,
            Some(token) => {
                let token = token.clone();
                self.loading_more = true;
                Some((self.generation, token))
            },
        }
    }

    /// The next page asked for with `token` came, or failed (`None`). An answer to an older load
    /// adds nothing; a page that names the same token again ends the results.
    pub fn more_arrived(&mut self, generation: u64, token: &str, page: Option<ItemsPage>) -> (r: Vec<MusicItem>)
        ensures
            !final(self).loading_more,
            (generation != old(self).generation || page is None) ==> r@.len() == 0 && *final(self)
                == (SearchState { loading_more: false, ..*old(self) }),
            generation == old(self).generation ==> (page matches Some(p) ==> {
                &&& r@ == fresh_rows(old(self).shown_keys(), p.items@)
                &&& opt_view(final(self).continuation) == next_continuation(token@, p.continuation)
                &&& final(self).scope == old(self).scope
                &&& final(self).filter == old(self).filter
                &&& final(self).generation == old(self).generation
                &&& final(self).shown_keys() == old(self).shown_keys() + keys_of(r@)
            }),
    {
        self.loading_more = false;
        if generation != self.generation {
            return Vec::new();
        }
        match page {
            None => Vec::new(),
            Some(p) => {
                let ItemsPage { items, continuation } = p;
                let repeats = match &continuation {
                    Some(c) => {
                        let a = chars_of(c.as_str());
                        let b = chars_of(token);
                        chars_eq(&a, &b)
                    },
                    None => false,
                };
                self.continuation = if repeats {
                    None
                } else {
                    continuation
                };
                self.append(items)
            },
        }
    }
}

/// A row is never shown twice after a load: the rows added have pairwise different keys, none of
/// them shown before, and each comes from the answer.
pub proof fn law_rows_are_never_repeated(shown: Seq<Seq<char>>, items: Seq<MusicItem>)
    ensures
        forall|i: int, j: int|
            0 <= i < j < fresh_rows(shown, items).len() ==> item_key(#[trigger] fresh_rows(shown, items)[i])
                != item_key(#[trigger] fresh_rows(shown, items)[j]),
        forall|i: int|
            0 <= i < fresh_rows(shown, items).len() ==> !shown.contains(
                item_key(#[trigger] fresh_rows(shown, items)[i]),
            ),
        forall|i: int| 0 <= i < fresh_rows(shown, items).len() ==> items.contains(#[trigger] fresh_rows(shown, items)[i]),
    decreases items.len(),
{
    if items.len() > 0 {
        let init = items.drop_last();
        let x = items.last();
        law_rows_are_never_repeated(shown, init);
        let d = fresh_rows(shown, init);
        assert forall|i: int| 0 <= i < d.len() implies items.contains(#[trigger] d[i]) by {
            let j = choose|j: int| 0 <= j < init.len() && init[j] == d[i];
            assert(items[j] == d[i]);
        }
        if !(shown.contains(item_key(x)) || key_seen(items, items.len() - 1, item_key(x))) {
            let r = d.push(x);
            assert(items[items.len() - 1] == x);
            assert forall|i: int| 0 <= i < d.len() implies item_key(#[trigger] r[i]) != item_key(x) by {
                assert(r[i] == d[i]);
                assert(init.contains(d[i]));
                let j = choose|j: int| 0 <= j < init.len() && init[j] == d[i];
                assert(item_key(items[j]) == item_key(d[i]));
            }
        }
    }
}

} // verus!
