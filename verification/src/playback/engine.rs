//! The player's decisions: what a command does to the queue and the status, how errors are
//! retried and skipped, when similar tracks are loaded and which are new. The engine that runs
//! them (the stream, the sound output, the network) is the app's.
use vstd::prelude::*;
use crate::chars::chars_of;
use crate::music::{Track, TrackV};
use crate::playback::resolver::{StreamError, StreamErrorKind};
use crate::queue::{autoplay_from, PlayQueue, QueueItem, RepeatMode};

verus! {

/// Shorter than this is no listen: 5 s, in nanoseconds.
pub const MIN_PLAY_NS: u128 = 5000000000;

#[derive(Clone, Copy, Debug, PartialEq, Eq, Structural)]
pub enum Status {
    Idle,
    /// Getting the stream: a spinner on the button, after 3 s the text "Getting the stream…".
    Resolving,
    Buffering,
    Playing,
    Paused,
    /// Stopped on an error: the reason in words and "Retry".
    Error,
}

/// The reason of an error, for its text.
#[derive(Debug)]
pub struct PlayerError {
    pub kind: StreamErrorKind,
    pub message: String,
    pub track: Track,
    /// Closed in a country: where YouTube sees the device.
    pub country: Option<String>,
    pub open_countries: Option<usize>,
}

/// The reason of an error as plain values.
pub struct PlayerErrorV {
    pub kind: StreamErrorKind,
    pub message: Seq<char>,
    pub track: TrackV,
    pub country: Option<Seq<char>>,
    pub open_countries: Option<usize>,
}

impl DeepView for PlayerError {
    type V = PlayerErrorV;

    open spec fn deep_view(&self) -> PlayerErrorV {
        PlayerErrorV {
            kind: self.kind,
            message: self.message@,
            track: self.track.deep_view(),
            country: self.country.deep_view(),
            open_countries: self.open_countries,
        }
    }
}

impl PlayerError {
    pub fn from(error: &StreamError, track: &Track) -> (r: PlayerError)
        ensures
            r.kind == error.kind,
            r.message@ == error.message@,
            r.track.same_as(track),
            r.country.deep_view() == error.country.deep_view(),
            r.open_countries == error.open_countries,
    {
        PlayerError {
            kind: error.kind,
            message: error.message.clone(),
            track: track.clone(),
            country: crate::music::clone_opt_string(&error.country),
            open_countries: error.open_countries,
        }
    }
}

/// Playing, or about to play as soon as there is a stream.
pub open spec fn playing_spec(status: Status, play_when_ready: bool) -> bool {
    status == Status::Playing || status == Status::Buffering || (status == Status::Resolving && play_when_ready)
}

/// Playing, or about to play as soon as there is a stream.
pub fn is_playing(status: Status, play_when_ready: bool) -> (r: bool)
    ensures
        r == playing_spec(status, play_when_ready),
{
    match status {
        Status::Playing | Status::Buffering => true,
        Status::Resolving => play_when_ready,
        _ => false,
    }
}

/// The state of the sound pipeline.
#[derive(Clone, Copy, Debug, PartialEq, Eq, Structural)]
pub enum PipelineState {
    VoidPending,
    Null,
    Ready,
    Paused,
    Playing,
}

/// The status after the pipeline changed state: playing; paused, which is buffering while it is
/// meant to play; other states change nothing.
pub fn status_after(state: PipelineState, play_when_ready: bool) -> (r: Option<Status>)
    ensures
        r == match state {
            PipelineState::Playing => Some(Status::Playing),
            PipelineState::Paused => Some(if play_when_ready { Status::Buffering } else { Status::Paused }),
            _ => None,
        },
{
    match state {
        PipelineState::Playing => Some(Status::Playing),
        PipelineState::Paused => Some(if play_when_ready { Status::Buffering } else { Status::Paused }),
        _ => None,
    }
}

/// Where a relative seek lands: the position moved by `delta`, no earlier than the start and no
/// later than half a second before the end (unknown length: no limit).
pub open spec fn seek_by_spec(position_ms: int, delta_ms: int, duration_ms: Option<int>) -> int {
    let target = position_ms + delta_ms;
    let limit = match duration_ms {
        Some(d) => d,
        None => i64::MAX as int,
    };
    let upper = if limit - 500 > 0 { limit - 500 } else { 0 };
    if target < 0 { 0 } else if target > upper { upper } else { target }
}

/// Where a relative seek lands (Shift+← →, MPRIS `Seek`), in milliseconds.
pub fn seek_by_target(position_ms: i64, delta_ms: i64, duration_ms: Option<i64>) -> (r: u64)
    requires
        i64::MIN <= position_ms + delta_ms <= i64::MAX,
    ensures
        r as int == seek_by_spec(position_ms as int, delta_ms as int, match duration_ms {
            Some(d) => Some(d as int),
            None => None,
        }),
{
    let target = position_ms + delta_ms;
    let limit = match duration_ms {
        Some(d) => d,
        None => i64::MAX,
    };
    let upper: i64 = if limit > 500 { limit - 500 } else { 0 };
    if target < 0 {
        0
    } else if target > upper {
        upper as u64
    } else {
        target as u64
    }
}

/// The pause before retry `attempt` of getting a stream: 1 s, then 3 s.
pub fn retry_delay_ms(attempt: u32) -> (r: u64)
    ensures
        r == if attempt == 1 { 1000u64 } else { 3000u64 },
{
    if attempt == 1 {
        1000
    } else {
        3000
    }
}

/// "Previous" past 3 s of a track goes back to its start, not to the previous track.
pub fn restarts_track(position_ns: Option<u128>) -> (r: bool)
    ensures
        r == (position_ns matches Some(p) && p > 3000000000),
{
    match position_ns {
        Some(p) => p > 3000000000,
        None => false,
    }
}

/// A session of a track counts as one listen from 5 s of real sound.
pub fn is_listen(played_ns: u128) -> (r: bool)
    ensures
        r == (played_ns >= MIN_PLAY_NS),
{
    played_ns >= MIN_PLAY_NS
}

/// After an error the track is skipped; after three skips in a row, or with nothing next,
/// playback stops with the reason.
pub fn stops_after_skip(skips_in_row: u32, has_next: bool) -> (r: bool)
    ensures
        r == (skips_in_row >= 3 || !has_next),
{
    skips_in_row >= 3 || !has_next
}

/// The queue in play order, for the queue panel.
pub struct QueueView {
    pub items: Vec<QueueItem>,
    /// The current item's place in `items`.
    pub current: Option<usize>,
    /// Where in `items` the block "Up next: similar" starts.
    pub autoplay_from: Option<usize>,
}

/// The first place in `order` that holds `c`.
pub open spec fn place_of(order: Seq<usize>, c: usize) -> Option<int>
    decreases order.len(),
{
    if order.len() == 0 {
        None
    } else {
        match place_of(order.drop_last(), c) {
            Some(p) => Some(p),
            None => if order.last() == c { Some(order.len() - 1) } else { None },
        }
    }
}

/// The first item from autoplay.
pub open spec fn first_autoplay(items: Seq<QueueItem>) -> Option<int>
    decreases items.len(),
{
    if items.len() == 0 {
        None
    } else {
        match first_autoplay(items.drop_last()) {
            Some(p) => Some(p),
            None => if items.last().from_autoplay { Some(items.len() - 1) } else { None },
        }
    }
}

/// The queue in play order: its items, the current one's place, and where autoplay starts.
pub fn queue_view(queue: &PlayQueue) -> (v: QueueView)
    requires
        queue.wf(),
    ensures
        v.items@.len() == queue.order().len(),
        forall|k: int|
            0 <= k < v.items@.len() ==> (#[trigger] v.items@[k]).same_as(&queue.queue_items()[queue.order()[k] as int]),
        v.current == match queue.queue_current() {
            Some(c) => match place_of(queue.order(), c) {
                Some(p) => Some(p as usize),
                None => None,
            },
            None => None,
        },
        v.autoplay_from == match first_autoplay(v.items@) {
            Some(p) => Some(p as usize),
            None => None,
        },
{
    let order = queue.play_order();
    let all = queue.items();
    let mut items: Vec<QueueItem> = Vec::new();
    let mut current: Option<usize> = None;
    let mut first_auto: Option<usize> = None;
    let c = queue.current_index();
    proof {
        queue.lemma_order();
    }
    let mut k: usize = 0;
    while k < order.len()
        invariant
            queue.wf(),
            k <= order@.len(),
            order@ == queue.order(),
            all@ == queue.queue_items(),
            c == queue.queue_current(),
            forall|j: int| 0 <= j < order@.len() ==> #[trigger] order@[j] < all@.len(),
            items@.len() == k,
            forall|j: int| 0 <= j < k ==> (#[trigger] items@[j]).same_as(&all@[order@[j] as int]),
            current == match c {
                Some(ci) => match place_of(order@.take(k as int), ci) {
                    Some(p) => Some(p as usize),
                    None => None,
                },
                None => None,
            },
            first_auto == match first_autoplay(items@) {
                Some(p) => Some(p as usize),
                None => None,
            },
        decreases order.len() - k,
    {
        assert(order@.take(k + 1).drop_last() =~= order@.take(k as int));
        assert(order@.take(k + 1).last() == order@[k as int]);
        let item = all[order[k]].clone();
        let ghost before = items@;
        if first_auto.is_none() && item.from_autoplay {
            first_auto = Some(k);
        }
        match c {
            Some(ci) => {
                if current.is_none() && order[k] == ci {
                    current = Some(k);
                }
            },
            None => {},
        }
        items.push(item);
        assert(items@.drop_last() =~= before);
        k = k + 1;
    }
    assert(order@.take(order@.len() as int) =~= order@);
    QueueView { items, current, autoplay_from: first_auto }
}

/// Loading similar tracks: where it stands.
#[derive(Debug)]
pub struct Autoplay {
    pub loading: bool,
    pub continuation: Option<String>,
    pub playlist_id: Option<String>,
    pub seed: Option<String>,
    pub seeds_without_new: u32,
}

impl Autoplay {
    pub fn new() -> (a: Autoplay)
        ensures
            !a.loading,
            a.continuation is None,
            a.playlist_id is None,
            a.seed is None,
            a.seeds_without_new == 0,
    {
        Autoplay { loading: false, continuation: None, playlist_id: None, seed: None, seeds_without_new: 0 }
    }
}

/// Similar tracks are loaded when autoplay is on, the queue does not repeat all, something is
/// playing, at most three tracks are ahead (a list the user started plays to its end first),
/// nothing is loading, and fewer than three seeds in a row gave nothing new.
pub open spec fn autoplay_wanted_spec(a: &Autoplay, enabled: bool, queue: &PlayQueue) -> bool {
    &&& !a.loading
    &&& enabled
    &&& queue.queue_repeat() != RepeatMode::All
    &&& queue.queue_current() is Some
    &&& queue.order().len() - queue.ahead_from() <= 3
    &&& a.seeds_without_new < 3
}

/// Whether to load similar tracks now.
pub fn autoplay_wanted(a: &Autoplay, enabled: bool, queue: &PlayQueue) -> (r: bool)
    requires
        queue.wf(),
    ensures
        r == autoplay_wanted_spec(a, enabled, queue),
{
    if a.loading || !enabled || queue.repeat() == RepeatMode::All || queue.current().is_none() {
        return false;
    }
    proof {
        queue.lemma_order();
    }
    let ahead = queue.upcoming(usize::MAX);
    !(ahead.len() > 3 || a.seeds_without_new >= 3)
}

/// The last autoplay item other than the last seed.
pub open spec fn last_autoplay_other(items: Seq<QueueItem>, seed: Option<Seq<char>>) -> Option<int>
    decreases items.len(),
{
    if items.len() == 0 {
        None
    } else if items.last().from_autoplay && Some(items.last().track.video_id@) != seed {
        Some(items.len() - 1)
    } else {
        last_autoplay_other(items.drop_last(), seed)
    }
}

/// The track similar ones are asked for: none while a continuation goes on; else the last
/// autoplay item but the last seed, else the last of the user's, else the current one.
pub open spec fn autoplay_seed_spec(a: &Autoplay, queue: &PlayQueue) -> Option<Seq<char>> {
    let items = queue.queue_items();
    if a.continuation is Some {
        None
    } else {
        match last_autoplay_other(items, a.seed.deep_view()) {
            Some(i) => Some(items[i].track.video_id@),
            None => if autoplay_from(items) > 0 {
                Some(items[autoplay_from(items) - 1].track.video_id@)
            } else {
                match queue.queue_current() {
                    Some(c) => if c < items.len() { Some(items[c as int].track.video_id@) } else { None },
                    None => None,
                }
            },
        }
    }
}

proof fn lemma_last_autoplay_other(items: Seq<QueueItem>, seed: Option<Seq<char>>)
    ensures
        last_autoplay_other(items, seed) matches Some(i) ==> 0 <= i < items.len(),
    decreases items.len(),
{
    if items.len() > 0 {
        lemma_last_autoplay_other(items.drop_last(), seed);
    }
}

/// The track similar ones are asked for.
pub fn autoplay_seed(a: &Autoplay, queue: &PlayQueue) -> (r: Option<String>)
    ensures
        r.deep_view() == autoplay_seed_spec(a, queue),
{
    if a.continuation.is_some() {
        return None;
    }
    let items = queue.items();
    let ghost iv = items@;
    let mut k: usize = items.len();
    assert(iv.take(k as int) =~= iv);
    while k > 0
        invariant
            k <= iv.len(),
            iv == items@,
            iv == queue.queue_items(),
            a.continuation is None,
            last_autoplay_other(iv, a.seed.deep_view()) == last_autoplay_other(iv.take(k as int), a.seed.deep_view()),
        decreases k,
    {
        assert(iv.take(k as int).last() == iv[k - 1]);
        assert(iv.take(k as int).drop_last() =~= iv.take(k - 1));
        let item = &items[k - 1];
        if item.from_autoplay {
            let other = match &a.seed {
                Some(s) => !(item.track.video_id == *s),
                None => true,
            };
            if other {
                return Some(item.track.video_id.clone());
            }
        }
        k = k - 1;
    }
    let start = queue.autoplay_start();
    if start > 0 {
        proof {
            crate::seqs::lemma_first_where_props(iv, |i: QueueItem| i.from_autoplay);
        }
        return Some(items[start - 1].track.video_id.clone());
    }
    match queue.current() {
        Some(item) => Some(item.track.video_id.clone()),
        None => None,
    }
}

/// The video ids of the queue's items.
pub open spec fn queue_ids(items: Seq<QueueItem>) -> Seq<Seq<char>> {
    items.map_values(|i: QueueItem| i.track.video_id@)
}

/// The fresh tracks among what came: available, in neither the queue nor this session's plays,
/// each once, at most 25.
pub open spec fn fresh_fold(tracks: Seq<Track>, known: Seq<Seq<char>>, played: Seq<Seq<char>>) -> Seq<Track>
    decreases tracks.len(),
{
    if tracks.len() == 0 {
        Seq::empty()
    } else {
        let acc = fresh_fold(tracks.drop_last(), known, played);
        let t = tracks.last();
        if acc.len() < 25 && !t.unavailable && !known.contains(t.video_id@) && !played.contains(t.video_id@) && !(
        exists|j: int| 0 <= j < acc.len() && (#[trigger] acc[j]).video_id@ == t.video_id@) {
            acc.push(t)
        } else {
            acc
        }
    }
}

pub(crate) fn contains_id(ids: &Vec<String>, id: &String) -> (r: bool)
    ensures
        r == ids.deep_view().contains(id@),
{
    let mut k: usize = 0;
    while k < ids.len()
        invariant
            k <= ids@.len(),
            forall|j: int| 0 <= j < k ==> ids@[j]@ != id@,
        decreases ids.len() - k,
    {
        if ids[k] == *id {
            assert(ids.deep_view()[k as int] == id@);
            return true;
        }
        k = k + 1;
    }
    assert(!ids.deep_view().contains(id@)) by {
        if ids.deep_view().contains(id@) {
            let j = choose|j: int| 0 <= j < ids.deep_view().len() && ids.deep_view()[j] == id@;
            assert(ids@[j]@ == id@);
        }
    }
    false
}

fn in_queue(items: &[QueueItem], id: &String) -> (r: bool)
    ensures
        r == queue_ids(items@).contains(id@),
{
    let mut k: usize = 0;
    while k < items.len()
        invariant
            k <= items@.len(),
            forall|j: int| 0 <= j < k ==> items@[j].track.video_id@ != id@,
        decreases items.len() - k,
    {
        if items[k].track.video_id == *id {
            assert(queue_ids(items@)[k as int] == id@);
            return true;
        }
        k = k + 1;
    }
    assert(!queue_ids(items@).contains(id@)) by {
        if queue_ids(items@).contains(id@) {
            let j = choose|j: int| 0 <= j < queue_ids(items@).len() && queue_ids(items@)[j] == id@;
            assert(items@[j].track.video_id@ == id@);
        }
    }
    false
}

/// What similar tracks that came in do to autoplay (`a0` to `a1`) and the queue (`q0` to `q1`),
/// and whether tracks were `added`.
pub open spec fn autoplay_post(
    a0: Autoplay,
    q0: PlayQueue,
    a1: Autoplay,
    q1: PlayQueue,
    tracks: Seq<Track>,
    continuation: Option<String>,
    playlist_id: Option<String>,
    seed: Option<String>,
    played: Seq<Seq<char>>,
    added: bool,
) -> bool {
    let fresh = fresh_fold(tracks, queue_ids(q0.queue_items()), played);
    &&& q1.wf()
    &&& !a1.loading
    &&& a1.seed == if seed is Some { seed } else { a0.seed }
    &&& a1.playlist_id == if playlist_id is Some { playlist_id } else { a0.playlist_id }
    &&& added == (fresh.len() > 0)
    &&& !added ==> {
        &&& a1.continuation is None
        &&& a1.seeds_without_new == a0.seeds_without_new + 1
        &&& q1 == q0
    }
    &&& added ==> {
        &&& a1.continuation == if continuation.deep_view() == a0.continuation.deep_view() { None } else { continuation }
        &&& a1.seeds_without_new == 0
        &&& q0.queue_repeat() != RepeatMode::All ==> q1.queue_items() == q0.queue_items() + crate::queue::new_items(
            fresh,
            true,
            q0.queue_next_id(),
        )
    }
}

/// Similar tracks came in: the seed is remembered, a repeated continuation ends, the fresh tracks
/// go to the end of the queue; where none is fresh, the continuation ends and one more seed gave
/// nothing new. Returns whether tracks were added.
pub fn on_autoplay(
    a: &mut Autoplay,
    queue: &mut PlayQueue,
    tracks: Vec<Track>,
    continuation: Option<String>,
    playlist_id: Option<String>,
    seed: Option<String>,
    played: &Vec<String>,
) -> (added: bool)
    requires
        old(queue).wf(),
        old(queue).has_room(25),
        old(a).seeds_without_new < u32::MAX,
    ensures
        autoplay_post(
            *old(a),
            *old(queue),
            *final(a),
            *final(queue),
            tracks@,
            continuation,
            playlist_id,
            seed,
            played.deep_view(),
            added,
        ),
{
    a.loading = false;
    if seed.is_some() {
        a.seed = seed;
    }
    let ghost known = queue_ids(queue.queue_items());
    let ghost pv = played.deep_view();
    let ghost all = tracks@;
    let mut fresh: Vec<Track> = Vec::new();
    for t in it: tracks
        invariant
            it.seq() == all,
            known == queue_ids(queue.queue_items()),
            pv == played.deep_view(),
            fresh@ == fresh_fold(all.take(it.index() as int), known, pv),
            fresh@.len() <= 25,
    {
        assert(all.take(it.index() + 1).drop_last() =~= all.take(it.index() as int));
        assert(all.take(it.index() + 1).last() == t);
        if fresh.len() < 25 && !t.unavailable && !in_queue(queue.items(), &t.video_id) && !contains_id(played, &t.video_id) {
            let mut seen = false;
            let mut j: usize = 0;
            while j < fresh.len()
                invariant
                    j <= fresh@.len(),
                    seen == exists|m: int| 0 <= m < j && (#[trigger] fresh@[m]).video_id@ == t.video_id@,
                decreases fresh.len() - j,
            {
                if fresh[j].video_id == t.video_id {
                    seen = true;
                }
                j = j + 1;
            }
            if !seen {
                fresh.push(t);
            }
        }
    }
    assert(all.take(all.len() as int) =~= all);
    let same = match (&continuation, &a.continuation) {
        (Some(x), Some(y)) => *x == *y,
        (None, None) => true,
        _ => false,
    };
    a.continuation = if same { None } else { continuation };
    if playlist_id.is_some() {
        a.playlist_id = playlist_id;
    }
    if fresh.len() == 0 {
        a.continuation = None;
        a.seeds_without_new = a.seeds_without_new + 1;
        return false;
    }
    a.seeds_without_new = 0;
    queue.append_autoplay(fresh);
    true
}


/// Similar tracks added to the queue are new: none is unavailable, none is in the queue or was
/// played this session, none comes twice, and at most 25 come at once.
pub proof fn law_autoplay_adds_only_new_tracks(tracks: Seq<Track>, known: Seq<Seq<char>>, played: Seq<Seq<char>>)
    ensures
        fresh_fold(tracks, known, played).len() <= 25,
        forall|i: int|
            0 <= i < fresh_fold(tracks, known, played).len() ==> {
                let t = #[trigger] fresh_fold(tracks, known, played)[i];
                &&& !t.unavailable
                &&& !known.contains(t.video_id@)
                &&& !played.contains(t.video_id@)
                &&& tracks.contains(t)
            },
        forall|i: int, j: int|
            0 <= i < j < fresh_fold(tracks, known, played).len() ==> (#[trigger] fresh_fold(tracks, known, played)[i]).video_id@
                != (#[trigger] fresh_fold(tracks, known, played)[j]).video_id@,
    decreases tracks.len(),
{
    if tracks.len() > 0 {
        let init = tracks.drop_last();
        law_autoplay_adds_only_new_tracks(init, known, played);
        let acc = fresh_fold(init, known, played);
        let f = fresh_fold(tracks, known, played);
        assert forall|i: int| 0 <= i < f.len() implies tracks.contains(#[trigger] f[i]) by {
            if i < acc.len() {
                assert(init.contains(acc[i]));
                let k = choose|k: int| 0 <= k < init.len() && init[k] == acc[i];
                assert(tracks[k] == acc[i]);
            } else {
                assert(tracks[tracks.len() - 1] == f[i]);
            }
        }
    }
}

/// The video ids of the items at `indices`.
pub open spec fn ids_at(items: Seq<QueueItem>, indices: Seq<usize>) -> Seq<Seq<char>> {
    indices.map_values(|i: usize| items[i as int].track.video_id@)
}

/// The video ids of the next `count` tracks in play order.
pub fn upcoming_ids(queue: &PlayQueue, count: usize) -> (r: Vec<String>)
    requires
        queue.wf(),
    ensures
        r@.map_values(|s: String| s@) == ids_at(
            queue.queue_items(),
            queue.order().skip(queue.ahead_from()).take(
                if count < queue.order().len() - queue.ahead_from() { count as int } else { queue.order().len() - queue.ahead_from() },
            ),
        ),
{
    proof {
        queue.lemma_order();
    }
    let upcoming = queue.upcoming(count);
    let items = queue.items();
    let ghost o = queue.order();
    let ghost from = queue.ahead_from();
    proof {
        assert forall|k: int| 0 <= k < upcoming@.len() implies (#[trigger] upcoming@[k]) < items@.len() by {
            assert(upcoming@[k] == o[from + k]);
        }
    }
    let mut r: Vec<String> = Vec::new();
    let mut j: usize = 0;
    while j < upcoming.len()
        invariant
            j <= upcoming@.len(),
            r@.len() == j,
            items@ == queue.queue_items(),
            forall|k: int| 0 <= k < upcoming@.len() ==> (#[trigger] upcoming@[k]) < items@.len(),
            forall|k: int| 0 <= k < j ==> (#[trigger] r@[k])@ == items@[upcoming@[k] as int].track.video_id@,
        decreases upcoming@.len() - j,
    {
        let id = items[upcoming[j]].track.video_id.clone();
        r.push(id);
        j = j + 1;
    }
    assert(r@.map_values(|s: String| s@) =~= ids_at(queue.queue_items(), upcoming@));
    r
}

/// What to fetch ahead for the next tracks.
#[derive(Debug, PartialEq, Default)]
pub struct PrefetchPlan {
    /// Streams opened ahead for tracks that are no longer next: they are cancelled.
    pub cancel: Vec<String>,
    /// The next track's stream to open ahead, with the start of its sound.
    pub preload: Option<String>,
    /// Tracks after it whose address is resolved ahead (their sound is not kept yet).
    pub resolve: Vec<String>,
}

/// The views of the strings.
pub open spec fn views(v: Seq<String>) -> Seq<Seq<char>> {
    v.map_values(|s: String| s@)
}

/// The next track's stream is opened ahead where it is neither open nor opening.
pub open spec fn preload_of(upcoming: Seq<Seq<char>>, preloaded: Seq<Seq<char>>, preloading: Seq<Seq<char>>) -> Option<Seq<char>> {
    if upcoming.len() > 0 && !preloaded.contains(upcoming[0]) && !preloading.contains(upcoming[0]) {
        Some(upcoming[0])
    } else {
        None
    }
}

/// The tracks after the next one that are not wholly on disk, in order.
pub open spec fn to_resolve(upcoming: Seq<Seq<char>>, complete: Seq<bool>) -> Seq<Seq<char>>
    decreases upcoming.len(),
{
    if upcoming.len() <= 1 {
        Seq::empty()
    } else {
        let d = to_resolve(upcoming.drop_last(), complete);
        if complete[upcoming.len() - 1] { d } else { d.push(upcoming.last()) }
    }
}

/// Whether `s` is one of `v`.
fn holds(v: &Vec<String>, s: &String) -> (r: bool)
    ensures
        r == views(v@).contains(s@),
{
    let k = chars_of(s.as_str());
    let mut j: usize = 0;
    while j < v.len()
        invariant
            j <= v@.len(),
            k@ == s@,
            forall|m: int| 0 <= m < j ==> (#[trigger] v@[m])@ != s@,
        decreases v@.len() - j,
    {
        let w = chars_of(v[j].as_str());
        if crate::chars::chars_eq(&w, &k) {
            assert(views(v@)[j as int] == s@);
            return true;
        }
        j = j + 1;
    }
    assert forall|m: int| 0 <= m < views(v@).len() implies #[trigger] views(v@)[m] != s@ by {
        assert(views(v@)[m] == v@[m]@);
    }
    false
}

/// The streams of the next two tracks ahead: those opened for others are cancelled, the next
/// one is opened unless it is open or opening, and the one after is resolved unless its sound is
/// wholly on disk (`complete[i]` says so of `upcoming[i]`).
pub fn prefetch_plan(upcoming: &Vec<String>, preloaded: &Vec<String>, preloading: &Vec<String>, complete: &Vec<bool>) -> (p: PrefetchPlan)
    requires
        complete@.len() == upcoming@.len(),
    ensures
        views(p.cancel@) == views(preloaded@).filter(|id: Seq<char>| !views(upcoming@).contains(id)),
        opt_string_view(p.preload) == preload_of(views(upcoming@), views(preloaded@), views(preloading@)),
        views(p.resolve@) == to_resolve(views(upcoming@), complete@),
{
    let mut cancel: Vec<String> = Vec::new();
    let mut i: usize = 0;
    let ghost keep_out = |id: Seq<char>| !views(upcoming@).contains(id);
    while i < preloaded.len()
        invariant
            i <= preloaded@.len(),
            keep_out == (|id: Seq<char>| !views(upcoming@).contains(id)),
            views(cancel@) == views(preloaded@).take(i as int).filter(keep_out),
        decreases preloaded@.len() - i,
    {
        proof {
            let t = views(preloaded@).take(i + 1);
            assert(t.drop_last() =~= views(preloaded@).take(i as int));
            assert(t.last() == preloaded@[i as int]@);
            reveal(Seq::filter);
        }
        if !holds(upcoming, &preloaded[i]) {
            let ghost c0 = cancel@;
            cancel.push(preloaded[i].clone());
            assert(views(cancel@) =~= views(c0).push(preloaded@[i as int]@));
        }
        i = i + 1;
    }
    assert(views(preloaded@).take(preloaded@.len() as int) =~= views(preloaded@));
    let preload = if upcoming.len() > 0 && !holds(preloaded, &upcoming[0]) && !holds(preloading, &upcoming[0]) {
        Some(upcoming[0].clone())
    } else {
        None
    };
    let mut resolve: Vec<String> = Vec::new();
    let mut j: usize = 1;
    if upcoming.len() > 0 {
        assert(views(upcoming@).take(1).len() == 1);
        assert(to_resolve(views(upcoming@).take(1), complete@) == Seq::<Seq<char>>::empty());
    }
    if upcoming.len() == 0 {
        assert(to_resolve(views(upcoming@), complete@) == Seq::<Seq<char>>::empty());
    }
    while j < upcoming.len()
        invariant
            1 <= j,
            j <= upcoming@.len() || upcoming@.len() == 0,
            complete@.len() == upcoming@.len(),
            upcoming@.len() > 0 ==> views(resolve@) == to_resolve(views(upcoming@).take(j as int), complete@),
            upcoming@.len() == 0 ==> resolve@.len() == 0,
        decreases upcoming@.len() - j,
    {
        proof {
            let t = views(upcoming@).take(j + 1);
            assert(t.drop_last() =~= views(upcoming@).take(j as int));
            assert(t.last() == upcoming@[j as int]@);
        }
        if !complete[j] {
            let ghost r0 = resolve@;
            resolve.push(upcoming[j].clone());
            assert(views(resolve@) =~= views(r0).push(upcoming@[j as int]@));
        }
        j = j + 1;
    }
    if upcoming.len() > 0 {
        assert(views(upcoming@).take(upcoming@.len() as int) =~= views(upcoming@));
    } else {
        assert(views(resolve@) =~= Seq::<Seq<char>>::empty());
    }
    PrefetchPlan { cancel, preload, resolve }
}

/// The view of an optional string.
pub open spec fn opt_string_view(s: Option<String>) -> Option<Seq<char>> {
    match s {
        Some(t) => Some(t@),
        None => None,
    }
}

} // verus!
