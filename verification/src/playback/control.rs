//! The player as a state machine: a command (from the window, MPRIS, or the engine's own tasks)
//! changes the queue and the state, and asks for actions: load a stream, play or pause the
//! output, emit the state, save the queue. The app carries the actions out and sends what comes
//! back as further commands; the position is asked of the output and handed in with a command.
use vstd::prelude::*;
use crate::music::{clone_opt_string, Track};
use crate::playback::engine::{PlayerErrorV, 
    autoplay_post, autoplay_seed, autoplay_seed_spec, autoplay_wanted, autoplay_wanted_spec, contains_id, fresh_fold, is_playing,
    on_autoplay, playing_spec, queue_ids, seek_by_spec, seek_by_target, status_after, Autoplay, PipelineState, PlayerError, Status,
};
use crate::playback::resolver::{StreamError, StreamErrorKind};
use crate::queue::{
    add_to_end_post, clear_except_current_post, index_of_id, move_item_post, play_next_post, remove_post, restore_post, set_list_post,
    set_repeat_post, set_single_post, shuffle_post, user_count, PlayQueue, QueueItem, QueueSnapshot, RepeatMode,
};

verus! {

/// What came of loading a track.
#[derive(Debug)]
pub enum LoadOutcome {
    /// The stream opened and the sound output was built; the track lasts `duration_ms`.
    Opened { duration_ms: u64 },
    /// The stream did not open.
    Failed(StreamError),
    /// The sound output could not be built; the message says why.
    OutputFailed(String),
}

/// What the player does next, carried out by the app in order.
#[derive(Debug)]
pub enum Action {
    /// The listening session of the track ends (five seconds of sound make a listen).
    FinishListening,
    /// "Queue replaced · Undo": the previous queue with its position.
    QueueReplaced(QueueSnapshot),
    EmitQueue,
    /// The status changed: the listening time is updated, then the state is emitted.
    StatusChanged,
    EmitState,
    SaveQueue,
    /// The streams of the next tracks are fetched ahead.
    Prefetch,
    /// Similar tracks are asked for: by the continuation, else by the seed.
    LoadAutoplay { continuation: Option<String>, playlist_id: Option<String>, seed: Option<String> },
    /// The sound output is dropped.
    ReleaseOutput,
    /// The stream of the current track is opened; what comes of it returns as `Loaded` with this
    /// generation.
    Load { generation: u64, video_id: String, play: bool },
    Play,
    Pause,
    /// The output seeks (milliseconds).
    SeekOutput(u64),
    /// The position jumped (MPRIS `Seeked`).
    Seeked(u64),
    /// The track was skipped after an error: "Skipped "…": reason".
    Skipped(PlayerError),
    /// The volume is applied anew (normalization follows the stream).
    ApplyVolume,
    /// The stream's address is no longer trusted.
    Invalidate(String),
}

/// An action as plain values.
pub enum ActionV {
    FinishListening,
    QueueReplaced(i64),
    EmitQueue,
    StatusChanged,
    EmitState,
    SaveQueue,
    Prefetch,
    LoadAutoplay { continuation: Option<Seq<char>>, playlist_id: Option<Seq<char>>, seed: Option<Seq<char>> },
    ReleaseOutput,
    Load { generation: u64, video_id: Seq<char>, play: bool },
    Play,
    Pause,
    SeekOutput(u64),
    Seeked(u64),
    Skipped(PlayerErrorV),
    ApplyVolume,
    Invalidate(Seq<char>),
}

impl DeepView for Action {
    type V = ActionV;

    open spec fn deep_view(&self) -> ActionV {
        match self {
            Action::FinishListening => ActionV::FinishListening,
            Action::QueueReplaced(s) => ActionV::QueueReplaced(s.position_ms),
            Action::EmitQueue => ActionV::EmitQueue,
            Action::StatusChanged => ActionV::StatusChanged,
            Action::EmitState => ActionV::EmitState,
            Action::SaveQueue => ActionV::SaveQueue,
            Action::Prefetch => ActionV::Prefetch,
            Action::LoadAutoplay { continuation, playlist_id, seed } => ActionV::LoadAutoplay {
                continuation: continuation.deep_view(),
                playlist_id: playlist_id.deep_view(),
                seed: seed.deep_view(),
            },
            Action::ReleaseOutput => ActionV::ReleaseOutput,
            Action::Load { generation, video_id, play } => ActionV::Load { generation: *generation, video_id: video_id@, play: *play },
            Action::Play => ActionV::Play,
            Action::Pause => ActionV::Pause,
            Action::SeekOutput(ms) => ActionV::SeekOutput(*ms),
            Action::Seeked(ms) => ActionV::Seeked(*ms),
            Action::Skipped(e) => ActionV::Skipped(e.deep_view()),
            Action::ApplyVolume => ActionV::ApplyVolume,
            Action::Invalidate(id) => ActionV::Invalidate(id@),
        }
    }
}

/// The actions as plain values.
pub open spec fn acts(v: Seq<Action>) -> Seq<ActionV> {
    v.map_values(|a: Action| a.deep_view())
}

/// The current item of a queue.
pub open spec fn current_item(q: PlayQueue) -> Option<QueueItem> {
    match q.queue_current() {
        Some(c) => if c < q.queue_items().len() { Some(q.queue_items()[c as int]) } else { None },
        None => None,
    }
}

/// The video id of the current item.
pub open spec fn current_id(q: PlayQueue) -> Option<Seq<char>> {
    match current_item(q) {
        Some(i) => Some(i.track.video_id@),
        None => None,
    }
}

/// The player: its queue and state.
#[derive(Debug)]
pub struct Engine {
    pub queue: PlayQueue,
    pub status: Status,
    /// Meant to play as soon as the output can.
    pub play_when_ready: bool,
    /// A sound output is built.
    pub has_output: bool,
    /// Counts the loads: what comes back of an older load is stale.
    pub generation: u64,
    pub error: Option<PlayerError>,
    pub skips_in_row: u32,
    /// Where the track starts while there is no output (a restored queue, a seek while loading).
    pub pending_start_ms: u64,
    /// The length of the open stream.
    pub duration_ms: Option<u64>,
    /// The tracks that played this session: autoplay does not bring them again.
    pub played: Vec<String>,
    pub autoplay: Autoplay,
    pub autoplay_enabled: bool,
}

/// The state after a load started: a fresh generation, the start (the pending one where none is
/// given), no output, no error, getting the stream.
pub open spec fn loading(e: Engine, play: bool, start_ms: u64) -> Engine {
    Engine {
        generation: (e.generation + 1) as u64,
        pending_start_ms: if start_ms == 0 { e.pending_start_ms } else { start_ms },
        play_when_ready: play,
        error: None,
        has_output: false,
        duration_ms: None,
        status: Status::Resolving,
        ..e
    }
}

/// The actions of a load: the output goes, the new status is told, the stream is opened.
pub open spec fn load_acts(e: Engine, play: bool) -> Seq<ActionV> {
    match current_id(e.queue) {
        Some(id) => seq![
            ActionV::ReleaseOutput,
            ActionV::StatusChanged,
            ActionV::Load { generation: (e.generation + 1) as u64, video_id: id, play },
        ],
        None => seq![ActionV::ReleaseOutput, ActionV::StatusChanged],
    }
}

/// The state after loading the current track: nothing current is idle without output.
pub open spec fn loaded_state(e: Engine, play: bool, start_ms: u64) -> Engine {
    match current_id(e.queue) {
        Some(_) => loading(e, play, start_ms),
        None => Engine { generation: (e.generation + 1) as u64, has_output: false, status: Status::Idle, ..e },
    }
}

impl Engine {
    /// What the engine needs to take a command: a sound queue and counters with room.
    pub open spec fn ready(&self) -> bool {
        &&& self.queue.wf()
        &&& self.generation < u64::MAX
        &&& self.skips_in_row < u32::MAX
        &&& self.autoplay.seeds_without_new < u32::MAX
    }

    pub fn new(autoplay_enabled: bool) -> (e: Engine)
        ensures
            e.ready(),
            e.queue.queue_items().len() == 0,
            e.queue.queue_current() is None,
            e.status == Status::Idle,
            !e.play_when_ready,
            !e.has_output,
            e.generation == 0,
            e.error is None,
            e.skips_in_row == 0,
            e.pending_start_ms == 0,
            e.played@.len() == 0,
            e.autoplay_enabled == autoplay_enabled,
    {
        Engine {
            queue: PlayQueue::new(),
            status: Status::Idle,
            play_when_ready: false,
            has_output: false,
            generation: 0,
            error: None,
            skips_in_row: 0,
            pending_start_ms: 0,
            duration_ms: None,
            played: Vec::new(),
            autoplay: Autoplay::new(),
            autoplay_enabled,
        }
    }

    fn current_video_id(&self) -> (r: Option<String>)
        ensures
            r.deep_view() == current_id(self.queue),
    {
        match self.queue.current() {
            Some(item) => Some(item.track.video_id.clone()),
            None => None,
        }
    }

    /// Loads the current track (none: stops idle).
    pub fn load_current(&mut self, play: bool, start_ms: u64, out: &mut Vec<Action>)
        requires
            old(self).generation < u64::MAX,
        ensures
            *final(self) == loaded_state(*old(self), play, start_ms),
            acts(final(out)@) == acts(old(out)@) + load_acts(*old(self), play),
            final(out)@.take(old(out)@.len() as int) == old(out)@,
    {
        self.generation = self.generation + 1;
        let id = self.current_video_id();
        match id {
            None => {
                self.has_output = false;
                self.status = Status::Idle;
                out.push(Action::ReleaseOutput);
                out.push(Action::StatusChanged);
                proof {
                    assert(acts(out@) =~= acts(old(out)@) + load_acts(*old(self), play));
                    assert(out@.take(old(out)@.len() as int) =~= old(out)@);
                }
            },
            Some(video_id) => {
                if start_ms != 0 {
                    self.pending_start_ms = start_ms;
                }
                self.play_when_ready = play;
                self.error = None;
                self.has_output = false;
                self.duration_ms = None;
                self.status = Status::Resolving;
                out.push(Action::ReleaseOutput);
                out.push(Action::StatusChanged);
                out.push(Action::Load { generation: self.generation, video_id, play });
                proof {
                    assert(acts(out@) =~= acts(old(out)@) + load_acts(*old(self), play));
                    assert(out@.take(old(out)@.len() as int) =~= old(out)@);
                }
            },
        }
    }
}


/// The queue moved to `index`; nothing else about it changed.
pub open spec fn moved_to(q0: PlayQueue, q1: PlayQueue, index: Option<usize>) -> bool {
    &&& q1.wf()
    &&& q1.queue_current() == index
    &&& q1.queue_items() == q0.queue_items()
    &&& q1.queue_shuffle() == q0.queue_shuffle()
    &&& q1.queue_repeat() == q0.queue_repeat()
    &&& q1.queue_next_id() == q0.queue_next_id()
}

/// Autoplay from scratch.
pub open spec fn no_autoplay() -> Autoplay {
    Autoplay { loading: false, continuation: None, playlist_id: None, seed: None, seeds_without_new: 0 }
}

/// Whether similar tracks are asked for now.
pub open spec fn wants_autoplay(e: Engine) -> bool {
    autoplay_wanted_spec(&e.autoplay, e.autoplay_enabled, &e.queue)
}

/// The state after asking for similar tracks where they are wanted: loading.
pub open spec fn autoplay_asked(e: Engine) -> Engine {
    if wants_autoplay(e) {
        Engine { autoplay: Autoplay { loading: true, ..e.autoplay }, ..e }
    } else {
        e
    }
}

/// The request for similar tracks, where they are wanted.
pub open spec fn autoplay_acts(e: Engine) -> Seq<ActionV> {
    if wants_autoplay(e) {
        seq![
            ActionV::LoadAutoplay {
                continuation: e.autoplay.continuation.deep_view(),
                playlist_id: e.autoplay.playlist_id.deep_view(),
                seed: autoplay_seed_spec(&e.autoplay, &e.queue),
            },
        ]
    } else {
        Seq::empty()
    }
}

/// After the queue changed: it and the state are emitted, the next streams fetched, similar
/// tracks asked for where wanted, the queue saved.
pub open spec fn after_change_acts(e: Engine) -> Seq<ActionV> {
    seq![ActionV::EmitQueue, ActionV::EmitState, ActionV::Prefetch] + autoplay_acts(e) + seq![ActionV::SaveQueue]
}

/// The queue changed and another track loads at once.
pub open spec fn change_and_load_acts(e: Engine) -> Seq<ActionV> {
    seq![ActionV::EmitQueue, ActionV::SaveQueue] + load_acts(e, true)
}

/// A position in milliseconds, none counted as the start.
pub open spec fn position_or_zero(position_ms: Option<u64>) -> u64 {
    match position_ms {
        Some(p) => p,
        None => 0,
    }
}

/// The actions of a queue's replacement: the listening ends, and where the queue held two or
/// more of the user's tracks, "Queue replaced · Undo" with the position.
pub open spec fn replace_acts(e: Engine, position_ms: Option<u64>) -> Seq<ActionV> {
    seq![ActionV::FinishListening] + if user_count(e.queue.queue_items()) >= 2 {
        seq![ActionV::QueueReplaced(position_or_zero(position_ms) as i64)]
    } else {
        Seq::empty()
    }
}

/// The state after an error was taken: kept, and one more skip in a row.
pub open spec fn with_error(e: Engine, err: PlayerError) -> Engine {
    Engine { error: Some(err), skips_in_row: (e.skips_in_row + 1) as u32, ..e }
}

/// After an error playback stops: at the third skip in a row, or with nothing next.
pub open spec fn stops_on_error(e: Engine) -> bool {
    e.skips_in_row + 1 >= 3 || e.queue.next_index(true) is None
}

/// The state after playback stopped on an error.
pub open spec fn stopped(e: Engine) -> Engine {
    Engine { play_when_ready: false, has_output: false, status: Status::Error, ..e }
}

/// A skip after an error, stated over the queue `q1` it leaves.
pub open spec fn skip_post(e0: Engine, err: PlayerError, e1: Engine) -> bool {
    let e = with_error(e0, err);
    if stops_on_error(e0) {
        e1 == stopped(e)
    } else {
        &&& moved_to(e0.queue, e1.queue, e0.queue.next_index(true))
        &&& e1 == loaded_state(Engine { queue: e1.queue, ..e }, true, 0)
    }
}

/// The actions of a skip after an error.
pub open spec fn skip_acts(e0: Engine, err: PlayerError, e1: Engine) -> Seq<ActionV> {
    let e = with_error(e0, err);
    if stops_on_error(e0) {
        seq![ActionV::ReleaseOutput, ActionV::StatusChanged]
    } else {
        seq![ActionV::Skipped(err.deep_view())] + change_and_load_acts(
            Engine { queue: e1.queue, ..e },
        )
    }
}

fn copy_error(e: &PlayerError) -> (r: PlayerError)
    ensures
        r.deep_view() == e.deep_view(),
{
    let track = e.track.clone();
    assert(track.artists.deep_view() =~= e.track.artists.deep_view());
    let r = PlayerError {
        kind: e.kind,
        message: e.message.clone(),
        track,
        country: clone_opt_string(&e.country),
        open_countries: e.open_countries,
    };
    assert(r.country.deep_view() == e.country.deep_view());
    r
}

impl Engine {
    /// The status changes; the listening time follows and the state is emitted.
    pub fn set_status(&mut self, status: Status, out: &mut Vec<Action>)
        ensures
            *final(self) == (Engine { status, ..*old(self) }),
            acts(final(out)@) == acts(old(out)@).push(ActionV::StatusChanged),
    {
        self.status = status;
        out.push(Action::StatusChanged);
        assert(acts(out@) =~= acts(old(out)@).push(ActionV::StatusChanged));
    }

    /// Similar tracks are asked for where they are wanted.
    pub fn maybe_autoplay(&mut self, out: &mut Vec<Action>)
        requires
            old(self).queue.wf(),
        ensures
            *final(self) == autoplay_asked(*old(self)),
            acts(final(out)@) == acts(old(out)@) + autoplay_acts(*old(self)),
    {
        if !autoplay_wanted(&self.autoplay, self.autoplay_enabled, &self.queue) {
            assert(acts(out@) =~= acts(old(out)@) + autoplay_acts(*old(self)));
            return;
        }
        let seed = autoplay_seed(&self.autoplay, &self.queue);
        self.autoplay.loading = true;
        let continuation = clone_opt_string(&self.autoplay.continuation);
        let playlist_id = clone_opt_string(&self.autoplay.playlist_id);
        out.push(Action::LoadAutoplay { continuation, playlist_id, seed });
        assert(acts(out@) =~= acts(old(out)@) + autoplay_acts(*old(self)));
    }

    /// After the queue changed.
    pub fn after_queue_change(&mut self, out: &mut Vec<Action>)
        requires
            old(self).queue.wf(),
        ensures
            *final(self) == autoplay_asked(*old(self)),
            acts(final(out)@) == acts(old(out)@) + after_change_acts(*old(self)),
    {
        out.push(Action::EmitQueue);
        out.push(Action::EmitState);
        out.push(Action::Prefetch);
        let ghost mid = acts(out@);
        assert(mid =~= acts(old(out)@) + seq![ActionV::EmitQueue, ActionV::EmitState, ActionV::Prefetch]);
        self.maybe_autoplay(out);
        let ghost after = acts(out@);
        out.push(Action::SaveQueue);
        assert(acts(out@) =~= after.push(ActionV::SaveQueue));
        assert(acts(out@) =~= acts(old(out)@) + after_change_acts(*old(self)));
    }

    /// The queue changed and another track loads at once: the state tells of the load, not of
    /// the new track playing from the old position.
    pub fn queue_changed_then_load(&mut self, start_ms: u64, out: &mut Vec<Action>)
        requires
            old(self).generation < u64::MAX,
        ensures
            *final(self) == loaded_state(*old(self), true, start_ms),
            acts(final(out)@) == acts(old(out)@) + change_and_load_acts(*old(self)),
            final(out)@.take(old(out)@.len() as int) == old(out)@,
    {
        out.push(Action::EmitQueue);
        out.push(Action::SaveQueue);
        let ghost mid = out@;
        assert(mid.take(old(out)@.len() as int) =~= old(out)@);
        self.load_current(true, start_ms, out);
        assert(acts(out@) =~= acts(old(out)@) + change_and_load_acts(*old(self)));
        assert(out@.take(old(out)@.len() as int) =~= old(out)@) by {
            assert(out@.take(mid.len() as int) == mid);
            assert forall|i: int| 0 <= i < old(out)@.len() implies out@[i] == old(out)@[i] by {
                assert(out@.take(mid.len() as int)[i] == out@[i]);
            }
        }
    }

    /// Before the queue is replaced: the listening ends, autoplay starts over, and a queue of two
    /// or more of the user's tracks can be brought back.
    pub fn before_replace(&mut self, position_ms: Option<u64>, out: &mut Vec<Action>)
        requires
            old(self).queue.wf(),
            position_ms matches Some(p) ==> p <= i64::MAX,
        ensures
            *final(self) == (Engine { autoplay: no_autoplay(), ..*old(self) }),
            acts(final(out)@) == acts(old(out)@) + replace_acts(*old(self), position_ms),
            forall|i: int|
                old(out)@.len() <= i < final(out)@.len() ==> (#[trigger] final(out)@[i] matches Action::QueueReplaced(s) ==> s.saves(
                    &old(self).queue,
                    position_or_zero(position_ms) as i64,
                )),
    {
        out.push(Action::FinishListening);
        self.autoplay = Autoplay::new();
        if self.queue.user_added_count() >= 2 {
            let position: i64 = match position_ms {
                Some(p) => p as i64,
                None => 0,
            };
            out.push(Action::QueueReplaced(self.queue.snapshot(position)));
        }
        assert(acts(out@) =~= acts(old(out)@) + replace_acts(*old(self), position_ms));
    }

    /// Skips the track after an error; at the third skip in a row, or with nothing next,
    /// playback stops with the reason.
    pub fn skip_after_error(&mut self, err: PlayerError, out: &mut Vec<Action>)
        requires
            old(self).ready(),
        ensures
            skip_post(*old(self), err, *final(self)),
            acts(final(out)@) == acts(old(out)@) + skip_acts(*old(self), err, *final(self)),
    {
        let skipped = copy_error(&err);
        self.error = Some(err);
        self.skips_in_row = self.skips_in_row + 1;
        if self.skips_in_row >= 3 || self.queue.peek_next(true).is_none() {
            self.play_when_ready = false;
            self.has_output = false;
            out.push(Action::ReleaseOutput);
            self.set_status(Status::Error, out);
            assert(acts(out@) =~= acts(old(out)@) + skip_acts(*old(self), err, *self));
            return;
        }
        out.push(Action::Skipped(skipped));
        let ghost mid = acts(out@);
        self.queue.move_next(true);
        self.queue_changed_then_load(0, out);
        assert(acts(out@) =~= acts(old(out)@) + skip_acts(*old(self), err, *self));
    }
}


/// The start of a load asked for by play or retry: the position, else the pending start.
pub open spec fn start_or_pending(e: Engine, position_ms: Option<u64>) -> u64 {
    match position_ms {
        Some(p) => p,
        None => e.pending_start_ms,
    }
}

/// "Play" needs a stream anew after an error, when idle, or without output.
pub open spec fn play_reloads(e: Engine) -> bool {
    e.status == Status::Error || e.status == Status::Idle || !e.has_output
}

/// The state after "play".
pub open spec fn play_state(e: Engine, position_ms: Option<u64>) -> Engine {
    if current_item(e.queue) is None {
        e
    } else if play_reloads(e) {
        loaded_state(e, true, start_or_pending(e, position_ms))
    } else {
        Engine { play_when_ready: true, ..e }
    }
}

/// The actions of "play".
pub open spec fn play_acts(e: Engine) -> Seq<ActionV> {
    if current_item(e.queue) is None {
        Seq::empty()
    } else if play_reloads(e) {
        load_acts(e, true)
    } else {
        seq![ActionV::Play, ActionV::EmitState]
    }
}

/// The state after "pause": not meant to play.
pub open spec fn pause_state(e: Engine) -> Engine {
    Engine { play_when_ready: false, ..e }
}

/// The actions of "pause": the output pauses; the state is emitted while the stream is still
/// coming or there is no output (else the output's own change tells it).
pub open spec fn pause_acts(e: Engine) -> Seq<ActionV> {
    (if e.has_output { seq![ActionV::Pause] } else { Seq::empty() }) + if e.status == Status::Resolving || !e.has_output {
        seq![ActionV::EmitState]
    } else {
        Seq::empty()
    }
}

/// The state after a seek: without output the position waits for the next one.
pub open spec fn seek_state(e: Engine, position_ms: u64) -> Engine {
    if e.has_output {
        e
    } else {
        Engine { pending_start_ms: position_ms, ..e }
    }
}

/// The actions of a seek.
pub open spec fn seek_acts(e: Engine, position_ms: u64) -> Seq<ActionV> {
    (if e.has_output { seq![ActionV::SeekOutput(position_ms), ActionV::Seeked(position_ms)] } else { Seq::empty() })
        + seq![ActionV::EmitState]
}

/// Where a relative seek lands.
pub open spec fn seek_by_target_of(e: Engine, delta_ms: i64, position_ms: Option<u64>) -> u64 {
    seek_by_spec(position_or_zero(position_ms) as int, delta_ms as int, match e.duration_ms {
        Some(d) => Some(d as int),
        None => None,
    }) as u64
}

/// "Next" (by the user or at the end of a track), over the queue `e1.queue` it leaves.
pub open spec fn next_post(e0: Engine, user_action: bool, e1: Engine) -> bool {
    let e = Engine { skips_in_row: 0, ..e0 };
    match e0.queue.next_index(user_action) {
        None => {
            &&& moved_to(e0.queue, e1.queue, e0.queue.queue_current())
            &&& e1 == (Engine { queue: e1.queue, play_when_ready: false, status: Status::Paused, ..e })
        },
        Some(i) => {
            &&& moved_to(e0.queue, e1.queue, Some(i))
            &&& e1 == loaded_state(Engine { queue: e1.queue, ..e }, true, 0)
        },
    }
}

/// The actions of "next": at the end of the queue the output stops at the start of the last
/// track.
pub open spec fn next_acts(e0: Engine, user_action: bool, e1: Engine) -> Seq<ActionV> {
    let e = Engine { skips_in_row: 0, ..e0 };
    seq![ActionV::FinishListening] + match e0.queue.next_index(user_action) {
        None => (if e0.has_output { seq![ActionV::Pause, ActionV::SeekOutput(0)] } else { Seq::empty() }) + seq![
            ActionV::StatusChanged,
        ],
        Some(_) => change_and_load_acts(Engine { queue: e1.queue, ..e }),
    }
}

/// "Previous" past 3 s goes to the start of the track, as it does with nothing before.
pub open spec fn previous_restarts(e: Engine, position_ms: Option<u64>) -> bool {
    (position_ms matches Some(p) && p > 3000) || e.queue.previous_index() is None
}

pub open spec fn previous_post(e0: Engine, position_ms: Option<u64>, e1: Engine) -> bool {
    if previous_restarts(e0, position_ms) {
        &&& moved_to(e0.queue, e1.queue, e0.queue.queue_current())
        &&& e1 == seek_state(Engine { queue: e1.queue, ..e0 }, 0)
    } else {
        &&& moved_to(e0.queue, e1.queue, e0.queue.previous_index())
        &&& e1 == loaded_state(Engine { queue: e1.queue, ..e0 }, true, 0)
    }
}

pub open spec fn previous_acts(e0: Engine, position_ms: Option<u64>, e1: Engine) -> Seq<ActionV> {
    if previous_restarts(e0, position_ms) {
        seek_acts(e0, 0)
    } else {
        seq![ActionV::FinishListening] + change_and_load_acts(Engine { queue: e1.queue, ..e0 })
    }
}

/// Whether the queue holds an item with this id.
pub open spec fn holds_id(q: PlayQueue, id: i64) -> bool {
    index_of_id(q.queue_items(), id) < q.queue_items().len()
}

pub open spec fn jump_post(e0: Engine, id: i64, e1: Engine) -> bool {
    if holds_id(e0.queue, id) {
        &&& moved_to(e0.queue, e1.queue, Some(index_of_id(e0.queue.queue_items(), id) as usize))
        &&& e1 == loaded_state(Engine { queue: e1.queue, ..e0 }, true, 0)
    } else {
        &&& moved_to(e0.queue, e1.queue, e0.queue.queue_current())
        &&& e1 == (Engine { queue: e1.queue, ..e0 })
    }
}

pub open spec fn jump_acts(e0: Engine, id: i64, e1: Engine) -> Seq<ActionV> {
    seq![ActionV::FinishListening] + if holds_id(e0.queue, id) {
        change_and_load_acts(Engine { queue: e1.queue, ..e0 })
    } else {
        Seq::empty()
    }
}

/// `err` is the error of the track `track` from `error`.
pub open spec fn error_of(err: PlayerError, error: StreamError, track: Track) -> bool {
    &&& err.kind == error.kind
    &&& err.message@ == error.message@
    &&& err.track.same_as(&track)
    &&& err.country.deep_view() == error.country.deep_view()
    &&& err.open_countries == error.open_countries
}

/// `err` is an error of `kind` with `message` for the track `track`, with no country.
pub open spec fn plain_error(err: PlayerError, kind: StreamErrorKind, message: Seq<char>, track: Track) -> bool {
    &&& err.kind == kind
    &&& err.message@ == message
    &&& err.track.same_as(&track)
    &&& err.country is None
    &&& err.open_countries is None
}

/// The track is counted as played this session (once).
pub open spec fn played_after(played: Seq<String>, known: Seq<Seq<char>>, id: String) -> Seq<String> {
    if known.contains(id@) {
        played
    } else {
        played.push(id)
    }
}

/// The actions once a stream opened: the volume, play or pause, the new status, the next
/// streams, similar tracks where wanted.
pub open spec fn opened_acts(e: Engine) -> Seq<ActionV> {
    seq![ActionV::ApplyVolume, if e.play_when_ready { ActionV::Play } else { ActionV::Pause }, ActionV::StatusChanged, ActionV::Prefetch]
}

/// What a settled load does, over the state `e1` it leaves; `None` outcome where the load is
/// stale or nothing is current.
pub open spec fn loaded_post(e0: Engine, generation: u64, outcome: LoadOutcome, e1: Engine, a: Seq<ActionV>) -> bool {
    if generation != e0.generation || current_item(e0.queue) is None {
        e1 == e0 && a == Seq::<ActionV>::empty()
    } else {
        let track = current_item(e0.queue)->0.track;
        match outcome {
            LoadOutcome::Failed(error) => exists|err: PlayerError|
                error_of(err, error, track) && #[trigger] skip_post(e0, err, e1) && a == skip_acts(e0, err, e1),
            LoadOutcome::OutputFailed(message) => {
                let e = Engine { pending_start_ms: 0, ..e0 };
                exists|err: PlayerError|
                    plain_error(err, StreamErrorKind::Extractor, message@, track) && #[trigger] skip_post(e, err, e1) && a
                        == skip_acts(e, err, e1)
            },
            LoadOutcome::Opened { duration_ms } => {
                let e = Engine {
                    pending_start_ms: 0,
                    has_output: true,
                    duration_ms: Some(duration_ms),
                    skips_in_row: 0,
                    played: e1.played,
                    status: if e0.play_when_ready { Status::Buffering } else { Status::Paused },
                    ..e0
                };
                &&& e1.played@ == played_after(e0.played@, e0.played.deep_view(), track.video_id)
                &&& e1 == autoplay_asked(e)
                &&& a == opened_acts(e0) + autoplay_acts(e)
            },
        }
    }
}

impl Engine {
    /// "Play": after an error, when idle or without output, the track loads anew.
    pub fn play(&mut self, position_ms: Option<u64>, out: &mut Vec<Action>)
        requires
            old(self).generation < u64::MAX,
        ensures
            *final(self) == play_state(*old(self), position_ms),
            acts(final(out)@) == acts(old(out)@) + play_acts(*old(self)),
    {
        if self.queue.current().is_none() {
            assert(acts(out@) =~= acts(old(out)@) + play_acts(*old(self)));
            return;
        }
        let reload = match self.status {
            Status::Error | Status::Idle => true,
            _ => !self.has_output,
        };
        if reload {
            let start = match position_ms {
                Some(p) => p,
                None => self.pending_start_ms,
            };
            self.load_current(true, start, out);
            return;
        }
        self.play_when_ready = true;
        out.push(Action::Play);
        out.push(Action::EmitState);
        assert(acts(out@) =~= acts(old(out)@) + play_acts(*old(self)));
    }

    pub fn pause(&mut self, out: &mut Vec<Action>)
        ensures
            *final(self) == pause_state(*old(self)),
            acts(final(out)@) == acts(old(out)@) + pause_acts(*old(self)),
    {
        self.play_when_ready = false;
        if self.has_output {
            out.push(Action::Pause);
        }
        let ghost mid = acts(out@);
        assert(mid =~= acts(old(out)@) + if old(self).has_output { seq![ActionV::Pause] } else { Seq::<ActionV>::empty() });
        if self.status == Status::Resolving || !self.has_output {
            out.push(Action::EmitState);
        }
        assert(acts(out@) =~= acts(old(out)@) + pause_acts(*old(self)));
    }

    /// Seeks; without output the position waits for the next load.
    pub fn seek(&mut self, position_ms: u64, out: &mut Vec<Action>)
        ensures
            *final(self) == seek_state(*old(self), position_ms),
            acts(final(out)@) == acts(old(out)@) + seek_acts(*old(self), position_ms),
    {
        if self.has_output {
            out.push(Action::SeekOutput(position_ms));
            out.push(Action::Seeked(position_ms));
        } else {
            self.pending_start_ms = position_ms;
        }
        out.push(Action::EmitState);
        assert(acts(out@) =~= acts(old(out)@) + seek_acts(*old(self), position_ms));
    }

    /// A relative seek (Shift+← →, MPRIS `Seek`): not before the start, not past half a second
    /// before the end.
    pub fn seek_by(&mut self, delta_ms: i64, position_ms: Option<u64>, out: &mut Vec<Action>)
        requires
            old(self).duration_ms matches Some(d) ==> d <= i64::MAX,
            position_ms matches Some(p) ==> p <= i64::MAX,
            i64::MIN <= position_or_zero(position_ms) + delta_ms <= i64::MAX,
        ensures
            *final(self) == seek_state(*old(self), seek_by_target_of(*old(self), delta_ms, position_ms)),
            acts(final(out)@) == acts(old(out)@) + seek_acts(*old(self), seek_by_target_of(*old(self), delta_ms, position_ms)),
    {
        let position: i64 = match position_ms {
            Some(p) => p as i64,
            None => 0,
        };
        let duration: Option<i64> = match self.duration_ms {
            Some(d) => Some(d as i64),
            None => None,
        };
        let target = seek_by_target(position, delta_ms, duration);
        self.seek(target, out);
    }

    /// "Next"; at the end of the queue (no autoplay) playback stops at the start of the last
    /// track.
    pub fn next(&mut self, user_action: bool, out: &mut Vec<Action>)
        requires
            old(self).queue.wf(),
            old(self).generation < u64::MAX,
        ensures
            next_post(*old(self), user_action, *final(self)),
            acts(final(out)@) == acts(old(out)@) + next_acts(*old(self), user_action, *final(self)),
    {
        out.push(Action::FinishListening);
        self.skips_in_row = 0;
        let ghost mid = acts(out@);
        if !self.queue.move_next(user_action) {
            if self.has_output {
                out.push(Action::Pause);
                out.push(Action::SeekOutput(0));
            }
            self.play_when_ready = false;
            self.set_status(Status::Paused, out);
            assert(acts(out@) =~= acts(old(out)@) + next_acts(*old(self), user_action, *self));
            return;
        }
        self.queue_changed_then_load(0, out);
        assert(acts(out@) =~= acts(old(out)@) + next_acts(*old(self), user_action, *self));
    }

    /// "Previous": past 3 s back to the start of the track.
    pub fn previous(&mut self, position_ms: Option<u64>, out: &mut Vec<Action>)
        requires
            old(self).queue.wf(),
            old(self).generation < u64::MAX,
        ensures
            previous_post(*old(self), position_ms, *final(self)),
            acts(final(out)@) == acts(old(out)@) + previous_acts(*old(self), position_ms, *final(self)),
    {
        let late = match position_ms {
            Some(p) => p > 3000,
            None => false,
        };
        if late || !self.queue.move_previous() {
            self.seek(0, out);
            return;
        }
        out.push(Action::FinishListening);
        self.queue_changed_then_load(0, out);
        assert(acts(out@) =~= acts(old(out)@) + previous_acts(*old(self), position_ms, *self));
    }

    /// Plays the item with this id.
    pub fn jump_to(&mut self, id: i64, out: &mut Vec<Action>)
        requires
            old(self).queue.wf(),
            old(self).generation < u64::MAX,
        ensures
            jump_post(*old(self), id, *final(self)),
            acts(final(out)@) == acts(old(out)@) + jump_acts(*old(self), id, *final(self)),
    {
        out.push(Action::FinishListening);
        if self.queue.jump_to(id) {
            self.queue_changed_then_load(0, out);
        }
        assert(acts(out@) =~= acts(old(out)@) + jump_acts(*old(self), id, *self));
    }
}


/// The status that a change of the pipeline's state gives, if any.
pub open spec fn status_after_spec(state: PipelineState, play_when_ready: bool) -> Option<Status> {
    match state {
        PipelineState::Playing => Some(Status::Playing),
        PipelineState::Paused => Some(if play_when_ready { Status::Buffering } else { Status::Paused }),
        _ => None,
    }
}

/// The state after the pipeline changed state; playing clears the error.
pub open spec fn pipeline_state(e: Engine, generation: u64, state: PipelineState) -> Engine {
    if generation != e.generation {
        e
    } else {
        match status_after_spec(state, e.play_when_ready) {
            Some(s) => Engine { status: s, error: if s == Status::Playing { None } else { e.error }, ..e },
            None => e,
        }
    }
}

pub open spec fn pipeline_acts(e: Engine, generation: u64, state: PipelineState) -> Seq<ActionV> {
    if generation == e.generation && status_after_spec(state, e.play_when_ready) is Some {
        seq![ActionV::StatusChanged]
    } else {
        Seq::empty()
    }
}

/// What an error of the pipeline does: the stream's address is dropped; the first time the track
/// loads again from where it was, after that it is skipped.
pub open spec fn pipeline_error_post(
    e0: Engine,
    generation: u64,
    message: Seq<char>,
    position_ms: Option<u64>,
    e1: Engine,
    a: Seq<ActionV>,
) -> bool {
    if generation != e0.generation || current_item(e0.queue) is None {
        e1 == e0 && a == Seq::<ActionV>::empty()
    } else {
        let track = current_item(e0.queue)->0.track;
        if e0.error is None {
            &&& e1 == loaded_state(e0, e0.play_when_ready, position_or_zero(position_ms))
            &&& a == seq![ActionV::Invalidate(track.video_id@)] + load_acts(e0, e0.play_when_ready)
        } else {
            exists|err: PlayerError|
                plain_error(err, StreamErrorKind::Network, message, track) && #[trigger] skip_post(e0, err, e1) && a == seq![
                    ActionV::Invalidate(track.video_id@),
                ] + skip_acts(e0, err, e1)
        }
    }
}

/// The state after new settings: autoplay on or off, and asked for where now wanted.
pub open spec fn settings_state(e: Engine, autoplay: bool) -> Engine {
    let e1 = Engine { autoplay_enabled: autoplay, ..e };
    if autoplay {
        autoplay_asked(e1)
    } else {
        e1
    }
}

/// The actions of new settings: the volume and the state; a new speed seeks the output to where
/// it is.
pub open spec fn settings_acts(e: Engine, autoplay: bool, speed_changed: bool, position_ms: Option<u64>) -> Seq<ActionV> {
    let e1 = Engine { autoplay_enabled: autoplay, ..e };
    seq![ActionV::ApplyVolume, ActionV::EmitState] + (if speed_changed && e.has_output && position_ms is Some {
        seq![ActionV::SeekOutput(position_ms->0)]
    } else {
        Seq::empty()
    }) + if autoplay {
        autoplay_acts(e1)
    } else {
        Seq::empty()
    }
}

/// What similar tracks that came in do to the player.
pub open spec fn autoplay_loaded_post(
    e0: Engine,
    tracks: Seq<Track>,
    continuation: Option<String>,
    playlist_id: Option<String>,
    seed: Option<String>,
    e1: Engine,
    a: Seq<ActionV>,
) -> bool {
    let added = fresh_fold(tracks, queue_ids(e0.queue.queue_items()), e0.played.deep_view()).len() > 0;
    &&& autoplay_post(e0.autoplay, e0.queue, e1.autoplay, e1.queue, tracks, continuation, playlist_id, seed, e0.played.deep_view(), added)
    &&& e1 == (Engine { queue: e1.queue, autoplay: e1.autoplay, ..e0 })
    &&& a == if added {
        seq![ActionV::EmitQueue, ActionV::EmitState, ActionV::Prefetch, ActionV::SaveQueue]
    } else {
        Seq::<ActionV>::empty()
    }
}

/// The actions appended to `out0` in `out1`.
pub open spec fn appended(out0: Seq<Action>, out1: Seq<Action>) -> Seq<ActionV> {
    acts(out1).skip(out0.len() as int)
}

/// `out1` is `out0` with actions appended.
pub open spec fn extends(out0: Seq<Action>, out1: Seq<Action>) -> bool {
    out0.len() <= out1.len() && acts(out1) == acts(out0) + appended(out0, out1)
}

proof fn lemma_extends(out0: Seq<Action>, out1: Seq<Action>, a: Seq<ActionV>)
    requires
        acts(out1) == acts(out0) + a,
    ensures
        extends(out0, out1),
        appended(out0, out1) == a,
{
    assert(acts(out1).len() == out1.len());
    assert(acts(out0).len() == out0.len());
    assert(acts(out1).skip(out0.len() as int) =~= a);
}

impl Engine {
    /// A load settled: a stale one (an older generation) or one with nothing current changes
    /// nothing; a failed one skips the track; an opened one plays or pauses as meant.
    pub fn on_loaded(&mut self, generation: u64, outcome: LoadOutcome, out: &mut Vec<Action>)
        requires
            old(self).ready(),
        ensures
            extends(old(out)@, final(out)@),
            loaded_post(*old(self), generation, outcome, *final(self), appended(old(out)@, final(out)@)),
    {
        if generation != self.generation || self.queue.current().is_none() {
            proof {
                lemma_extends(old(out)@, out@, Seq::empty());
            }
            return;
        }
        let ghost track = current_item(self.queue)->0.track;
        match outcome {
            LoadOutcome::Failed(error) => {
                let err = PlayerError::from(&error, &self.queue.current().unwrap().track);
                let ghost g = err;
                self.skip_after_error(err, out);
                proof {
                    lemma_extends(old(out)@, out@, skip_acts(*old(self), g, *self));
                    assert(skip_post(*old(self), g, *self));
                }
            },
            LoadOutcome::OutputFailed(message) => {
                let error = StreamError::new(StreamErrorKind::Extractor, message.as_str());
                let err = PlayerError::from(&error, &self.queue.current().unwrap().track);
                let ghost g = err;
                self.pending_start_ms = 0;
                let ghost e = *self;
                self.skip_after_error(err, out);
                proof {
                    lemma_extends(old(out)@, out@, skip_acts(e, g, *self));
                    assert(skip_post(e, g, *self));
                }
            },
            LoadOutcome::Opened { duration_ms } => {
                let id = self.queue.current().unwrap().track.video_id.clone();
                self.pending_start_ms = 0;
                self.has_output = true;
                self.duration_ms = Some(duration_ms);
                out.push(Action::ApplyVolume);
                let ghost a1 = acts(out@);
                assert(a1 =~= acts(old(out)@).push(ActionV::ApplyVolume));
                self.skips_in_row = 0;
                if !contains_id(&self.played, &id) {
                    self.played.push(id);
                }
                if self.play_when_ready {
                    out.push(Action::Play);
                    assert(acts(out@) =~= a1.push(ActionV::Play));
                    self.set_status(Status::Buffering, out);
                } else {
                    out.push(Action::Pause);
                    assert(acts(out@) =~= a1.push(ActionV::Pause));
                    self.set_status(Status::Paused, out);
                }
                let ghost a3 = acts(out@);
                out.push(Action::Prefetch);
                assert(acts(out@) =~= a3.push(ActionV::Prefetch));
                let ghost e = *self;
                let ghost mid = acts(out@);
                assert(mid =~= acts(old(out)@) + opened_acts(*old(self)));
                self.maybe_autoplay(out);
                proof {
                    assert(self.played@ == played_after(old(self).played@, old(self).played.deep_view(), track.video_id));
                    assert(acts(out@) =~= acts(old(out)@) + (opened_acts(*old(self)) + autoplay_acts(e)));
                    lemma_extends(old(out)@, out@, opened_acts(*old(self)) + autoplay_acts(e));
                }
            },
        }
    }

    /// The pipeline changed state.
    pub fn on_pipeline(&mut self, generation: u64, state: PipelineState, out: &mut Vec<Action>)
        ensures
            *final(self) == pipeline_state(*old(self), generation, state),
            acts(final(out)@) == acts(old(out)@) + pipeline_acts(*old(self), generation, state),
    {
        if generation != self.generation {
            assert(acts(out@) =~= acts(old(out)@) + pipeline_acts(*old(self), generation, state));
            return;
        }
        match status_after(state, self.play_when_ready) {
            Some(status) => {
                if status == Status::Playing {
                    self.error = None;
                }
                self.set_status(status, out);
            },
            None => {
                assert(acts(out@) =~= acts(old(out)@) + pipeline_acts(*old(self), generation, state));
            },
        }
    }

    /// The track played to its end.
    pub fn on_end(&mut self, generation: u64, out: &mut Vec<Action>)
        requires
            old(self).queue.wf(),
            old(self).generation < u64::MAX,
        ensures
            generation != old(self).generation ==> *final(self) == *old(self) && acts(final(out)@) == acts(old(out)@),
            generation == old(self).generation ==> {
                &&& next_post(*old(self), false, *final(self))
                &&& acts(final(out)@) == acts(old(out)@) + seq![ActionV::FinishListening] + next_acts(*old(self), false, *final(self))
            },
    {
        if generation != self.generation {
            return;
        }
        out.push(Action::FinishListening);
        let ghost mid = acts(out@);
        self.next(false, out);
        assert(acts(out@) =~= acts(old(out)@) + seq![ActionV::FinishListening] + next_acts(*old(self), false, *self));
    }

    /// The pipeline failed: the stream's address is dropped; the track loads once more from
    /// where it was, then it is skipped.
    pub fn on_pipeline_error(&mut self, generation: u64, message: &str, position_ms: Option<u64>, out: &mut Vec<Action>)
        requires
            old(self).ready(),
        ensures
            extends(old(out)@, final(out)@),
            pipeline_error_post(*old(self), generation, message@, position_ms, *final(self), appended(old(out)@, final(out)@)),
    {
        if generation != self.generation || self.queue.current().is_none() {
            proof {
                lemma_extends(old(out)@, out@, Seq::empty());
            }
            return;
        }
        let ghost track = current_item(self.queue)->0.track;
        let id = self.queue.current().unwrap().track.video_id.clone();
        out.push(Action::Invalidate(id));
        let ghost mid = acts(out@);
        assert(mid =~= acts(old(out)@).push(ActionV::Invalidate(track.video_id@)));
        if self.error.is_none() {
            let error = StreamError::new(StreamErrorKind::Network, message);
            let err = PlayerError::from(&error, &self.queue.current().unwrap().track);
            self.error = Some(err);
            let play = self.play_when_ready;
            let start = match position_ms {
                Some(p) => p,
                None => 0,
            };
            self.load_current(play, start, out);
            proof {
                assert(acts(out@) =~= acts(old(out)@) + (seq![ActionV::Invalidate(track.video_id@)] + load_acts(*old(self), old(self).play_when_ready)));
                lemma_extends(old(out)@, out@, seq![ActionV::Invalidate(track.video_id@)] + load_acts(*old(self), old(self).play_when_ready));
            }
        } else {
            let error = StreamError::new(StreamErrorKind::Network, message);
            let err = PlayerError::from(&error, &self.queue.current().unwrap().track);
            let ghost g = err;
            self.skip_after_error(err, out);
            proof {
                assert(acts(out@) =~= acts(old(out)@) + (seq![ActionV::Invalidate(track.video_id@)] + skip_acts(*old(self), g, *self)));
                lemma_extends(old(out)@, out@, seq![ActionV::Invalidate(track.video_id@)] + skip_acts(*old(self), g, *self));
                assert(skip_post(*old(self), g, *self));
            }
        }
    }

    /// New settings: autoplay on or off; the volume and the speed are the output's.
    pub fn apply_settings(&mut self, autoplay: bool, speed_changed: bool, position_ms: Option<u64>, out: &mut Vec<Action>)
        requires
            old(self).queue.wf(),
        ensures
            *final(self) == settings_state(*old(self), autoplay),
            acts(final(out)@) == acts(old(out)@) + settings_acts(*old(self), autoplay, speed_changed, position_ms),
    {
        self.autoplay_enabled = autoplay;
        out.push(Action::ApplyVolume);
        out.push(Action::EmitState);
        if speed_changed && self.has_output {
            match position_ms {
                Some(p) => out.push(Action::SeekOutput(p)),
                None => {},
            }
        }
        let ghost mid = acts(out@);
        assert(mid =~= acts(old(out)@) + seq![ActionV::ApplyVolume, ActionV::EmitState] + (if speed_changed && old(self).has_output
            && position_ms is Some {
            seq![ActionV::SeekOutput(position_ms->0)]
        } else {
            Seq::<ActionV>::empty()
        }));
        if autoplay {
            self.maybe_autoplay(out);
        }
        assert(acts(out@) =~= acts(old(out)@) + settings_acts(*old(self), autoplay, speed_changed, position_ms));
    }

    /// "Retry": the track loads again from where it was.
    pub fn retry(&mut self, position_ms: Option<u64>, out: &mut Vec<Action>)
        requires
            old(self).generation < u64::MAX,
        ensures
            *final(self) == loaded_state(*old(self), true, start_or_pending(*old(self), position_ms)),
            acts(final(out)@) == acts(old(out)@) + load_acts(*old(self), true),
    {
        let start = match position_ms {
            Some(p) => p,
            None => self.pending_start_ms,
        };
        self.load_current(true, start, out);
    }

    /// Similar tracks came in.
    pub fn on_autoplay_loaded(
        &mut self,
        tracks: Vec<Track>,
        continuation: Option<String>,
        playlist_id: Option<String>,
        seed: Option<String>,
        out: &mut Vec<Action>,
    )
        requires
            old(self).ready(),
            old(self).queue.has_room(25),
        ensures
            extends(old(out)@, final(out)@),
            autoplay_loaded_post(*old(self), tracks@, continuation, playlist_id, seed, *final(self), appended(old(out)@, final(out)@)),
    {
        let added = on_autoplay(&mut self.autoplay, &mut self.queue, tracks, continuation, playlist_id, seed, &self.played);
        if added {
            out.push(Action::EmitQueue);
            out.push(Action::EmitState);
            out.push(Action::Prefetch);
            out.push(Action::SaveQueue);
            proof {
                assert(acts(out@) =~= acts(old(out)@) + seq![ActionV::EmitQueue, ActionV::EmitState, ActionV::Prefetch, ActionV::SaveQueue]);
                lemma_extends(old(out)@, out@, seq![ActionV::EmitQueue, ActionV::EmitState, ActionV::Prefetch, ActionV::SaveQueue]);
            }
        } else {
            proof {
                lemma_extends(old(out)@, out@, Seq::empty());
            }
        }
    }

    /// Similar tracks did not come.
    pub fn on_autoplay_failed(&mut self)
        ensures
            *final(self) == (Engine { autoplay: Autoplay { loading: false, ..old(self).autoplay }, ..*old(self) }),
    {
        self.autoplay.loading = false;
    }
}


/// The state and actions of an edit of the queue (`e1.queue` is the edited queue): emitted,
/// fetched ahead, similar tracks asked for where wanted, saved.
pub open spec fn edited(e0: Engine, e1: Engine, a: Seq<ActionV>) -> bool {
    let e = Engine { queue: e1.queue, ..e0 };
    &&& e1 == autoplay_asked(e)
    &&& a == after_change_acts(e)
}

/// A list or a single track replaces the queue: `q1` is the new queue, loaded from `start_ms`.
pub open spec fn replaced(e0: Engine, position_ms: Option<u64>, start_ms: u64, e1: Engine, a: Seq<ActionV>) -> bool {
    let e = Engine { queue: e1.queue, autoplay: no_autoplay(), ..e0 };
    &&& e1 == loaded_state(e, true, start_ms)
    &&& a == replace_acts(e0, position_ms) + change_and_load_acts(e)
}

/// Tracks added to the queue ("Play next", "Add to end"); an empty queue starts playing.
pub open spec fn added(e0: Engine, e1: Engine, a: Seq<ActionV>) -> bool {
    let e = Engine { queue: e1.queue, ..e0 };
    if current_item(e0.queue) is None {
        &&& e1 == loaded_state(autoplay_asked(e), true, 0)
        &&& a == after_change_acts(e) + load_acts(autoplay_asked(e), true)
    } else {
        &&& e1 == autoplay_asked(e)
        &&& a == after_change_acts(e)
    }
}

/// The snapshots among the actions appended save the queue `q` at the position.
pub open spec fn snapshots_save(out0: Seq<Action>, out1: Seq<Action>, q: PlayQueue, position_ms: Option<u64>) -> bool {
    forall|i: int|
        out0.len() <= i < out1.len() ==> (#[trigger] out1[i] matches Action::QueueReplaced(s) ==> s.saves(&q, position_or_zero(position_ms) as i64))
}

/// Snapshots saved by the first actions stay saved when only loading actions follow.
proof fn lemma_later_not_replaced(out0: Seq<Action>, mid: Seq<Action>, out1: Seq<Action>, q: PlayQueue, position_ms: Option<u64>)
    requires
        out0.len() <= mid.len(),
        snapshots_save(out0, mid, q, position_ms),
        out1.take(mid.len() as int) == mid,
        exists|e: Engine| #[trigger] acts(out1) == acts(mid) + change_and_load_acts(e),
    ensures
        snapshots_save(out0, out1, q, position_ms),
{
    let e = choose|e: Engine| #[trigger] acts(out1) == acts(mid) + change_and_load_acts(e);
    assert(acts(out1).len() == out1.len());
    assert(acts(mid).len() == mid.len());
    assert(mid.len() <= out1.len());
    assert forall|i: int| out0.len() <= i < out1.len() implies (#[trigger] out1[i] matches Action::QueueReplaced(s) ==> s.saves(
        &q,
        position_or_zero(position_ms) as i64,
    )) by {
        if i < mid.len() {
            assert(out1.take(mid.len() as int)[i] == out1[i]);
        } else {
            assert(acts(out1)[i] == change_and_load_acts(e)[i - mid.len()]);
            assert(acts(out1)[i] == out1[i].deep_view());
        }
    }
}

impl Engine {
    /// Plays a list from the chosen track (an album, a playlist, favourites…).
    pub fn play_list(&mut self, tracks: Vec<Track>, start: usize, shuffle: bool, position_ms: Option<u64>, out: &mut Vec<Action>)
        requires
            old(self).ready(),
            old(self).queue.queue_next_id() + tracks@.len() <= i64::MAX,
            position_ms matches Some(p) ==> p <= i64::MAX,
        ensures
            extends(old(out)@, final(out)@),
            tracks@.len() == 0 ==> *final(self) == *old(self) && appended(old(out)@, final(out)@) == Seq::<ActionV>::empty(),
            tracks@.len() > 0 ==> {
                &&& set_list_post(old(self).queue, final(self).queue, tracks, start, shuffle)
                &&& replaced(*old(self), position_ms, 0, *final(self), appended(old(out)@, final(out)@))
            },
            snapshots_save(old(out)@, final(out)@, old(self).queue, position_ms),
    {
        if tracks.len() == 0 {
            proof {
                lemma_extends(old(out)@, out@, Seq::empty());
            }
            return;
        }
        self.before_replace(position_ms, out);
        let ghost mid = out@;
        self.queue.set_list(tracks, start, shuffle);
        self.queue_changed_then_load(0, out);
        proof {
            lemma_later_not_replaced(old(out)@, mid, out@, old(self).queue, position_ms);
            let e = Engine { queue: self.queue, autoplay: no_autoplay(), ..*old(self) };
            assert(acts(out@) =~= acts(old(out)@) + (replace_acts(*old(self), position_ms) + change_and_load_acts(e)));
            lemma_extends(old(out)@, out@, replace_acts(*old(self), position_ms) + change_and_load_acts(e));
        }
    }

    /// A single track and similar ones after it (search, "Recent", a link), from `start_ms`.
    pub fn play_single(&mut self, track: Track, start_ms: u64, position_ms: Option<u64>, out: &mut Vec<Action>)
        requires
            old(self).ready(),
            old(self).queue.queue_next_id() < i64::MAX,
            position_ms matches Some(p) ==> p <= i64::MAX,
        ensures
            extends(old(out)@, final(out)@),
            set_single_post(old(self).queue, final(self).queue, track),
            replaced(*old(self), position_ms, start_ms, *final(self), appended(old(out)@, final(out)@)),
            snapshots_save(old(out)@, final(out)@, old(self).queue, position_ms),
    {
        self.before_replace(position_ms, out);
        let ghost mid = out@;
        self.queue.set_single(track);
        self.queue_changed_then_load(start_ms, out);
        proof {
            lemma_later_not_replaced(old(out)@, mid, out@, old(self).queue, position_ms);
            let e = Engine { queue: self.queue, autoplay: no_autoplay(), ..*old(self) };
            assert(acts(out@) =~= acts(old(out)@) + (replace_acts(*old(self), position_ms) + change_and_load_acts(e)));
            lemma_extends(old(out)@, out@, replace_acts(*old(self), position_ms) + change_and_load_acts(e));
        }
    }

    /// "Play next": right after the current track.
    pub fn play_next(&mut self, tracks: Vec<Track>, out: &mut Vec<Action>)
        requires
            old(self).ready(),
            old(self).queue.has_room(tracks@.len() as int),
        ensures
            extends(old(out)@, final(out)@),
            play_next_post(old(self).queue, final(self).queue, tracks),
            added(*old(self), *final(self), appended(old(out)@, final(out)@)),
    {
        let was_empty = self.queue.current().is_none();
        self.queue.play_next(tracks);
        self.add_then_play(was_empty, out);
    }

    /// "Add to end": before the similar tracks.
    pub fn add_to_end(&mut self, tracks: Vec<Track>, out: &mut Vec<Action>)
        requires
            old(self).ready(),
            old(self).queue.has_room(tracks@.len() as int),
        ensures
            extends(old(out)@, final(out)@),
            add_to_end_post(old(self).queue, final(self).queue, tracks),
            added(*old(self), *final(self), appended(old(out)@, final(out)@)),
    {
        let was_empty = self.queue.current().is_none();
        self.queue.add_to_end(tracks);
        self.add_then_play(was_empty, out);
    }

    fn add_then_play(&mut self, was_empty: bool, out: &mut Vec<Action>)
        requires
            old(self).queue.wf(),
            old(self).generation < u64::MAX,
        ensures
            extends(old(out)@, final(out)@),
            was_empty ==> *final(self) == loaded_state(autoplay_asked(*old(self)), true, 0) && appended(old(out)@, final(out)@)
                == after_change_acts(*old(self)) + load_acts(autoplay_asked(*old(self)), true),
            !was_empty ==> *final(self) == autoplay_asked(*old(self)) && appended(old(out)@, final(out)@) == after_change_acts(
                *old(self),
            ),
    {
        self.after_queue_change(out);
        if was_empty {
            let ghost mid = acts(out@);
            let ghost e = *self;
            self.load_current(true, 0, out);
            proof {
                assert(acts(out@) =~= acts(old(out)@) + (after_change_acts(*old(self)) + load_acts(e, true)));
                lemma_extends(old(out)@, out@, after_change_acts(*old(self)) + load_acts(e, true));
            }
        } else {
            proof {
                lemma_extends(old(out)@, out@, after_change_acts(*old(self)));
            }
        }
    }

    /// An edit of the queue: remove, move, clear, repeat, shuffle.
    fn edit_done(&mut self, out: &mut Vec<Action>)
        requires
            old(self).queue.wf(),
        ensures
            extends(old(out)@, final(out)@),
            *final(self) == autoplay_asked(*old(self)),
            appended(old(out)@, final(out)@) == after_change_acts(*old(self)),
    {
        self.after_queue_change(out);
        proof {
            lemma_extends(old(out)@, out@, after_change_acts(*old(self)));
        }
    }

    /// After a restart or "Undo": the saved queue, from its position.
    pub fn restore_queue(&mut self, snapshot: QueueSnapshot, out: &mut Vec<Action>)
        requires
            old(self).ready(),
            forall|k: int| 0 <= k < snapshot.items@.len() ==> #[trigger] snapshot.items@[k].id < i64::MAX,
        ensures
            extends(old(out)@, final(out)@),
            restore_post(old(self).queue, final(self).queue, snapshot),
            ({
                let e = Engine { queue: final(self).queue, autoplay: no_autoplay(), ..*old(self) };
                let start = if snapshot.position_ms > 0 { snapshot.position_ms as u64 } else { 0 };
                &&& *final(self) == loaded_state(e, true, start)
                &&& appended(old(out)@, final(out)@) == seq![ActionV::FinishListening] + change_and_load_acts(e)
            }),
    {
        out.push(Action::FinishListening);
        let start: u64 = if snapshot.position_ms > 0 { snapshot.position_ms as u64 } else { 0 };
        self.queue.restore(snapshot);
        self.autoplay = Autoplay::new();
        let ghost mid = acts(out@);
        self.queue_changed_then_load(start, out);
        proof {
            let e = Engine { queue: self.queue, autoplay: no_autoplay(), ..*old(self) };
            assert(acts(out@) =~= acts(old(out)@) + (seq![ActionV::FinishListening] + change_and_load_acts(e)));
            lemma_extends(old(out)@, out@, seq![ActionV::FinishListening] + change_and_load_acts(e));
        }
    }
}


/// What the player is told: by the window and MPRIS, and by its own tasks.
#[derive(Debug)]
pub enum Command {
    /// Play a list from the chosen track (an album, a playlist, favourites…).
    PlayList { tracks: Vec<Track>, start: usize, shuffle: bool },
    /// A single track and similar ones after it (search, "Recent", a link); `start_ms` from `t=`.
    PlaySingle { track: Track, start_ms: u64 },
    PlayNext(Vec<Track>),
    AddToEnd(Vec<Track>),
    TogglePlay,
    Play,
    Pause,
    Next,
    Previous,
    Seek(u64),
    /// A move from the current position (Shift+← →, MPRIS `Seek`).
    SeekBy(i64),
    JumpTo(i64),
    Remove(i64),
    Move { id: i64, to: usize },
    ClearQueue,
    SetRepeat(RepeatMode),
    SetShuffle(bool),
    /// New settings: autoplay on or off, and whether the speed changed.
    Settings { autoplay: bool, speed_changed: bool },
    Retry,
    /// "Undo" after the queue was replaced: the previous queue, track and position.
    RestoreQueue(QueueSnapshot),
    SaveQueue,
    /// A load settled.
    Loaded { generation: u64, outcome: LoadOutcome },
    /// Feeding the output failed.
    FeedFailed { generation: u64, error: StreamError },
    /// The pipeline changed state.
    StateChanged { generation: u64, state: PipelineState },
    /// The track played to its end.
    EndOfStream { generation: u64 },
    /// The pipeline failed.
    PipelineFailed { generation: u64, message: String },
    /// Similar tracks came in.
    AutoplayLoaded { tracks: Vec<Track>, continuation: Option<String>, playlist_id: Option<String>, seed: Option<String> },
    AutoplayFailed,
}

/// A command can be taken: the counters have room, the position and the length fit in `i64`,
/// the queue has room for what comes, a relative seek stays within `i64`.
pub open spec fn fits(e: Engine, c: Command, position_ms: Option<u64>) -> bool {
    &&& e.generation < u64::MAX
    &&& e.skips_in_row < u32::MAX
    &&& e.autoplay.seeds_without_new < u32::MAX
    &&& (e.duration_ms matches Some(d) ==> d <= i64::MAX)
    &&& (position_ms matches Some(p) ==> p <= i64::MAX)
    &&& match c {
        Command::PlayList { tracks, .. } => e.queue.queue_next_id() + tracks@.len() <= i64::MAX,
        Command::PlaySingle { .. } => e.queue.queue_next_id() < i64::MAX,
        Command::PlayNext(tracks) => e.queue.has_room(tracks@.len() as int),
        Command::AddToEnd(tracks) => e.queue.has_room(tracks@.len() as int),
        Command::SeekBy(delta) => i64::MIN <= position_or_zero(position_ms) + delta <= i64::MAX,
        Command::RestoreQueue(snapshot) => forall|k: int|
            0 <= k < snapshot.items@.len() ==> #[trigger] snapshot.items@[k].id < i64::MAX,
        Command::Loaded { outcome, .. } => outcome matches LoadOutcome::Opened { duration_ms } ==> duration_ms <= i64::MAX,
        Command::AutoplayLoaded { .. } => e.queue.has_room(25),
        _ => true,
    }
}

/// A failure of the current track's stream skips it.
pub open spec fn failed_post(e0: Engine, generation: u64, error: StreamError, e1: Engine, a: Seq<ActionV>) -> bool {
    if generation != e0.generation || current_item(e0.queue) is None {
        e1 == e0 && a == Seq::<ActionV>::empty()
    } else {
        exists|err: PlayerError|
            error_of(err, error, current_item(e0.queue)->0.track) && #[trigger] skip_post(e0, err, e1) && a == skip_acts(e0, err, e1)
    }
}

/// What a command does, over the state `e1` and the actions `a` it leaves.
pub open spec fn handled(e0: Engine, c: Command, position_ms: Option<u64>, e1: Engine, a: Seq<ActionV>) -> bool {
    match c {
        Command::PlayList { tracks, start, shuffle } => if tracks@.len() == 0 {
            e1 == e0 && a == Seq::<ActionV>::empty()
        } else {
            set_list_post(e0.queue, e1.queue, tracks, start, shuffle) && replaced(e0, position_ms, 0, e1, a)
        },
        Command::PlaySingle { track, start_ms } => set_single_post(e0.queue, e1.queue, track) && replaced(
            e0,
            position_ms,
            start_ms,
            e1,
            a,
        ),
        Command::PlayNext(tracks) => play_next_post(e0.queue, e1.queue, tracks) && added(e0, e1, a),
        Command::AddToEnd(tracks) => add_to_end_post(e0.queue, e1.queue, tracks) && added(e0, e1, a),
        Command::TogglePlay => if playing_spec(e0.status, e0.play_when_ready) {
            e1 == pause_state(e0) && a == pause_acts(e0)
        } else {
            e1 == play_state(e0, position_ms) && a == play_acts(e0)
        },
        Command::Play => e1 == play_state(e0, position_ms) && a == play_acts(e0),
        Command::Pause => e1 == pause_state(e0) && a == pause_acts(e0),
        Command::Next => next_post(e0, true, e1) && a == next_acts(e0, true, e1),
        Command::Previous => previous_post(e0, position_ms, e1) && a == previous_acts(e0, position_ms, e1),
        Command::Seek(ms) => e1 == seek_state(e0, ms) && a == seek_acts(e0, ms),
        Command::SeekBy(delta) => {
            let target = seek_by_target_of(e0, delta, position_ms);
            e1 == seek_state(e0, target) && a == seek_acts(e0, target)
        },
        Command::JumpTo(id) => jump_post(e0, id, e1) && a == jump_acts(e0, id, e1),
        Command::Remove(id) => remove_post(e0.queue, e1.queue, id) && edited(e0, e1, a),
        Command::Move { id, to } => move_item_post(e0.queue, e1.queue, id, to) && edited(e0, e1, a),
        Command::ClearQueue => clear_except_current_post(e0.queue, e1.queue) && edited(e0, e1, a),
        Command::SetRepeat(mode) => set_repeat_post(e0.queue, e1.queue, mode) && edited(e0, e1, a),
        Command::SetShuffle(on) => shuffle_post(e0.queue, e1.queue, on) && edited(e0, e1, a),
        Command::Settings { autoplay, speed_changed } => e1 == settings_state(e0, autoplay) && a == settings_acts(
            e0,
            autoplay,
            speed_changed,
            position_ms,
        ),
        Command::Retry => e1 == loaded_state(e0, true, start_or_pending(e0, position_ms)) && a == load_acts(e0, true),
        Command::RestoreQueue(snapshot) => {
            let e = Engine { queue: e1.queue, autoplay: no_autoplay(), ..e0 };
            let start = if snapshot.position_ms > 0 { snapshot.position_ms as u64 } else { 0 };
            &&& restore_post(e0.queue, e1.queue, snapshot)
            &&& e1 == loaded_state(e, true, start)
            &&& a == seq![ActionV::FinishListening] + change_and_load_acts(e)
        },
        Command::SaveQueue => e1 == e0 && a == seq![ActionV::SaveQueue],
        Command::Loaded { generation, outcome } => loaded_post(e0, generation, outcome, e1, a),
        Command::FeedFailed { generation, error } => failed_post(e0, generation, error, e1, a),
        Command::StateChanged { generation, state } => e1 == pipeline_state(e0, generation, state) && a == pipeline_acts(
            e0,
            generation,
            state,
        ),
        Command::EndOfStream { generation } => if generation != e0.generation {
            e1 == e0 && a == Seq::<ActionV>::empty()
        } else {
            next_post(e0, false, e1) && a == seq![ActionV::FinishListening] + next_acts(e0, false, e1)
        },
        Command::PipelineFailed { generation, message } => pipeline_error_post(e0, generation, message@, position_ms, e1, a),
        Command::AutoplayLoaded { tracks, continuation, playlist_id, seed } => autoplay_loaded_post(
            e0,
            tracks@,
            continuation,
            playlist_id,
            seed,
            e1,
            a,
        ),
        Command::AutoplayFailed => e1 == (Engine { autoplay: Autoplay { loading: false, ..e0.autoplay }, ..e0 }) && a
            == Seq::<ActionV>::empty(),
    }
}

/// Every saved id leaves room for the next one.
fn ids_fit(snapshot: &QueueSnapshot) -> (r: bool)
    ensures
        r == forall|k: int| 0 <= k < snapshot.items@.len() ==> #[trigger] snapshot.items@[k].id < i64::MAX,
{
    let mut k: usize = 0;
    while k < snapshot.items.len()
        invariant
            k <= snapshot.items@.len(),
            forall|j: int| 0 <= j < k ==> #[trigger] snapshot.items@[j].id < i64::MAX,
        decreases snapshot.items.len() - k,
    {
        if snapshot.items[k].id == i64::MAX {
            assert(!(snapshot.items@[k as int].id < i64::MAX));
            return false;
        }
        k = k + 1;
    }
    true
}

impl Engine {
    /// Whether the command can be taken now (see `fits`).
    pub fn accepts(&self, command: &Command, position_ms: Option<u64>) -> (r: bool)
        ensures
            r == fits(*self, *command, position_ms),
    {
        if self.generation == u64::MAX || self.skips_in_row == u32::MAX || self.autoplay.seeds_without_new == u32::MAX {
            return false;
        }
        match self.duration_ms {
            Some(d) => if d > 9223372036854775807u64 {
                return false;
            },
            None => {},
        }
        let position: u64 = match position_ms {
            Some(p) => {
                if p > 9223372036854775807u64 {
                    return false;
                }
                p
            },
            None => 0,
        };
        match command {
            Command::PlayList { tracks, .. } => self.fits_ids(tracks.len()),
            Command::PlaySingle { .. } => self.fits_ids(1),
            Command::PlayNext(tracks) => self.queue.has_room_for(tracks.len()),
            Command::AddToEnd(tracks) => self.queue.has_room_for(tracks.len()),
            Command::SeekBy(delta) => {
                let p = position as i128;
                let d = *delta as i128;
                p + d <= 9223372036854775807i128
            },
            Command::RestoreQueue(snapshot) => ids_fit(snapshot),
            Command::Loaded { outcome, .. } => match outcome {
                LoadOutcome::Opened { duration_ms } => *duration_ms <= 9223372036854775807u64,
                _ => true,
            },
            Command::AutoplayLoaded { .. } => self.queue.has_room_for(25),
            _ => true,
        }
    }

    /// Whether `count` more ids fit.
    fn fits_ids(&self, count: usize) -> (r: bool)
        ensures
            r == (self.queue.queue_next_id() + count <= i64::MAX),
    {
        let next = self.queue.next_id();
        (next as i128) + (count as i128) <= 9223372036854775807i128
    }

    /// Takes a command; `position_ms` is where the output is (none without one).
    pub fn handle(&mut self, command: Command, position_ms: Option<u64>, out: &mut Vec<Action>)
        requires
            old(self).queue.wf(),
            fits(*old(self), command, position_ms),
        ensures
            final(self).queue.wf(),
            extends(old(out)@, final(out)@),
            handled(*old(self), command, position_ms, *final(self), appended(old(out)@, final(out)@)),
    {
        let ghost e0 = *self;
        let ghost c = command;
        let ghost out0 = out@;
        match command {
            Command::PlayList { tracks, start, shuffle } => self.play_list(tracks, start, shuffle, position_ms, out),
            Command::PlaySingle { track, start_ms } => self.play_single(track, start_ms, position_ms, out),
            Command::PlayNext(tracks) => self.play_next(tracks, out),
            Command::AddToEnd(tracks) => self.add_to_end(tracks, out),
            Command::TogglePlay => {
                if is_playing(self.status, self.play_when_ready) {
                    self.pause(out);
                } else {
                    self.play(position_ms, out);
                }
                proof {
                    lemma_extends(out0, out@, if playing_spec(e0.status, e0.play_when_ready) { pause_acts(e0) } else { play_acts(e0) });
                }
            },
            Command::Play => {
                self.play(position_ms, out);
                proof {
                    lemma_extends(out0, out@, play_acts(e0));
                }
            },
            Command::Pause => {
                self.pause(out);
                proof {
                    lemma_extends(out0, out@, pause_acts(e0));
                }
            },
            Command::Next => {
                self.next(true, out);
                proof {
                    lemma_extends(out0, out@, next_acts(e0, true, *self));
                }
            },
            Command::Previous => {
                self.previous(position_ms, out);
                proof {
                    lemma_extends(out0, out@, previous_acts(e0, position_ms, *self));
                }
            },
            Command::Seek(ms) => {
                self.seek(ms, out);
                proof {
                    lemma_extends(out0, out@, seek_acts(e0, ms));
                }
            },
            Command::SeekBy(delta) => {
                self.seek_by(delta, position_ms, out);
                proof {
                    lemma_extends(out0, out@, seek_acts(e0, seek_by_target_of(e0, delta, position_ms)));
                }
            },
            Command::JumpTo(id) => {
                self.jump_to(id, out);
                proof {
                    lemma_extends(out0, out@, jump_acts(e0, id, *self));
                }
            },
            Command::Remove(id) => {
                self.queue.remove(id);
                self.edit_done(out);
            },
            Command::Move { id, to } => {
                self.queue.move_item(id, to);
                self.edit_done(out);
            },
            Command::ClearQueue => {
                self.queue.clear_except_current();
                self.edit_done(out);
            },
            Command::SetRepeat(mode) => {
                self.queue.set_repeat(mode);
                self.edit_done(out);
            },
            Command::SetShuffle(on) => {
                self.queue.shuffle(on);
                self.edit_done(out);
            },
            Command::Settings { autoplay, speed_changed } => {
                self.apply_settings(autoplay, speed_changed, position_ms, out);
                proof {
                    lemma_extends(out0, out@, settings_acts(e0, autoplay, speed_changed, position_ms));
                }
            },
            Command::Retry => {
                self.retry(position_ms, out);
                proof {
                    lemma_extends(out0, out@, load_acts(e0, true));
                }
            },
            Command::RestoreQueue(snapshot) => self.restore_queue(snapshot, out),
            Command::SaveQueue => {
                out.push(Action::SaveQueue);
                proof {
                    assert(acts(out@) =~= acts(out0) + seq![ActionV::SaveQueue]);
                    lemma_extends(out0, out@, seq![ActionV::SaveQueue]);
                }
            },
            Command::Loaded { generation, outcome } => self.on_loaded(generation, outcome, out),
            Command::FeedFailed { generation, error } => {
                if generation != self.generation || self.queue.current().is_none() {
                    proof {
                        lemma_extends(out0, out@, Seq::empty());
                    }
                } else {
                    let err = PlayerError::from(&error, &self.queue.current().unwrap().track);
                    let ghost g = err;
                    self.skip_after_error(err, out);
                    proof {
                        lemma_extends(out0, out@, skip_acts(e0, g, *self));
                        assert(skip_post(e0, g, *self));
                    }
                }
            },
            Command::StateChanged { generation, state } => {
                self.on_pipeline(generation, state, out);
                proof {
                    lemma_extends(out0, out@, pipeline_acts(e0, generation, state));
                }
            },
            Command::EndOfStream { generation } => {
                self.on_end(generation, out);
                proof {
                    if generation == e0.generation {
                        assert(acts(out@) =~= acts(out0) + (seq![ActionV::FinishListening] + next_acts(e0, false, *self)));
                        lemma_extends(out0, out@, seq![ActionV::FinishListening] + next_acts(e0, false, *self));
                    } else {
                        assert(acts(out@) =~= acts(out0) + Seq::<ActionV>::empty());
                        lemma_extends(out0, out@, Seq::empty());
                    }
                }
            },
            Command::PipelineFailed { generation, message } => self.on_pipeline_error(generation, message.as_str(), position_ms, out),
            Command::AutoplayLoaded { tracks, continuation, playlist_id, seed } => self.on_autoplay_loaded(
                tracks,
                continuation,
                playlist_id,
                seed,
                out,
            ),
            Command::AutoplayFailed => {
                self.on_autoplay_failed();
                proof {
                    lemma_extends(out0, out@, Seq::empty());
                }
            },
        }
    }
}


/// The load that a command answers, if it answers one.
pub open spec fn answers(c: Command) -> Option<u64> {
    match c {
        Command::Loaded { generation, .. } => Some(generation),
        Command::FeedFailed { generation, .. } => Some(generation),
        Command::StateChanged { generation, .. } => Some(generation),
        Command::EndOfStream { generation } => Some(generation),
        Command::PipelineFailed { generation, .. } => Some(generation),
        _ => None,
    }
}

/// What comes back of an older load (its stream, its output's state, its end, its errors)
/// changes nothing and asks for nothing.
pub proof fn law_stale_answers_change_nothing(e0: Engine, c: Command, position_ms: Option<u64>, e1: Engine, a: Seq<ActionV>)
    requires
        handled(e0, c, position_ms, e1, a),
        answers(c) matches Some(g) && g != e0.generation,
    ensures
        e1 == e0,
        a == Seq::<ActionV>::empty(),
{
}

/// The third skip in a row stops playback with the reason, without output, not meant to play.
pub proof fn law_third_skip_stops(e0: Engine, err: PlayerError, e1: Engine)
    requires
        skip_post(e0, err, e1),
        e0.skips_in_row >= 2,
    ensures
        e1.status == Status::Error,
        e1.error == Some(err),
        !e1.play_when_ready,
        !e1.has_output,
        e1.queue == e0.queue,
{
}

/// A load that starts opens the current track under a generation no earlier answer carries.
pub proof fn law_a_load_is_fresh(e: Engine, play: bool, start_ms: u64)
    requires
        e.generation < u64::MAX,
    ensures
        loaded_state(e, play, start_ms).generation == e.generation + 1,
        forall|i: int|
            0 <= i < load_acts(e, play).len() ==> (#[trigger] load_acts(e, play)[i] matches ActionV::Load { generation, video_id, play: p }
                ==> generation == e.generation + 1 && Some(video_id) == current_id(e.queue) && p == play),
{
}

} // verus!
