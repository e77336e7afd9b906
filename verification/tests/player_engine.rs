use melogold::music::Track;
use melogold::playback::control::{Action, Command, Engine, LoadOutcome};
use melogold::playback::engine::{prefetch_plan, upcoming_ids, PipelineState, Status};
use melogold::playback::resolver::{StreamError, StreamErrorKind};
use melogold::queue::RepeatMode;

fn track(title: &str) -> Track {
    Track { video_id: format!("id-{title}"), title: title.into(), ..Default::default() }
}

fn tracks(titles: &[&str]) -> Vec<Track> {
    titles.iter().map(|t| track(t)).collect()
}

fn run(engine: &mut Engine, command: Command, position_ms: Option<u64>) -> Vec<Action> {
    assert!(engine.accepts(&command, position_ms), "{command:?}");
    let mut out = Vec::new();
    engine.handle(command, position_ms, &mut out);
    out
}

fn loads(actions: &[Action]) -> Vec<(u64, String, bool)> {
    actions
        .iter()
        .filter_map(|a| match a {
            Action::Load { generation, video_id, play } => Some((*generation, video_id.clone(), *play)),
            _ => None,
        })
        .collect()
}

fn current(engine: &Engine) -> &str {
    &engine.queue.current().unwrap().track.title
}

fn network_error() -> StreamError {
    StreamError::new(StreamErrorKind::Network, "no route")
}

#[test]
fn a_list_loads_the_chosen_track() {
    let mut engine = Engine::new(true);
    let out = run(&mut engine, Command::PlayList { tracks: tracks(&["a", "b", "c"]), start: 1, shuffle: false }, None);
    assert_eq!(current(&engine), "b");
    assert_eq!(engine.status, Status::Resolving);
    assert!(engine.play_when_ready);
    assert_eq!(engine.generation, 1);
    assert_eq!(loads(&out), vec![(1, "id-b".to_owned(), true)]);
    assert!(matches!(out[0], Action::FinishListening));
    assert!(matches!(out.last(), Some(Action::Load { .. })));
    assert!(run(&mut engine, Command::PlayList { tracks: Vec::new(), start: 0, shuffle: false }, None).is_empty());
    assert_eq!(current(&engine), "b");
}

#[test]
fn an_opened_stream_plays_and_similar_tracks_are_asked_for() {
    let mut engine = Engine::new(true);
    run(&mut engine, Command::PlayList { tracks: tracks(&["a", "b", "c"]), start: 1, shuffle: false }, None);
    let stale = run(&mut engine, Command::Loaded { generation: 0, outcome: LoadOutcome::Opened { duration_ms: 200_000 } }, None);
    assert!(stale.is_empty(), "an older load changes nothing");
    assert!(!engine.has_output);
    let out = run(&mut engine, Command::Loaded { generation: 1, outcome: LoadOutcome::Opened { duration_ms: 200_000 } }, None);
    assert!(engine.has_output);
    assert_eq!(engine.status, Status::Buffering);
    assert_eq!(engine.duration_ms, Some(200_000));
    assert_eq!(engine.played, vec!["id-b".to_owned()]);
    assert!(matches!(out[0], Action::ApplyVolume));
    assert!(matches!(out[1], Action::Play));
    match out.last() {
        Some(Action::LoadAutoplay { continuation: None, seed: Some(seed), .. }) => assert_eq!(seed, "id-c"),
        other => panic!("similar tracks are asked for, not {other:?}"),
    }
    assert!(engine.autoplay.loading);
    run(&mut engine, Command::StateChanged { generation: 1, state: PipelineState::Playing }, None);
    assert_eq!(engine.status, Status::Playing);
}

#[test]
fn the_third_skip_in_a_row_stops() {
    let mut engine = Engine::new(false);
    run(&mut engine, Command::PlayList { tracks: tracks(&["a", "b", "c", "d", "e"]), start: 0, shuffle: false }, None);
    let out = run(&mut engine, Command::Loaded { generation: 1, outcome: LoadOutcome::Failed(network_error()) }, None);
    assert!(out.iter().any(|a| matches!(a, Action::Skipped(e) if e.track.title == "a" && e.kind == StreamErrorKind::Network)));
    let reported = out.iter().find_map(|a| match a {
        Action::Skipped(e) => Some(e),
        _ => None,
    });
    let expected = network_error();
    assert_eq!(reported.unwrap().message, expected.message, "the skipped notice carries the whole reason");
    assert_eq!(reported.unwrap().country, expected.country);
    assert_eq!(loads(&out), vec![(2, "id-b".to_owned(), true)]);
    assert_eq!(engine.skips_in_row, 1);
    run(&mut engine, Command::Loaded { generation: 2, outcome: LoadOutcome::OutputFailed("no sink".into()) }, None);
    assert_eq!(current(&engine), "c");
    let out = run(&mut engine, Command::Loaded { generation: 3, outcome: LoadOutcome::Failed(network_error()) }, None);
    assert_eq!(engine.status, Status::Error);
    assert!(!engine.play_when_ready);
    assert_eq!(current(&engine), "c");
    assert!(matches!(out[..], [Action::ReleaseOutput, Action::StatusChanged]));
    assert_eq!(engine.error.as_ref().map(|e| e.kind), Some(StreamErrorKind::Network));
    let out = run(&mut engine, Command::Retry, None);
    assert_eq!(loads(&out), vec![(4, "id-c".to_owned(), true)]);
}

#[test]
fn an_error_with_nothing_next_stops_at_once() {
    let mut engine = Engine::new(false);
    run(&mut engine, Command::PlaySingle { track: track("only"), start_ms: 0 }, None);
    let out = run(&mut engine, Command::FeedFailed { generation: 1, error: network_error() }, None);
    assert_eq!(engine.status, Status::Error);
    assert!(matches!(out[..], [Action::ReleaseOutput, Action::StatusChanged]));
}

#[test]
fn next_at_the_end_pauses_at_the_start() {
    let mut engine = Engine::new(false);
    run(&mut engine, Command::PlayList { tracks: tracks(&["a"]), start: 0, shuffle: false }, None);
    run(&mut engine, Command::Loaded { generation: 1, outcome: LoadOutcome::Opened { duration_ms: 1000 } }, None);
    let out = run(&mut engine, Command::Next, Some(500));
    assert_eq!(engine.status, Status::Paused);
    assert!(!engine.play_when_ready);
    assert!(matches!(out[..], [Action::FinishListening, Action::Pause, Action::SeekOutput(0), Action::StatusChanged]));
    let out = run(&mut engine, Command::EndOfStream { generation: 1 }, None);
    assert!(matches!(out[0], Action::FinishListening));
}

#[test]
fn previous_past_three_seconds_restarts_the_track() {
    let mut engine = Engine::new(false);
    run(&mut engine, Command::PlayList { tracks: tracks(&["a", "b"]), start: 1, shuffle: false }, None);
    run(&mut engine, Command::Loaded { generation: 1, outcome: LoadOutcome::Opened { duration_ms: 100_000 } }, None);
    let out = run(&mut engine, Command::Previous, Some(3500));
    assert_eq!(current(&engine), "b");
    assert!(matches!(out[..], [Action::SeekOutput(0), Action::Seeked(0), Action::EmitState]));
    let out = run(&mut engine, Command::Previous, Some(2000));
    assert_eq!(current(&engine), "a");
    assert_eq!(loads(&out), vec![(2, "id-a".to_owned(), true)]);
}

#[test]
fn replacing_a_queue_of_the_users_tracks_can_be_undone() {
    let mut engine = Engine::new(false);
    run(&mut engine, Command::PlayList { tracks: tracks(&["a", "b"]), start: 0, shuffle: false }, None);
    let out = run(&mut engine, Command::PlaySingle { track: track("x"), start_ms: 42_000 }, Some(7000));
    let snapshot = out.into_iter().find_map(|a| match a {
        Action::QueueReplaced(s) => Some(s),
        _ => None,
    });
    let snapshot = snapshot.expect("two of the user's tracks can be brought back");
    assert_eq!(snapshot.position_ms, 7000);
    assert_eq!(snapshot.items.len(), 2);
    assert_eq!(engine.pending_start_ms, 42_000);
    assert_eq!(current(&engine), "x");
    let out = run(&mut engine, Command::RestoreQueue(snapshot), None);
    assert_eq!(current(&engine), "a");
    assert_eq!(engine.pending_start_ms, 7000);
    assert_eq!(loads(&out), vec![(3, "id-a".to_owned(), true)]);
    let out = run(&mut engine, Command::PlaySingle { track: track("y"), start_ms: 0 }, None);
    assert!(out.iter().any(|a| matches!(a, Action::QueueReplaced(_))), "the restored queue holds two of the user's tracks");
    let out = run(&mut engine, Command::PlaySingle { track: track("z"), start_ms: 0 }, None);
    assert!(out.iter().all(|a| !matches!(a, Action::QueueReplaced(_))), "a single track is not worth an undo");
}

#[test]
fn toggle_seek_and_retry() {
    let mut engine = Engine::new(false);
    run(&mut engine, Command::PlayList { tracks: tracks(&["a", "b"]), start: 0, shuffle: false }, None);
    let out = run(&mut engine, Command::TogglePlay, None);
    assert!(!engine.play_when_ready);
    assert!(matches!(out[..], [Action::EmitState]));
    let out = run(&mut engine, Command::Seek(30_000), None);
    assert_eq!(engine.pending_start_ms, 30_000);
    assert!(matches!(out[..], [Action::EmitState]));
    run(&mut engine, Command::Loaded { generation: 1, outcome: LoadOutcome::Opened { duration_ms: 60_000 } }, None);
    assert_eq!(engine.status, Status::Paused);
    assert_eq!(engine.pending_start_ms, 0);
    let out = run(&mut engine, Command::TogglePlay, Some(30_000));
    assert!(engine.play_when_ready);
    assert!(matches!(out[..], [Action::Play, Action::EmitState]));
    let out = run(&mut engine, Command::SeekBy(45_000), Some(30_000));
    assert!(matches!(out[..], [Action::SeekOutput(59_500), Action::Seeked(59_500), Action::EmitState]));
    let out = run(&mut engine, Command::SeekBy(-45_000), Some(30_000));
    assert!(matches!(out[..], [Action::SeekOutput(0), Action::Seeked(0), Action::EmitState]));
    assert!(!engine.accepts(&Command::SeekBy(i64::MAX), Some(10)));
    let out = run(&mut engine, Command::StateChanged { generation: 1, state: PipelineState::Paused }, None);
    assert_eq!(engine.status, Status::Buffering);
    assert!(matches!(out[..], [Action::StatusChanged]));
}

#[test]
fn a_pipeline_error_reloads_from_where_it_was() {
    let mut engine = Engine::new(false);
    run(&mut engine, Command::PlayList { tracks: tracks(&["a", "b"]), start: 0, shuffle: false }, None);
    run(&mut engine, Command::Loaded { generation: 1, outcome: LoadOutcome::Opened { duration_ms: 60_000 } }, None);
    let out = run(&mut engine, Command::PipelineFailed { generation: 1, message: "decoder".into() }, Some(12_000));
    assert!(matches!(&out[0], Action::Invalidate(id) if id == "id-a"));
    assert_eq!(loads(&out), vec![(2, "id-a".to_owned(), true)]);
    assert_eq!(engine.pending_start_ms, 12_000);
    assert!(run(&mut engine, Command::PipelineFailed { generation: 1, message: "old".into() }, None).is_empty());
}

#[test]
fn similar_tracks_join_the_queue_once() {
    let mut engine = Engine::new(true);
    run(&mut engine, Command::PlaySingle { track: track("a"), start_ms: 0 }, None);
    run(&mut engine, Command::Loaded { generation: 1, outcome: LoadOutcome::Opened { duration_ms: 60_000 } }, None);
    let out = run(
        &mut engine,
        Command::AutoplayLoaded { tracks: tracks(&["a", "x", "x", "y"]), continuation: Some("C".into()), playlist_id: None, seed: Some("id-a".into()) },
        None,
    );
    assert!(matches!(out[..], [Action::EmitQueue, Action::EmitState, Action::Prefetch, Action::SaveQueue]));
    let titles: Vec<&str> = engine.queue.items().iter().map(|i| i.track.title.as_str()).collect();
    assert_eq!(titles, vec!["a", "x", "y"]);
    assert!(!engine.autoplay.loading);
    let out = run(&mut engine, Command::SetRepeat(RepeatMode::All), None);
    assert_eq!(engine.queue.items().len(), 1, "repeating all drops the similar tracks");
    assert!(matches!(out[0], Action::EmitQueue));
    run(&mut engine, Command::AutoplayFailed, None);
    assert!(!engine.autoplay.loading);
}

#[test]
fn adding_to_an_empty_queue_starts_playing() {
    let mut engine = Engine::new(false);
    let out = run(&mut engine, Command::AddToEnd(tracks(&["a", "b"])), None);
    assert_eq!(current(&engine), "a");
    assert_eq!(loads(&out), vec![(1, "id-a".to_owned(), true)]);
    let out = run(&mut engine, Command::PlayNext(tracks(&["n"])), None);
    assert!(loads(&out).is_empty());
    let titles: Vec<&str> = engine.queue.items().iter().map(|i| i.track.title.as_str()).collect();
    assert_eq!(titles, vec!["a", "n", "b"]);
    let id = engine.queue.items()[1].id;
    run(&mut engine, Command::Remove(id), None);
    assert_eq!(engine.queue.items().len(), 2);
    run(&mut engine, Command::ClearQueue, None);
    assert_eq!(engine.queue.items().len(), 1);
    let out = run(&mut engine, Command::SaveQueue, None);
    assert!(matches!(out[..], [Action::SaveQueue]));
}

#[test]
fn the_next_two_tracks_are_fetched_ahead() {
    let mut queue = melogold::queue::PlayQueue::new();
    let list: Vec<melogold::music::Track> = ["a", "b", "c", "d"]
        .iter()
        .map(|t| melogold::music::Track { video_id: format!("id-{t}"), ..Default::default() })
        .collect();
    queue.set_list(list, 1, false);
    let upcoming = upcoming_ids(&queue, 2);
    assert_eq!(upcoming, vec!["id-c".to_string(), "id-d".to_string()]);

    let plan = prefetch_plan(&upcoming, &vec!["id-b".into(), "id-c".into()], &vec![], &vec![false, false]);
    assert_eq!(plan.cancel, vec!["id-b".to_string()]);
    assert_eq!(plan.preload, None);
    assert_eq!(plan.resolve, vec!["id-d".to_string()]);

    let plan = prefetch_plan(&upcoming, &vec![], &vec![], &vec![false, true]);
    assert_eq!(plan.preload.as_deref(), Some("id-c"));
    assert!(plan.resolve.is_empty());

    let plan = prefetch_plan(&upcoming, &vec![], &vec!["id-c".into()], &vec![false, false]);
    assert_eq!(plan.preload, None);
    assert!(prefetch_plan(&vec![], &vec!["x".into()], &vec![], &vec![]).cancel == vec!["x".to_string()]);
}
