use melogold::music::Track;
use melogold::queue::{PlayQueue, RepeatMode};

fn track(title: &str) -> Track {
    Track { video_id: format!("id-{title}"), title: title.into(), ..Default::default() }
}

fn tracks(titles: &[&str]) -> Vec<Track> {
    titles.iter().map(|t| track(t)).collect()
}

fn titles(queue: &PlayQueue) -> Vec<String> {
    queue.items().iter().map(|i| i.track.title.clone()).collect()
}

fn ordered(queue: &PlayQueue) -> Vec<String> {
    queue.ordered().iter().map(|i| i.track.title.clone()).collect()
}

fn current(queue: &PlayQueue) -> &str {
    &queue.current().unwrap().track.title
}

#[test]
fn list_starts_at_chosen_track() {
    let mut queue = PlayQueue::new();
    queue.set_list(tracks(&["a", "b", "c"]), 1, false);
    assert_eq!(current(&queue), "b");
    assert!(queue.move_next(false));
    assert_eq!(current(&queue), "c");
    assert!(!queue.move_next(false));
}

#[test]
fn play_next_goes_right_after_current_and_add_to_end_before_autoplay() {
    let mut queue = PlayQueue::new();
    queue.set_single(track("a"));
    queue.append_autoplay(tracks(&["x", "y"]));
    queue.play_next(tracks(&["next"]));
    queue.add_to_end(tracks(&["end"]));
    assert_eq!(titles(&queue), ["a", "next", "end", "x", "y"]);
    assert!(!queue.items()[2].from_autoplay);
    assert!(queue.items()[3].from_autoplay);
}

#[test]
fn shuffle_keeps_current_first_and_autoplay_last() {
    let mut queue = PlayQueue::new();
    queue.set_list(tracks(&["a", "b", "c", "d", "e"]), 2, false);
    queue.append_autoplay(tracks(&["x", "y"]));
    queue.shuffle(true);
    let order = ordered(&queue);
    assert_eq!(order[0], "c");
    assert_eq!(order[5..], ["x", "y"]);
    let mut middle = order[1..5].to_vec();
    middle.sort();
    assert_eq!(middle, ["a", "b", "d", "e"]);
    queue.shuffle(false);
    assert_eq!(titles(&queue), ["a", "b", "c", "d", "e", "x", "y"]);
    assert_eq!(current(&queue), "c");
}

#[test]
fn repeat_all_drops_autoplay_and_wraps() {
    let mut queue = PlayQueue::new();
    queue.set_list(tracks(&["a", "b"]), 1, false);
    queue.append_autoplay(tracks(&["x"]));
    queue.set_repeat(RepeatMode::All);
    assert_eq!(titles(&queue), ["a", "b"]);
    assert!(queue.move_next(false));
    assert_eq!(current(&queue), "a");
    queue.append_autoplay(tracks(&["z"]));
    assert_eq!(queue.len(), 2);
}

#[test]
fn repeat_one_repeats_only_automatically() {
    let mut queue = PlayQueue::new();
    queue.set_list(tracks(&["a", "b"]), 0, false);
    queue.set_repeat(RepeatMode::One);
    assert_eq!(queue.peek_next(false), Some(0));
    assert_eq!(queue.peek_next(true), Some(1));
}

#[test]
fn dragging_autoplay_item_up_makes_it_users() {
    let mut queue = PlayQueue::new();
    queue.set_single(track("a"));
    queue.append_autoplay(tracks(&["x", "y"]));
    let y = queue.items()[2].id;
    queue.move_item(y, 1);
    assert_eq!(titles(&queue), ["a", "y", "x"]);
    assert!(!queue.items()[1].from_autoplay);
    assert_eq!(queue.autoplay_start(), 2);
}

#[test]
fn remove_keeps_current_and_snapshot_restores() {
    let mut queue = PlayQueue::new();
    queue.set_list(tracks(&["a", "b", "c"]), 1, false);
    let snapshot = queue.snapshot(1234);
    let a = queue.items()[0].id;
    let b = queue.items()[1].id;
    queue.remove(b);
    queue.remove(a);
    assert_eq!(current(&queue), "b");
    assert_eq!(queue.len(), 2);
    queue.restore(snapshot);
    assert_eq!(titles(&queue), ["a", "b", "c"]);
    assert_eq!(current(&queue), "b");
    queue.play_next(tracks(&["n"]));
    assert!(queue.items().iter().map(|i| i.id).collect::<std::collections::HashSet<_>>().len() == 4, "ids do not repeat");
}

#[test]
fn play_next_in_shuffle_goes_right_after_current() {
    let mut queue = PlayQueue::new();
    queue.set_list(tracks(&["a", "b", "c"]), 0, false);
    let mut order = queue.shuffle_candidates();
    order.reverse();
    queue.set_shuffle(true, order);
    assert_eq!(ordered(&queue), ["a", "c", "b"]);
    queue.play_next(tracks(&["n"]));
    assert_eq!(ordered(&queue), ["a", "n", "c", "b"]);
    queue.add_to_end(tracks(&["e"]));
    assert_eq!(ordered(&queue), ["a", "n", "c", "b", "e"]);
}

#[test]
fn previous_and_upcoming() {
    let mut queue = PlayQueue::new();
    queue.set_list(tracks(&["a", "b", "c", "d"]), 1, false);
    assert_eq!(queue.upcoming(2), [2, 3]);
    assert!(queue.move_previous());
    assert_eq!(current(&queue), "a");
    assert!(!queue.move_previous());
    queue.set_repeat(RepeatMode::All);
    assert!(queue.move_previous());
    assert_eq!(current(&queue), "d");
}

#[test]
fn repeat_button_cycles_through_three_modes() {
    assert_eq!(RepeatMode::Off.next(), RepeatMode::All);
    assert_eq!(RepeatMode::All.next(), RepeatMode::One);
    assert_eq!(RepeatMode::One.next(), RepeatMode::Off);
}

#[test]
fn previous_undoes_next() {
    let mut queue = PlayQueue::new();
    queue.set_list(tracks(&["a", "b", "c"]), 0, false);
    assert!(queue.move_next(true));
    assert!(queue.move_previous());
    assert_eq!(current(&queue), "a");
}

#[test]
fn clearing_keeps_only_the_current_track() {
    let mut queue = PlayQueue::new();
    queue.set_list(tracks(&["a", "b", "c"]), 1, false);
    queue.clear_except_current();
    assert_eq!(titles(&queue), ["b"]);
    assert_eq!(current(&queue), "b");
    assert_eq!(queue.user_added_count(), 1);
}

#[test]
fn jumping_to_an_item_makes_it_current() {
    let mut queue = PlayQueue::new();
    queue.set_list(tracks(&["a", "b", "c"]), 0, false);
    let c = queue.items()[2].id;
    assert!(queue.jump_to(c));
    assert_eq!(current(&queue), "c");
    assert!(!queue.jump_to(9999));
}

#[test]
fn autoplay_item_moved_into_user_part_in_shuffle_becomes_user_item() {
    let mut queue = PlayQueue::new();
    queue.set_single(track("a"));
    queue.append_autoplay(tracks(&["x", "y"]));
    let order = queue.shuffle_candidates();
    queue.set_shuffle(true, order);
    assert_eq!(ordered(&queue), ["a", "x", "y"]);
    let y = queue.items()[2].id;
    queue.move_item(y, 1);
    assert_eq!(ordered(&queue), ["a", "y", "x"]);
    assert!(!queue.items()[2].from_autoplay);
    assert!(queue.items()[1].from_autoplay);
}
