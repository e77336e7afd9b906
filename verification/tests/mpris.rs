use melogold::music::{ArtistRef, Track};
use melogold::mpris::{can_seek, loop_status, metadata, playback_status, repeat_of_loop_status, seek_offset_ms, track_path, NO_TRACK};
use melogold::playback::engine::Status;
use melogold::queue::RepeatMode;

#[test]
fn track_paths_come_from_queue_item_ids() {
    assert_eq!(track_path(Some(42), true), "/app/melogold/Melogold/track/42");
    assert_eq!(track_path(Some(-5), true), "/app/melogold/Melogold/track/0");
    assert_eq!(track_path(Some(42), false), NO_TRACK);
    assert_eq!(track_path(None, true), NO_TRACK);
}

#[test]
fn playback_and_loop_status_words() {
    assert_eq!(playback_status(false, true, Status::Playing), "Stopped");
    assert_eq!(playback_status(true, true, Status::Idle), "Stopped");
    assert_eq!(playback_status(true, true, Status::Buffering), "Playing");
    assert_eq!(playback_status(true, false, Status::Paused), "Paused");
    for mode in [RepeatMode::Off, RepeatMode::All, RepeatMode::One] {
        assert_eq!(repeat_of_loop_status(loop_status(mode)), mode);
    }
    assert_eq!(loop_status(RepeatMode::All), "Playlist");
    assert_eq!(repeat_of_loop_status("Sometimes"), RepeatMode::Off);
}

#[test]
fn seek_offsets_round_toward_zero() {
    assert_eq!(seek_offset_ms(5_000_999), 5000);
    assert_eq!(seek_offset_ms(-5_000_999), -5000);
    assert_eq!(seek_offset_ms(999), 0);
    assert_eq!(seek_offset_ms(i64::MIN), i64::MIN / 1000);
}

#[test]
fn metadata_of_a_track_and_of_none() {
    let none = metadata(None, Some(3), None);
    assert_eq!(none.track_id, NO_TRACK);
    assert!(none.title.is_none() && none.artists.is_empty() && none.url.is_none());

    let track = Track {
        video_id: "dQw4w9WgXcQ".into(),
        title: "Never Gonna Give You Up".into(),
        artists: vec![ArtistRef { id: None, name: "Rick Astley".into() }, ArtistRef { id: None, name: "B".into() }],
        album_title: Some("Whenever You Need Somebody".into()),
        duration_ms: Some(213_000),
        ..Default::default()
    };
    let m = metadata(Some(&track), Some(7), None);
    assert_eq!(m.track_id, "/app/melogold/Melogold/track/7");
    assert_eq!(m.title.as_deref(), Some("Never Gonna Give You Up"));
    assert_eq!(m.artists, vec!["Rick Astley".to_string(), "B".to_string()]);
    assert_eq!(m.album.as_deref(), Some("Whenever You Need Somebody"));
    assert_eq!(m.length_us, Some(213_000_000));
    assert_eq!(m.url.as_deref(), Some("https://music.youtube.com/watch?v=dQw4w9WgXcQ"));
    assert!(m.art_url.unwrap().contains("dQw4w9WgXcQ"));

    let captioned = Track { artists_text: Some("A & B".into()), ..track };
    let m = metadata(Some(&captioned), Some(7), Some(1_000));
    assert_eq!(m.artists, vec!["A & B".to_string()]);
    assert_eq!(m.length_us, Some(1_000_000));
}

#[test]
fn live_streams_cannot_seek() {
    let live = Track { video_type: Some("live".into()), ..Default::default() };
    assert!(!can_seek(Some(&live)));
    assert!(can_seek(Some(&Track::default())));
    assert!(!can_seek(None));
}
