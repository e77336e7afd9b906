use melogold::playback::reader::{answer_of, content_range_total, refreshes_exhausted, requested_end, retries_exhausted, RangeAnswer};
use melogold::logs::{crash_path, current_path, previous_path, turns_over, MAX_BYTES};
use melogold::innertube::player::Playability;
use melogold::json::{Json, Num};
use melogold::music::Track;
use melogold::playback::engine::{
    is_listen, is_playing, on_autoplay, queue_view, restarts_track, retry_delay_ms, seek_by_target, status_after,
    stops_after_skip, Autoplay, PipelineState, PlayerError, Status,
};
use melogold::playback::resolver::{classify, diagnose, expires_at, StreamError, StreamErrorKind};
use melogold::playback::song_cache::{add_range, is_complete, keeps_entry, keeps_found_first, trim_plan, CachedTrack};
use melogold::playback::stream_clients::{built_in, parse_config, profile_from, SCHEMA, URL};
use melogold::queue::PlayQueue;
use serde_json::Value;

fn json(v: &Value) -> Json {
    match v {
        Value::Null => Json::Null,
        Value::Bool(b) => Json::Bool(*b),
        Value::Number(n) => match (n.as_u64(), n.as_i64()) {
            (Some(u), _) => Json::Number(Num::PosInt(u)),
            (None, Some(i)) => Json::Number(Num::NegInt(i)),
            _ => Json::Number(Num::Float(n.as_f64().unwrap_or(0.0) as i64)),
        },
        Value::String(s) => Json::Str(s.clone()),
        Value::Array(a) => Json::Array(a.iter().map(json).collect()),
        Value::Object(m) => Json::Object(m.iter().map(|(k, v)| (k.clone(), json(v))).collect()),
    }
}

/// A file as the app reads it: JSON text to a value; text that is no JSON is no list.
fn parse(text: &str) -> Option<Vec<melogold::innertube::client::ClientProfile>> {
    let value: Value = serde_json::from_str(text).ok()?;
    parse_config(&json(&value))
}

fn answer(country: Option<&str>, open: usize, with_russia: bool, reason: Option<&str>) -> Playability {
    let mut countries: Vec<String> = (0..open).map(|i| format!("C{i}")).collect();
    if with_russia {
        countries.push("RU".into());
    }
    Playability {
        status: Some("UNPLAYABLE".into()),
        reason: reason.map(str::to_owned),
        country: country.map(str::to_owned),
        available_countries: countries,
    }
}

#[test]
fn closed_in_russia_gives_country_and_count() {
    let failure = StreamError::new(StreamErrorKind::Unavailable, "VISIONOS: UNPLAYABLE Video unavailable");
    let result = diagnose(Some(&answer(Some("RU"), 122, false, Some("Video unavailable"))), &failure).unwrap();
    assert_eq!(result.kind, StreamErrorKind::Geo);
    assert_eq!(result.country.as_deref(), Some("RU"));
    assert_eq!(result.open_countries, Some(122));
}

#[test]
fn open_here_keeps_the_old_error() {
    let failure = StreamError::new(StreamErrorKind::Extractor, "VISIONOS: no audio");
    let mut open = answer(Some("RU"), 122, true, None);
    open.status = Some("OK".into());
    assert_eq!(diagnose(Some(&open), &failure), None);
    assert_eq!(diagnose(None, &failure), None);
}

#[test]
fn phrases_about_country_age_and_removal() {
    let cases = [
        ("The uploader has not made this video available in your country", StreamErrorKind::Geo),
        ("Video blocked it in your country on copyright grounds", StreamErrorKind::Geo),
        ("Sign in to confirm your age", StreamErrorKind::Age),
        ("This video may be inappropriate for some users.", StreamErrorKind::Age),
        ("Private video", StreamErrorKind::Unavailable),
        ("This video has been removed by the uploader", StreamErrorKind::Unavailable),
        (
            "This video is no longer available because the YouTube account associated with this video has been terminated.",
            StreamErrorKind::Unavailable,
        ),
    ];
    let failure = StreamError::new(StreamErrorKind::Extractor, "x");
    for (reason, kind) in cases {
        let from_reason = diagnose(Some(&Playability { reason: Some(reason.into()), ..Default::default() }), &failure);
        assert_eq!(from_reason.as_ref().map(|e| e.kind), Some(kind), "{reason}");
        let from_client = diagnose(None, &StreamError::new(StreamErrorKind::Extractor, &format!("IOS: UNPLAYABLE {reason}")));
        assert_eq!(from_client.map(|e| e.kind), Some(kind), "{reason}");
        if kind == StreamErrorKind::Geo {
            assert_eq!(from_reason.unwrap().open_countries, None);
        }
    }
    let geo =
        diagnose(Some(&answer(Some("RU"), 0, false, Some("The uploader has not made this video available in your country"))), &failure)
            .unwrap();
    assert_eq!((geo.kind, geo.country.as_deref(), geo.open_countries), (StreamErrorKind::Geo, Some("RU"), None));
}

#[test]
fn classify_by_youtube_text() {
    assert_eq!(classify("LOGIN_REQUIRED Sign in to confirm you’re not a bot"), StreamErrorKind::BotCheck);
    assert_eq!(classify("UNPLAYABLE Video unavailable"), StreamErrorKind::Unavailable);
    assert_eq!(classify("ERROR"), StreamErrorKind::Unavailable);
    assert_eq!(classify("UNPLAYABLE This video is not available in your country"), StreamErrorKind::Geo);
    assert_eq!(classify("something else"), StreamErrorKind::Extractor);
}

#[test]
fn expiry_minus_five_minutes() {
    let now = 1_000_000;
    assert_eq!(expires_at("https://rr1.googlevideo.com/videoplayback?expire=2000&itag=140", now), 2_000_000 - 300_000);
    assert_eq!(expires_at("https://x/videoplayback?itag=140", now), now + 5 * 3_600_000);
    assert_eq!(expires_at("https://x/videoplayback?expire=1", now), now + 60_000);
}

#[test]
fn retries_by_class() {
    assert_eq!(StreamError::new(StreamErrorKind::Network, "n").retries(), 2);
    assert_eq!(StreamError::new(StreamErrorKind::Timeout, "t").retries(), 1);
    assert_eq!(StreamError::new(StreamErrorKind::Geo, "g").retries(), 0);
    assert!(StreamError::new(StreamErrorKind::Age, "a").is_final());
    assert_eq!(retry_delay_ms(1), 1000);
    assert_eq!(retry_delay_ms(2), 3000);
}

#[test]
fn ranges_merge() {
    let mut ranges = Vec::new();
    add_range(&mut ranges, 10, 20);
    add_range(&mut ranges, 0, 5);
    add_range(&mut ranges, 5, 10);
    add_range(&mut ranges, 30, 40);
    assert_eq!(ranges, [(0, 20), (30, 40)]);
    assert!(!is_complete(Some(40), &ranges));
    add_range(&mut ranges, 18, 31);
    assert!(is_complete(Some(40), &ranges));
    assert!(!is_complete(None, &ranges));
}

#[test]
fn repository_file_is_valid() {
    let text = r#"{
        "schema": 1,
        "clients": [
            {
                "name": "VISIONOS",
                "id": 101,
                "version": "1.02",
                "host": "www.youtube.com",
                "userAgent": "Mozilla/5.0 (Macintosh; Intel Mac OS X 15_7_3) AppleWebKit/605.1.15 (KHTML, like Gecko) Version/26.0 Safari/605.1.15",
                "referer": "https://www.youtube.com/",
                "deviceMake": "Apple",
                "deviceModel": "RealityDevice17,1",
                "osName": "visionOS",
                "osVersion": "26.5.23O471"
            }
        ]
    }"#;
    let clients = parse(text).expect("the repository's file is valid");
    assert_eq!(clients[0], built_in()[0], "the built-in list matches the file");
    assert_eq!(SCHEMA, 1);
    assert!(URL.ends_with("config/stream-clients.json"));
}

#[test]
fn bad_files_are_rejected() {
    assert!(parse("{}").is_none());
    assert!(parse(r#"{"schema": 2, "clients": [{}]}"#).is_none());
    assert!(parse(r#"{"schema": 1, "clients": []}"#).is_none());
    assert!(parse(r#"{"schema": 1, "clients": [{"name": "X", "id": 1, "version": "", "host": "h", "userAgent": "u"}]}"#).is_none());
    assert!(parse("not json").is_none());
    let ok = parse(r#"{"schema": 1, "clients": [{"name": "X", "id": 1, "version": "1", "host": "h", "userAgent": "u", "future": 1}]}"#);
    assert_eq!(ok.unwrap()[0].name, "X");
}

#[test]
fn profiles_read_as_serde_reads_a_struct() {
    let value = json(&serde_json::from_str::<Value>(r#"["X", 7, "1", "h", "u", null, "MOBILE"]"#).unwrap());
    let profile = profile_from(&value).unwrap();
    assert_eq!(profile.id, 7);
    assert_eq!(profile.platform.as_deref(), Some("MOBILE"));
    assert_eq!(profile.referer, None);
    let wrong = json(&serde_json::from_str::<Value>(r#"{"name": "X", "id": -1, "version": "1", "host": "h", "userAgent": "u"}"#).unwrap());
    assert!(profile_from(&wrong).is_none());
}

#[test]
fn playing_and_pipeline_states() {
    assert!(is_playing(Status::Buffering, false));
    assert!(is_playing(Status::Resolving, true));
    assert!(!is_playing(Status::Resolving, false));
    assert!(!is_playing(Status::Paused, true));
    assert_eq!(status_after(PipelineState::Paused, true), Some(Status::Buffering));
    assert_eq!(status_after(PipelineState::Paused, false), Some(Status::Paused));
    assert_eq!(status_after(PipelineState::Ready, true), None);
}

#[test]
fn seeking_by_steps_stays_inside_the_track() {
    assert_eq!(seek_by_target(10_000, 5_000, Some(60_000)), 15_000);
    assert_eq!(seek_by_target(1_000, -5_000, Some(60_000)), 0);
    assert_eq!(seek_by_target(59_000, 5_000, Some(60_000)), 59_500);
    assert_eq!(seek_by_target(100, 10, Some(300)), 0);
    assert_eq!(seek_by_target(100, 10, None), 110);
    assert!(restarts_track(Some(3_000_000_001)));
    assert!(!restarts_track(Some(3_000_000_000)));
    assert!(!restarts_track(None));
    assert!(is_listen(5_000_000_000));
    assert!(!is_listen(4_999_999_999));
}

#[test]
fn three_skips_in_a_row_stop_playback() {
    assert!(!stops_after_skip(2, true));
    assert!(stops_after_skip(3, true));
    assert!(stops_after_skip(1, false));
    let error = PlayerError::from(&StreamError::new(StreamErrorKind::Geo, "closed"), &Track { title: "t".into(), ..Default::default() });
    assert_eq!(error.kind, StreamErrorKind::Geo);
    assert_eq!(error.message, "closed");
}

fn track(id: &str) -> Track {
    Track { video_id: id.into(), title: id.into(), ..Default::default() }
}

#[test]
fn autoplay_adds_only_new_tracks() {
    let mut queue = PlayQueue::new();
    queue.set_single(track("a"));
    let mut autoplay = Autoplay::new();
    autoplay.loading = true;
    let mut gone = track("gone");
    gone.unavailable = true;
    let tracks = vec![track("a"), track("b"), track("played"), track("b"), gone, track("c")];
    let added = on_autoplay(&mut autoplay, &mut queue, tracks, Some("C1".into()), Some("RDX".into()), Some("a".into()), &vec!["played".to_owned()]);
    assert!(added);
    assert!(!autoplay.loading);
    assert_eq!(autoplay.seed.as_deref(), Some("a"));
    assert_eq!(autoplay.continuation.as_deref(), Some("C1"));
    let ids: Vec<&str> = queue.items().iter().map(|i| i.track.video_id.as_str()).collect();
    assert_eq!(ids, ["a", "b", "c"]);
    let view = queue_view(&queue);
    assert_eq!(view.current, Some(0));
    assert_eq!(view.autoplay_from, Some(1));
    let again = on_autoplay(&mut autoplay, &mut queue, vec![track("b")], Some("C1".into()), None, None, &vec![]);
    assert!(!again);
    assert_eq!(autoplay.seeds_without_new, 1);
    assert_eq!(autoplay.continuation, None);
}

#[test]
fn the_limit_removes_the_oldest_but_not_what_plays() {
    let tracks = vec![
        CachedTrack { last_read: 300, disk_bytes: 10, pinned: false },
        CachedTrack { last_read: 100, disk_bytes: 10, pinned: false },
        CachedTrack { last_read: 200, disk_bytes: 10, pinned: true },
    ];
    assert_eq!(trim_plan(&tracks, 25), vec![1]);
    assert_eq!(trim_plan(&tracks, 5), vec![1, 0], "the playing track stays even over the limit");
    assert!(trim_plan(&tracks, 30).is_empty());
    assert!(trim_plan(&tracks, 0).is_empty(), "0 is no limit");
    let ties = vec![
        CachedTrack { last_read: 100, disk_bytes: 4, pinned: false },
        CachedTrack { last_read: 100, disk_bytes: 4, pinned: false },
    ];
    assert_eq!(trim_plan(&ties, 4), vec![0]);
}

#[test]
fn another_format_or_length_drops_the_kept_bytes() {
    assert!(keeps_entry(140, Some(10), 140, Some(10)));
    assert!(keeps_entry(140, None, 140, Some(10)));
    assert!(keeps_entry(140, Some(10), 140, None));
    assert!(!keeps_entry(140, Some(10), 139, Some(8)));
    assert!(!keeps_entry(140, Some(10), 140, Some(12)));
    assert!(keeps_found_first(5, 5));
    assert!(!keeps_found_first(4, 5));
}

#[test]
fn the_log_turns_over_before_passing_two_megabytes() {
    assert_eq!(current_path("/d/logs"), "/d/logs/current.log");
    assert_eq!(previous_path("/d/logs"), "/d/logs/previous.log");
    assert_eq!(crash_path("/d/logs/"), "/d/logs/last-crash.txt");
    let line = 1024 * 1024;
    assert!(!turns_over(0, 3 * line), "an empty file takes any line");
    assert!(!turns_over(line, line));
    assert!(turns_over(2 * line, line));
    assert!(turns_over(MAX_BYTES, 1));
    assert!(!turns_over(MAX_BYTES - 1, 1));
}

#[test]
fn range_requests_and_their_answers() {
    assert_eq!(requested_end(0, 100, None), Some(99));
    assert_eq!(requested_end(90, 100, Some(120)), Some(119), "not past the last byte");
    assert_eq!(requested_end(120, 10, Some(120)), None, "nothing left");
    assert_eq!(requested_end(5, 0, None), None, "nothing asked");
    assert_eq!(answer_of(403), RangeAnswer::Refresh);
    assert_eq!(answer_of(410), RangeAnswer::Refresh);
    assert_eq!(answer_of(416), RangeAnswer::Empty);
    assert_eq!(answer_of(206), RangeAnswer::Bytes);
    assert_eq!(answer_of(500), RangeAnswer::Failed);
    assert!(!refreshes_exhausted(1));
    assert!(refreshes_exhausted(2));
    assert!(!retries_exhausted(2));
    assert!(retries_exhausted(3));
    assert_eq!(content_range_total("bytes 0-99/1234"), Some(1234));
    assert_eq!(content_range_total("bytes 0-99/*"), None);
    assert_eq!(content_range_total("+77"), Some(77));
    assert_eq!(content_range_total("bytes 0-99/99999999999999999999"), None);
}
