use melogold::innertube::music_parsers::{contents_are_safe, panel_is_safe, panel_video, sections_are_safe, tree_is_safe};
use melogold::innertube::web_parsers::{grid_is_safe, video_is_safe, web_search_is_safe};
use melogold::json::Json;
use melogold::text::duration_overflows_text;

fn obj(pairs: Vec<(&str, Json)>) -> Json {
    Json::Object(pairs.into_iter().map(|(k, v)| (k.to_string(), v)).collect())
}

fn text(s: &str) -> Json {
    obj(vec![("simpleText", Json::Str(s.into()))])
}

fn panel(length: &str) -> Json {
    obj(vec![("videoId", Json::Str("v".into())), ("title", text("T")), ("lengthText", text(length))])
}

const HUGE: &str = "99999999999999999:00";

#[test]
fn duration_overflow_is_told_apart_from_invalid_text() {
    assert!(duration_overflows_text(HUGE));
    assert!(duration_overflows_text("153722867280913:00"));
    assert!(!duration_overflows_text("3:45"));
    assert!(!duration_overflows_text("abc"));
    assert!(!duration_overflows_text("99999999999999999999999:00"), "a part past u64 is invalid, not overflow");
}

#[test]
fn panel_rows_are_checked_before_reading() {
    assert!(panel_is_safe(&panel("3:45")));
    assert!(!panel_is_safe(&panel(HUGE)));
    let row = panel("3:45");
    assert_eq!(panel_video(Some(&row)).unwrap().duration_ms, Some(225_000));
    let tree = obj(vec![("contents", Json::Array(vec![obj(vec![("playlistPanelVideoRenderer", panel(HUGE))])]))]);
    assert!(!tree_is_safe(&tree));
    let tree = obj(vec![("contents", Json::Array(vec![obj(vec![("playlistPanelVideoRenderer", panel("1:00"))])]))]);
    assert!(tree_is_safe(&tree));
}

#[test]
fn shelves_and_web_results_are_checked_before_reading() {
    let contents = Json::Array(vec![obj(vec![("playlistPanelVideoRenderer", panel(HUGE))])]);
    assert!(!contents_are_safe(Some(&contents)));
    let sections = Json::Array(vec![obj(vec![("musicShelfRenderer", obj(vec![("contents", contents)]))])]);
    assert!(!sections_are_safe(Some(&sections)));
    assert!(sections_are_safe(None));

    let video = obj(vec![("videoId", Json::Str("v".into())), ("title", text("T")), ("lengthText", text(HUGE))]);
    assert!(!video_is_safe(&video));
    let live = obj(vec![
        ("videoId", Json::Str("v".into())),
        ("title", text("T")),
        ("lengthText", text(HUGE)),
        ("badges", Json::Array(vec![obj(vec![("metadataBadgeRenderer", obj(vec![("style", Json::Str("BADGE_STYLE_TYPE_LIVE_NOW".into()))]))])])),
    ]);
    assert!(video_is_safe(&live), "a live video's length is not read");
    let grid = Json::Array(vec![obj(vec![("richItemRenderer", obj(vec![("content", obj(vec![("videoRenderer", video)]))]))])]);
    assert!(!grid_is_safe(Some(&grid)));
    assert!(web_search_is_safe(&obj(vec![])));
}
