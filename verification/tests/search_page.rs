use melogold::music::{AlbumItem, ItemsPage, MusicItem, SearchSummary, Track};
use melogold::search_page::{all_results, AllOutcome, PageOutcome, Scope, SearchState};

fn song(id: &str) -> MusicItem {
    MusicItem::Track(Track { video_id: id.into(), title: id.into(), ..Default::default() })
}

fn album(id: &str) -> MusicItem {
    MusicItem::Album(AlbumItem { browse_id: id.into(), title: id.into(), ..Default::default() })
}

fn keys(items: &[MusicItem]) -> Vec<String> {
    items.iter().map(|i| i.key()).collect()
}

fn page(ids: &[&str], continuation: Option<&str>) -> ItemsPage {
    ItemsPage { items: ids.iter().map(|id| song(id)).collect(), continuation: continuation.map(String::from) }
}

#[test]
fn all_tab_puts_the_best_match_first_and_adds_only_missing_videos() {
    let summary = SearchSummary {
        top: Some(song("a")),
        items: vec![song("b"), song("a"), album("x"), song("c"), song("d"), song("e"), song("f"), song("g"), song("h"), song("i")],
    };
    let web = ItemsPage {
        items: vec![song("b"), album("y"), song("v1"), song("v2"), song("v3"), song("v4"), song("v5"), song("v6"), song("v7")],
        continuation: None,
    };
    let (rows, videos) = all_results(Some(summary), Some(web)).unwrap();
    assert_eq!(keys(&rows), vec!["t:a", "t:b", "a:x", "t:c", "t:d", "t:e", "t:f", "t:g"]);
    assert_eq!(keys(&videos), vec!["t:v1", "t:v2", "t:v3", "t:v4", "t:v5", "t:v6"]);
}

#[test]
fn all_tab_fails_only_when_both_answers_fail() {
    assert!(all_results(None, None).is_none());
    let (rows, videos) = all_results(None, Some(page(&["v"], None))).unwrap();
    assert!(rows.is_empty());
    assert_eq!(keys(&videos), vec!["t:v"]);
    let (rows, videos) = all_results(Some(SearchSummary { top: None, items: vec![album("x")] }), None).unwrap();
    assert_eq!(keys(&rows), vec!["a:x"]);
    assert!(videos.is_empty());
}

#[test]
fn answers_to_an_older_load_are_dropped() {
    let mut state = SearchState::new();
    let first = state.show(Scope::Music, 0);
    let second = state.load();
    assert_eq!(second, first + 1);
    assert!(matches!(state.page_arrived(first, page(&["a"], Some("c1"))), PageOutcome::Stale));
    assert!(state.continuation.is_none());
    match state.page_arrived(second, page(&["a", "b", "a"], Some("c1"))) {
        PageOutcome::Rows(rows) => assert_eq!(keys(&rows), vec!["t:a", "t:b"]),
        other => panic!("{other:?}"),
    }
    assert_eq!(state.continuation.as_deref(), Some("c1"));
    assert!(matches!(state.page_arrived(second, page(&[], None)), PageOutcome::Nothing));
}

#[test]
fn next_pages_add_only_new_rows_and_stop_on_a_repeated_token() {
    let mut state = SearchState::new();
    let generation = state.show(Scope::YouTube, 1);
    assert!(matches!(state.page_arrived(generation, page(&["a", "b"], Some("c1"))), PageOutcome::Rows(_)));
    let (g, token) = state.start_more().unwrap();
    assert_eq!((g, token.as_str()), (generation, "c1"));
    assert!(state.loading_more);
    assert!(state.start_more().is_none());
    let rows = state.more_arrived(g, &token, Some(page(&["b", "c"], Some("c2"))));
    assert_eq!(keys(&rows), vec!["t:c"]);
    assert_eq!(state.continuation.as_deref(), Some("c2"));
    assert!(!state.loading_more);
    let (g, token) = state.start_more().unwrap();
    let rows = state.more_arrived(g, &token, Some(page(&["d"], Some("c2"))));
    assert_eq!(keys(&rows), vec!["t:d"]);
    assert!(state.continuation.is_none());
    assert!(state.start_more().is_none());
}

#[test]
fn the_all_tab_has_no_next_pages_and_a_failed_page_adds_nothing() {
    let mut state = SearchState::new();
    let generation = state.show(Scope::All, 0);
    match state.all_arrived(generation, Some(SearchSummary { top: None, items: vec![song("a")] }), Some(page(&["a", "b"], Some("c")))) {
        AllOutcome::Sections { catalogue, videos } => {
            assert_eq!(keys(&catalogue), vec!["t:a"]);
            assert_eq!(keys(&videos), vec!["t:b"]);
        }
        other => panic!("{other:?}"),
    }
    assert!(state.start_more().is_none());
    assert!(matches!(state.all_arrived(generation, None, None), AllOutcome::Failed));
    assert!(matches!(state.all_arrived(generation, Some(SearchSummary::default()), None), AllOutcome::Nothing));
    assert!(matches!(state.all_arrived(generation + 1, None, None), AllOutcome::Stale));

    let generation = state.show(Scope::Music, 2);
    state.page_arrived(generation, page(&["a"], Some("c")));
    let (g, token) = state.start_more().unwrap();
    assert!(state.more_arrived(g, &token, None).is_empty());
    assert_eq!(state.continuation.as_deref(), Some("c"));
    assert!(!state.loading_more);
}

#[test]
fn a_new_filter_reloads_and_the_same_one_does_not() {
    let mut state = SearchState::new();
    let generation = state.show(Scope::Music, 0);
    assert_eq!(state.select_filter(0), None);
    assert_eq!(state.select_filter(7), None);
    assert_eq!(state.generation, generation);
    assert_eq!(state.select_filter(3), Some(generation + 1));
    assert_eq!(state.filter, 3);
}
