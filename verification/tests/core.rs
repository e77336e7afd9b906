use melogold::app_info::{server_user_agent, tool_user_agent, VERSION};
use melogold::countries::{name, COUNTRIES};
use melogold::links::{is_melogold_link, open_text, parse, MelogoldLink, Opened};
use melogold::music::{MusicItem, Track};
use melogold::paths::AppPaths;
use melogold::plurals::{form, PluralForm};
use melogold::system::{device_name, os_pretty_name, parse_os_release, product_name};
use melogold::thumbnails::{fallback, for_video, is_wide, sized};
use melogold::text::{format_duration, parse_duration};

#[test]
fn user_agents_follow_the_contract() {
    assert_eq!(server_user_agent(), format!("melogold-linux/{VERSION}"));
    assert!(tool_user_agent().starts_with("Melogold/"));
    assert!(tool_user_agent().ends_with("(+https://github.com/melogold-app/melogoldLinux)"));
}

#[test]
fn version_has_no_suffix() {
    assert!(VERSION.split('.').count() == 3 && VERSION.chars().all(|c| c.is_ascii_digit() || c == '.'), "{VERSION}");
}

#[test]
fn names_in_both_languages() {
    assert!(COUNTRIES.windows(2).all(|p| p[0].0 < p[1].0));
    assert_eq!(name("RU", true), "Россия");
    assert_eq!(name("RU", false), "Russia");
    assert_eq!(name("DE", true), "Германия");
    assert_eq!(name("R1", true), "R1");
    assert_eq!(name("QM", false), "QM");
}

#[test]
fn server_link_is_percent_decoded() {
    assert_eq!(
        parse("melogold://server?v=1&url=https%3A%2F%2Fmusic.example.com&sid=5b1c"),
        Some(MelogoldLink::Server { url: "https://music.example.com".into(), server_id: Some("5b1c".into()) })
    );
    assert_eq!(
        parse("  MELOGOLD://server?url=http%3A%2F%2F192.168.1.50%3A8080 "),
        Some(MelogoldLink::Server { url: "http://192.168.1.50:8080".into(), server_id: None })
    );
}

#[test]
fn link_modes() {
    assert_eq!(
        parse("melogold://link?v=1&mode=invite&server=https%3A%2F%2Fa.b&sid=s&token=t"),
        Some(MelogoldLink::Invite { server: "https://a.b".into(), server_id: "s".into(), token: "t".into() })
    );
    assert_eq!(
        parse("melogold://link?mode=request&server=https%3A%2F%2Fa.b&sid=s&token=t&extra=1"),
        Some(MelogoldLink::Request { server: "https://a.b".into(), server_id: "s".into() })
    );
}

#[test]
fn broken_links_are_unsupported_not_ignored() {
    assert_eq!(parse("melogold://server?v=2&url=x"), Some(MelogoldLink::Unsupported));
    assert_eq!(parse("melogold://link?mode=invite&server=a&sid=b"), Some(MelogoldLink::Unsupported));
    assert_eq!(parse("melogold://play?id=1"), Some(MelogoldLink::Unsupported));
    assert_eq!(parse("https://youtu.be/dQw4w9WgXcQ"), None);
}

#[test]
fn link_scheme_is_recognised_in_any_case() {
    assert!(is_melogold_link(" MeloGold://server"));
    assert!(!is_melogold_link("https://melogold.app"));
}

#[test]
fn subtitle_skips_missing_parts() {
    let track = Track { artists_text: Some("Rick Astley".into()), ..Default::default() };
    assert_eq!(track.subtitle(), "Rick Astley");
    let track = Track { artists_text: Some("A".into()), album_title: Some("B".into()), ..Default::default() };
    assert_eq!(track.subtitle(), "A · B");
}

#[test]
fn video_types() {
    for (kind, video) in [("song", false), ("video", true), ("ugc", true), ("live", true)] {
        let track = Track { video_type: Some(kind.into()), ..Default::default() };
        assert_eq!(track.is_video(), video, "{kind}");
    }
}

#[test]
fn item_keys_tell_kinds_apart() {
    let track = MusicItem::Track(Track { video_id: "dQw4w9WgXcQ".into(), ..Default::default() });
    assert_eq!(track.key(), "t:dQw4w9WgXcQ");
}

#[test]
fn music_cache_is_not_under_xdg_cache() {
    let paths = AppPaths::with_roots("/d/melogold", "/c/melogold", "/cfg/melogold");
    assert!(paths.song_cache().starts_with("/d/melogold"));
    assert!(paths.downloads().starts_with("/d/melogold"));
    assert!(paths.images().starts_with("/c/melogold"));
    assert_eq!(std::path::PathBuf::from(paths.settings()), std::path::PathBuf::from("/cfg/melogold/settings.json"));
}

#[test]
fn paths_follow_xdg_variables() {
    let paths = AppPaths::from_vars(Some("/home/u"), None, Some("/tmp/cache"), None);
    assert_eq!(paths.data(), "/home/u/.local/share/melogold");
    assert_eq!(paths.cache(), "/tmp/cache/melogold");
    assert_eq!(paths.config(), "/home/u/.config/melogold");
}

#[test]
fn russian_forms() {
    for (n, expected) in [
        (1, PluralForm::One),
        (21, PluralForm::One),
        (121, PluralForm::One),
        (11, PluralForm::Many),
        (2, PluralForm::Few),
        (24, PluralForm::Few),
        (122, PluralForm::Few),
        (12, PluralForm::Many),
        (14, PluralForm::Many),
        (0, PluralForm::Many),
        (5, PluralForm::Many),
        (111, PluralForm::Many),
    ] {
        assert_eq!(form(n, true), expected, "{n}");
    }
}

#[test]
fn english_forms() {
    assert_eq!(form(1, false), PluralForm::One);
    assert_eq!(form(0, false), PluralForm::Other);
    assert_eq!(form(21, false), PluralForm::Other);
}

#[test]
fn os_release_values() {
    let text = "NAME=\"Fedora Linux\"\nPRETTY_NAME=\"Fedora Linux 44 (Workstation Edition)\"\nID=fedora\nVERSION_ID='44'\n";
    assert_eq!(parse_os_release(text, "PRETTY_NAME").as_deref(), Some("Fedora Linux 44 (Workstation Edition)"));
    assert_eq!(parse_os_release(text, "ID").as_deref(), Some("fedora"));
    assert_eq!(parse_os_release(text, "VERSION_ID").as_deref(), Some("44"));
    assert_eq!(parse_os_release(text, "MISSING"), None);
}

#[test]
fn placeholder_product_names_are_dropped() {
    assert_eq!(product_name(Some("To Be Filled By O.E.M.\n")), None);
    assert_eq!(product_name(Some("ThinkPad X1\n")).as_deref(), Some("ThinkPad X1"));
    assert_eq!(product_name(None), None);
}

#[test]
fn googleusercontent_is_resized() {
    assert_eq!(
        sized(Some("https://lh3.googleusercontent.com/abc=w60-h60-l90-rj"), 544).as_deref(),
        Some("https://lh3.googleusercontent.com/abc=w544-h544-l90-rj")
    );
    assert_eq!(sized(Some("//yt3.ggpht.com/x=s88"), 120).as_deref(), Some("https://yt3.ggpht.com/x=w120-h120-l90-rj"));
}

#[test]
fn video_frames_pick_small_or_large() {
    let url = "https://i.ytimg.com/vi/dQw4w9WgXcQ/hqdefault.jpg?sqp=1";
    assert_eq!(sized(Some(url), 120).as_deref(), Some("https://i.ytimg.com/vi/dQw4w9WgXcQ/mqdefault.jpg"));
    assert_eq!(sized(Some(url), 544).as_deref(), Some("https://i.ytimg.com/vi/dQw4w9WgXcQ/hq720.jpg"));
    assert!(is_wide(Some(url)));
    assert!(!is_wide(Some("https://lh3.googleusercontent.com/a")));
}

#[test]
fn fallback_only_for_large_frames() {
    assert_eq!(
        fallback("https://i.ytimg.com/vi/dQw4w9WgXcQ/hq720.jpg").as_deref(),
        Some("https://i.ytimg.com/vi/dQw4w9WgXcQ/hqdefault.jpg")
    );
    assert_eq!(fallback("https://i.ytimg.com/vi/dQw4w9WgXcQ/mqdefault.jpg"), None);
}

#[test]
fn frames_of_a_video_by_size() {
    assert_eq!(for_video("dQw4w9WgXcQ", 120), "https://i.ytimg.com/vi/dQw4w9WgXcQ/mqdefault.jpg");
}

#[test]
fn system_and_device_names() {
    let etc = "NAME=Fedora\nPRETTY_NAME=\"Fedora Linux 44\"\n";
    assert_eq!(os_pretty_name(Some(etc), Some("PRETTY_NAME=Other")), "Fedora Linux 44");
    assert_eq!(os_pretty_name(None, Some("PRETTY_NAME=Other")), "Other");
    assert_eq!(os_pretty_name(Some("ID=x"), Some("PRETTY_NAME=Other")), "Linux", "the first file read decides");
    assert_eq!(os_pretty_name(None, None), "Linux");
    assert_eq!(device_name(Some("PRETTY_HOSTNAME='Desk'\n"), Some("host\n"), None), "Desk");
    assert_eq!(device_name(Some("CHASSIS=laptop"), Some("  host \n"), Some("kernel")), "host");
    assert_eq!(device_name(None, Some(" \n"), Some("kernel\n")), "kernel");
    assert_eq!(device_name(None, None, None), "Linux");
}

#[test]
fn text_handed_to_the_window_opens_a_link_or_a_search() {
    assert_eq!(open_text("   "), Opened::Nothing);
    assert_eq!(
        open_text("melogold://server?v=1&url=https%3A%2F%2Fmusic.example.org%3A8443%2Fapi&sid=x"),
        Opened::ServerLink { host: "music.example.org".into() }
    );
    assert_eq!(
        open_text("melogold://link?mode=invite&server=https%3A%2F%2Fs.example.net&sid=1&token=t"),
        Opened::ServerLink { host: "s.example.net".into() }
    );
    assert_eq!(open_text("melogold://server?url=not-an-address"), Opened::ServerLink { host: "not-an-address".into() });
    assert_eq!(open_text("melogold://link?mode=request&server=https%3A%2F%2Fs.example&sid=1"), Opened::LinkRequest);
    assert_eq!(open_text("MELOGOLD://weird"), Opened::LinkUnsupported);
    assert_eq!(open_text("  daft punk  "), Opened::Search("daft punk".into()));
}

#[test]
fn formatting_undoes_parsing_on_canonical_texts() {
    for text in ["0:00", "0:07", "3:45", "59:59", "1:00:00", "1:02:10", "27:59:01"] {
        let ms = parse_duration(Some(text)).unwrap();
        assert_eq!(format_duration(ms), text);
    }
    assert_eq!(format_duration(225_000), "3:45");
    assert_eq!(format_duration(3_730_000), "1:02:10");
    assert_eq!(format_duration(-5), "0:00");
    assert_eq!(format_duration(999), "0:00");
    assert_eq!(parse_duration(Some(&format_duration(3_730_999))), Some(3_730_000));
}
