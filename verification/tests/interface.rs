use melogold::localization::{detect_from, format_args_into, format_count, lookup_in, plural, tr, trf, Lang, LINUX_ONLY, STRINGS};
use melogold::music::Track;
use melogold::playback::engine::PlayerError;
use melogold::playback::resolver::StreamErrorKind;
use melogold::settings::Tab;
use melogold::text::{format_duration, parse_duration};
use melogold::texts::{error_notice_in, error_text, error_title, skipped};

#[test]
fn table_is_sorted_for_binary_search() {
    assert!(STRINGS.windows(2).all(|pair| pair[0].0 < pair[1].0));
}

#[test]
fn linux_only_keys_do_not_shadow_shared_ones() {
    for (key, ..) in LINUX_ONLY {
        assert!(key.starts_with("Linux"), "{key}");
        assert!(STRINGS.binary_search_by(|(k, ..)| (*k).cmp(key)).is_err(), "{key} is in the shared catalogue already");
    }
}

#[test]
fn format_helpers() {
    assert_eq!(format_args_into("{0} · {1}", &vec!["a".to_owned(), 2.to_string()]), "a · 2");
    assert_eq!(format_count(Lang::Ru, 1234567), "1\u{a0}234\u{a0}567");
    assert_eq!(format_count(Lang::Ru, 12), "12");
    assert_eq!(format_count(Lang::En, -1234), "-1,234");
}

#[test]
fn strings_by_language() {
    assert_eq!(Lang::parse(" ru_RU.UTF-8"), Some(Lang::Ru));
    assert_eq!(Lang::parse("EN"), Some(Lang::En));
    assert_eq!(Lang::parse("de"), None);
    assert_eq!(tr(Lang::Ru, "LinuxQuit"), "Выйти");
    assert_eq!(tr(Lang::En, "LinuxQuit"), "Quit");
    assert_eq!(tr(Lang::En, "NoSuchKey"), "NoSuchKey");
    assert_eq!(lookup_in(Lang::Ru, "Retry"), Some("Повторить"));
    assert_eq!(trf(Lang::En, "VersionFormat", &vec!["0.4.0".to_owned()]), "Version 0.4.0");
    assert_eq!(plural(Lang::Ru, "GeoOtherCountries", 21), "21 другой стране");
    assert_eq!(plural(Lang::En, "GeoOtherCountries", 2), "2 other countries");
    assert_eq!(plural(Lang::En, "NoSuchPlural", 2), "NoSuchPlural");
}

#[test]
fn language_from_the_environment() {
    let vars = |v: &[Option<&str>]| v.iter().map(|x| x.map(str::to_owned)).collect::<Vec<_>>();
    assert_eq!(detect_from(Some("ru"), &vars(&[Some("en_US")])), Lang::Ru);
    assert_eq!(detect_from(None, &vars(&[Some("ru:en"), Some("en_US")])), Lang::Ru);
    assert_eq!(detect_from(Some("xx"), &vars(&[None, Some("C.UTF-8"), Some("de_DE"), Some("ru_RU")])), Lang::En);
    assert_eq!(detect_from(None, &vars(&[Some(""), Some("POSIX"), None, Some("ru_RU.UTF-8")])), Lang::Ru);
    assert_eq!(detect_from(None, &vars(&[])), Lang::En);
}

fn geo(country: Option<&str>, open: Option<usize>) -> PlayerError {
    PlayerError {
        kind: StreamErrorKind::Geo,
        message: String::new(),
        track: Track { title: "Photosynthesis".into(), ..Default::default() },
        country: country.map(str::to_owned),
        open_countries: open,
    }
}

#[test]
fn geo_texts_in_both_languages() {
    let ru = Lang::Ru;
    assert_eq!(
        error_text(ru, &geo(Some("RU"), Some(122))),
        "Недоступно в стране «Россия»: YouTube считает, что вы там, а правообладатель открыл трек в 122 других странах. \
         С VPN выберите сервер другой страны: некоторые серверы YouTube тоже относит к стране «Россия»."
    );
    assert!(error_text(ru, &geo(Some("RU"), Some(121))).contains("в 121 другой стране."));
    assert_eq!(
        error_text(ru, &geo(Some("RU"), None)),
        "Недоступно в стране «Россия»: YouTube считает, что вы там, а правообладатель закрыл трек для этой страны. \
         С VPN выберите сервер другой страны: некоторые серверы YouTube тоже относит к стране «Россия»."
    );
    assert_eq!(error_text(ru, &geo(None, None)), "Недоступно в вашей стране");
    assert_eq!(error_notice_in(ru, &geo(Some("RU"), Some(122))), "Недоступно в стране «Россия»");

    let en = Lang::En;
    assert_eq!(
        error_text(en, &geo(Some("RU"), Some(122))),
        "Unavailable in Russia: YouTube places you there, and the rights holder opened this track in 122 other countries. \
         With a VPN, pick a server in another country: YouTube counts some VPN servers as Russia too."
    );
    assert!(error_text(en, &geo(Some("RU"), Some(1))).contains("in 1 other country."));
    assert_eq!(
        error_text(en, &geo(Some("RU"), None)),
        "Unavailable in Russia: YouTube places you there, and the rights holder closed this track for it. \
         With a VPN, pick a server in another country: YouTube counts some VPN servers as Russia too."
    );
    assert_eq!(error_text(en, &geo(None, None)), "Unavailable in your country");
}

#[test]
fn short_texts_and_skip_notices() {
    assert_eq!(error_title(Lang::Ru, &geo(Some("RU"), Some(3))), "Недоступно: Россия");
    let mut network = geo(None, None);
    network.kind = StreamErrorKind::Timeout;
    assert_eq!(error_title(Lang::En, &network), "No connection to YouTube");
    assert_eq!(skipped(Lang::Ru, &geo(Some("RU"), None)), "Пропущен «Photosynthesis»: Недоступно в стране «Россия»");
}

#[test]
fn tab_ids_round_trip() {
    for tab in Tab::ALL {
        assert_eq!(Tab::from_id(tab.id()), Some(tab));
    }
}

#[test]
fn durations() {
    assert_eq!(parse_duration(Some("3:45")), Some(225_000));
    assert_eq!(parse_duration(Some(" 1:02:10 ")), Some(3_730_000));
    assert_eq!(parse_duration(Some("45")), None);
    assert_eq!(parse_duration(Some("1:2a")), None);
    assert_eq!(parse_duration(None), None);
    assert_eq!(format_duration(225_000), "3:45");
    assert_eq!(format_duration(3_730_000), "1:02:10");
    assert_eq!(format_duration(-5), "0:00");
}
