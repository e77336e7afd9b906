use melogold::json::{Json, Num};
use melogold::settings::keys;
use melogold::settings::{Settings, Tab, ThemeMode};
use serde_json::Value;

fn json(v: &Value) -> Json {
    match v {
        Value::Null => Json::Null,
        Value::Bool(b) => Json::Bool(*b),
        Value::Number(n) => match (n.as_u64(), n.as_i64()) {
            (Some(u), _) => Json::Number(Num::PosInt(u)),
            (None, Some(i)) => Json::Number(Num::NegInt(i)),
            _ => Json::Number(Num::Float(n.as_f64().unwrap_or(0.0) as i64)),
        },
        Value::String(s) => Json::Str(s.clone()),
        Value::Array(a) => Json::Array(a.iter().map(json).collect()),
        Value::Object(m) => Json::Object(m.iter().map(|(k, v)| (k.clone(), json(v))).collect()),
    }
}

fn value(j: &Json) -> Value {
    match j {
        Json::Null => Value::Null,
        Json::Bool(b) => Value::Bool(*b),
        Json::Number(Num::PosInt(u)) => Value::from(*u),
        Json::Number(Num::NegInt(i)) => Value::from(*i),
        Json::Number(Num::Float(f)) => Value::from(*f as f64),
        Json::Str(s) => Value::String(s.clone()),
        Json::Array(a) => Value::Array(a.iter().map(value).collect()),
        Json::Object(ps) => Value::Object(ps.iter().map(|(k, v)| (k.clone(), value(v))).collect()),
    }
}

fn from_json(text: &str) -> Option<Settings> {
    Settings::from_object(&json(&serde_json::from_str::<Value>(text).ok()?))
}

fn to_json(settings: &Settings) -> String {
    serde_json::to_string_pretty(&value(&settings.to_object())).unwrap()
}

#[test]
fn defaults_when_empty_or_wrong_type() {
    let settings = from_json(r#"{"playback.speed": "fast", "theme.mode": "dark"}"#).unwrap();
    // The speed is a float, read by the application: a string there is not a number.
    assert_eq!(settings.get_raw("playback.speed"), Some(&Json::Str("fast".into())));
    assert_eq!(settings.get_theme(&keys::theme_mode()), ThemeMode::Dark);
    assert_eq!(settings.get_tab(&keys::last_tab()), Tab::Trends);
    assert!(settings.get_bool(&keys::normalization()));
}

#[test]
fn unknown_keys_survive_a_round_trip() {
    let mut settings = from_json(r#"{"future.key": [1, 2], "shell.lastTab": "Library"}"#).unwrap();
    assert_eq!(settings.get_tab(&keys::last_tab()), Tab::Library);
    assert!(settings.set_tab(&keys::last_tab(), Tab::WhatsNew));
    assert!(!settings.set_tab(&keys::last_tab(), Tab::WhatsNew));
    let again = from_json(&to_json(&settings)).unwrap();
    assert_eq!(
        again.get_raw("future.key"),
        Some(&Json::Array(vec![Json::Number(Num::PosInt(1)), Json::Number(Num::PosInt(2))]))
    );
    assert_eq!(again.get_tab(&keys::last_tab()), Tab::WhatsNew);
    assert!(to_json(&settings).contains("\"shell.lastTab\": \"WhatsNew\""));
}

#[test]
fn settings_file_must_hold_an_object() {
    assert!(from_json("[1, 2]").is_none());
    assert!(from_json("\"text\"").is_none());
    assert!(from_json("{}").is_some());
}

#[test]
fn empty_settings_give_every_default() {
    let settings = Settings::new();
    assert_eq!(settings.get_theme(&keys::theme_mode()), ThemeMode::System);
    assert_eq!(settings.get_text(&keys::app_locale()), "system");
    assert_eq!(settings.get_text(&keys::lyrics_view()), "synced");
    assert_eq!(settings.get_i64(&keys::stream_cache_mb()), 4096);
    assert_eq!(settings.get_i64(&keys::image_cache_mb()), 128);
    assert_eq!(settings.get_i32(&keys::window_width()), 1100);
    assert_eq!(settings.get_i32(&keys::window_height()), 720);
    assert_eq!(settings.get_opt_text(&keys::server_url()), None);
    assert!(settings.get_bool(&keys::autoplay()));
    assert!(!settings.get_bool(&keys::muted()));
    assert_eq!(settings.sort("favorites"), None);
}

#[test]
fn each_setter_reads_back() {
    let mut settings = Settings::new();
    assert!(settings.set_bool(&keys::autoplay(), false));
    assert!(!settings.get_bool(&keys::autoplay()));
    assert!(settings.set_i64(&keys::stream_cache_mb(), -3));
    assert_eq!(settings.get_i64(&keys::stream_cache_mb()), -3);
    assert!(settings.set_i32(&keys::window_width(), 1500));
    assert!(!settings.set_i32(&keys::window_width(), 1500));
    assert_eq!(settings.get_i32(&keys::window_width()), 1500);
    assert!(settings.set_text(&keys::app_locale(), "ru"));
    assert_eq!(settings.get_text(&keys::app_locale()), "ru");
    assert!(settings.set_opt_text(&keys::server_url(), Some("https://example.org")));
    assert_eq!(settings.get_opt_text(&keys::server_url()).as_deref(), Some("https://example.org"));
    assert!(settings.set_opt_text(&keys::server_url(), None));
    assert_eq!(settings.get_raw("server.url"), Some(&Json::Null));
    assert!(settings.set_theme(&keys::theme_mode(), ThemeMode::Light));
    assert_eq!(settings.get_raw("theme.mode"), Some(&Json::Str("light".into())));
    assert_eq!(settings.get_theme(&keys::theme_mode()), ThemeMode::Light);
    assert!(settings.set_sort("favorites", "added:desc"));
    assert_eq!(settings.sort("favorites").as_deref(), Some("added:desc"));
    assert_eq!(settings.get_raw("sort.favorites"), Some(&Json::Str("added:desc".into())));
}

#[test]
fn out_of_range_and_repeated_keys() {
    let settings = from_json(r#"{"window.width": 5000000000, "window.height": 100, "window.height": 640}"#).unwrap();
    assert_eq!(settings.get_i32(&keys::window_width()), 1100);
    assert_eq!(settings.get_i32(&keys::window_height()), 640);
}
