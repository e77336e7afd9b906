//! The registry of keys. The names are Android's; the platform's own are marked.
use vstd::prelude::*;
use crate::settings::{Key, Tab, ThemeMode};

verus! {

pub fn theme_mode() -> (k: Key<ThemeMode>)
    ensures
        k.name_spec() == "theme.mode",
        k.default_spec() == ThemeMode::System,
{
    Key::new("theme.mode", ThemeMode::System)
}

/// `system`, `ru` or `en`. GNOME has no per-application language choice, so it is here.
pub fn app_locale() -> (k: Key<&'static str>)
    ensures
        k.name_spec() == "app.locale",
        k.default_spec() == "system",
{
    Key::new("app.locale", "system")
}

/// The section at exit: the application opens in it.
pub fn last_tab() -> (k: Key<Tab>)
    ensures
        k.name_spec() == "shell.lastTab",
        k.default_spec() == Tab::Trends,
{
    Key::new("shell.lastTab", Tab::Trends)
}

pub fn normalization() -> (k: Key<bool>)
    ensures
        k.name_spec() == "playback.normalization",
        k.default_spec() == true,
{
    Key::new("playback.normalization", true)
}

pub fn autoplay() -> (k: Key<bool>)
    ensures
        k.name_spec() == "playback.autoplay",
        k.default_spec() == true,
{
    Key::new("playback.autoplay", true)
}

/// `synced` or `plain`.
pub fn lyrics_view() -> (k: Key<&'static str>)
    ensures
        k.name_spec() == "lyrics.view",
        k.default_spec() == "synced",
{
    Key::new("lyrics.view", "synced")
}

pub fn history_paused() -> (k: Key<bool>)
    ensures
        k.name_spec() == "history.paused",
        k.default_spec() == false,
{
    Key::new("history.paused", false)
}

pub fn hide_explicit() -> (k: Key<bool>)
    ensures
        k.name_spec() == "filter.hideExplicit",
        k.default_spec() == false,
{
    Key::new("filter.hideExplicit", false)
}

/// The music cache's limit in MB; 0 is no limit.
pub fn stream_cache_mb() -> (k: Key<i64>)
    ensures
        k.name_spec() == "cache.streamLimit",
        k.default_spec() == 4096,
{
    Key::new("cache.streamLimit", 4096)
}

pub fn updates_auto() -> (k: Key<bool>)
    ensures
        k.name_spec() == "updates.auto",
        k.default_spec() == true,
{
    Key::new("updates.auto", true)
}

/// The server's address; none is the working server by default.
pub fn server_url() -> (k: Key<Option<&'static str>>)
    ensures
        k.name_spec() == "server.url",
        k.default_spec() == None::<&'static str>,
{
    Key::new("server.url", None)
}

/// Platform: do not keep search queries.
pub fn search_history_paused() -> (k: Key<bool>)
    ensures
        k.name_spec() == "search.historyPaused",
        k.default_spec() == false,
{
    Key::new("search.historyPaused", false)
}

/// Platform: muted.
pub fn muted() -> (k: Key<bool>)
    ensures
        k.name_spec() == "playback.muted",
        k.default_spec() == false,
{
    Key::new("playback.muted", false)
}

/// Platform: the covers cache's limit, MB.
pub fn image_cache_mb() -> (k: Key<i64>)
    ensures
        k.name_spec() == "cache.imageLimit",
        k.default_spec() == 128,
{
    Key::new("cache.imageLimit", 128)
}

/// Platform: the window's size at closing.
pub fn window_width() -> (k: Key<i32>)
    ensures
        k.name_spec() == "window.width",
        k.default_spec() == 1100,
{
    Key::new("window.width", 1100)
}

pub fn window_height() -> (k: Key<i32>)
    ensures
        k.name_spec() == "window.height",
        k.default_spec() == 720,
{
    Key::new("window.height", 720)
}

pub fn window_maximized() -> (k: Key<bool>)
    ensures
        k.name_spec() == "window.maximized",
        k.default_spec() == false,
{
    Key::new("window.maximized", false)
}

/// When updates were last checked, Unix ms.
pub fn updates_last_check() -> (k: Key<i64>)
    ensures
        k.name_spec() == "updates.lastCheck",
        k.default_spec() == 0,
{
    Key::new("updates.lastCheck", 0)
}

/// The version already announced in a window: each one once.
pub fn updates_announced() -> (k: Key<Option<&'static str>>)
    ensures
        k.name_spec() == "updates.announcedVersion",
        k.default_spec() == None::<&'static str>,
{
    Key::new("updates.announcedVersion", None)
}

/// The version of the last run: the first run after an update rewrites `.desktop` and icons.
pub fn last_run_version() -> (k: Key<Option<&'static str>>)
    ensures
        k.name_spec() == "app.lastRunVersion",
        k.default_spec() == None::<&'static str>,
{
    Key::new("app.lastRunVersion", None)
}

} // verus!
