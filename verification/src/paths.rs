//! Where the application keeps its files (XDG Base Directory). The database, logs, music cache
//! and downloads live under `$XDG_DATA_HOME/melogold`, not `~/.cache`: cleaners and
//! `systemd-tmpfiles` wipe `~/.cache` unasked, and nobody wants to lose gigabytes of music.
//! Covers live under `$XDG_CACHE_HOME/melogold`: they are no loss. Paths are text here; the
//! caller turns them into paths of the file system.
use vstd::prelude::*;
use crate::chars::{chars_of, extend_str, string_of};

verus! {

/// `Path::join` for a relative `name`.
pub open spec fn join_path(base: Seq<char>, name: Seq<char>) -> Seq<char> {
    if base.len() == 0 {
        name
    } else if base.last() == '/' {
        base + name
    } else {
        base + seq!['/'] + name
    }
}

/// A Unix path is absolute when it starts at the root.
pub open spec fn is_absolute(p: Seq<char>) -> bool {
    p.len() > 0 && p[0] == '/'
}

/// The application's directory under one XDG base: the variable where it holds an absolute
/// path, else the default under the home directory.
pub open spec fn xdg_dir(var: Option<Seq<char>>, home: Seq<char>, fallback: Seq<char>) -> Seq<char> {
    let base = match var {
        Some(v) => if is_absolute(v) { v } else { join_path(home, fallback) },
        None => join_path(home, fallback),
    };
    join_path(base, "melogold"@)
}

/// `Path::join` for a relative `name`.
pub fn join(base: &str, name: &str) -> (r: String)
    ensures
        r@ == join_path(base@, name@),
{
    let mut v = chars_of(base);
    if v.len() > 0 && v[v.len() - 1] != '/' {
        v.push('/');
    }
    extend_str(&mut v, name);
    string_of(&v)
}

fn xdg(var: Option<&str>, home: &str, fallback: &str) -> (r: String)
    ensures
        r@ == xdg_dir(match var {
            Some(v) => Some(v@),
            None => None,
        }, home@, fallback@),
{
    let base = match var {
        Some(v) => {
            let cv = chars_of(v);
            if cv.len() > 0 && cv[0] == '/' { string_of(&cv) } else { join(home, fallback) }
        },
        None => join(home, fallback),
    };
    join(base.as_str(), "melogold")
}

#[derive(Debug, PartialEq, Eq)]
pub struct AppPaths {
    data: String,
    cache: String,
    config: String,
}

impl AppPaths {
    pub closed spec fn data_view(&self) -> Seq<char> {
        self.data@
    }

    pub closed spec fn cache_view(&self) -> Seq<char> {
        self.cache@
    }

    pub closed spec fn config_view(&self) -> Seq<char> {
        self.config@
    }

    /// The directories from the values of `HOME` and the XDG variables. A relative path in a
    /// variable is ignored, as the specification says; then the default under `$HOME` is taken.
    pub fn from_vars(home: Option<&str>, data_home: Option<&str>, cache_home: Option<&str>, config_home: Option<&str>) -> (r: Self)
        ensures
            ({
                let h = match home {
                    Some(h) => h@,
                    None => "/tmp"@,
                };
                &&& r.data_view() == xdg_dir(match data_home {
                    Some(v) => Some(v@),
                    None => None,
                }, h, ".local/share"@)
                &&& r.cache_view() == xdg_dir(match cache_home {
                    Some(v) => Some(v@),
                    None => None,
                }, h, ".cache"@)
                &&& r.config_view() == xdg_dir(match config_home {
                    Some(v) => Some(v@),
                    None => None,
                }, h, ".config"@)
            }),
    {
        let h = match home {
            Some(h) => h,
            None => "/tmp",
        };
        AppPaths {
            data: xdg(data_home, h, ".local/share"),
            cache: xdg(cache_home, h, ".cache"),
            config: xdg(config_home, h, ".config"),
        }
    }

    pub fn with_roots(data: &str, cache: &str, config: &str) -> (r: Self)
        ensures
            r.data_view() == data@,
            r.cache_view() == cache@,
            r.config_view() == config@,
    {
        AppPaths { data: string_of(&chars_of(data)), cache: string_of(&chars_of(cache)), config: string_of(&chars_of(config)) }
    }

    pub fn data(&self) -> (r: &str)
        ensures
            r@ == self.data_view(),
    {
        self.data.as_str()
    }

    pub fn cache(&self) -> (r: &str)
        ensures
            r@ == self.cache_view(),
    {
        self.cache.as_str()
    }

    pub fn config(&self) -> (r: &str)
        ensures
            r@ == self.config_view(),
    {
        self.config.as_str()
    }

    pub fn logs(&self) -> (r: String)
        ensures
            r@ == join_path(self.data_view(), "logs"@),
    {
        join(self.data.as_str(), "logs")
    }

    pub fn database(&self) -> (r: String)
        ensures
            r@ == join_path(self.data_view(), "library.db"@),
    {
        join(self.data.as_str(), "library.db")
    }

    /// The device's settings, with the Android registry's keys.
    pub fn settings(&self) -> (r: String)
        ensures
            r@ == join_path(self.config_view(), "settings.json"@),
    {
        join(self.config.as_str(), "settings.json")
    }

    /// The installation's salt for `hwid`: random, made once.
    pub fn install_salt(&self) -> (r: String)
        ensures
            r@ == join_path(self.data_view(), "install-salt"@),
    {
        join(self.data.as_str(), "install-salt")
    }

    /// The spare `platformId` where `/etc/machine-id` is missing (a container).
    pub fn fallback_machine_id(&self) -> (r: String)
        ensures
            r@ == join_path(self.data_view(), "machine-id"@),
    {
        join(self.data.as_str(), "machine-id")
    }

    /// Session tokens where no Secret Service runs: a `0600` file.
    pub fn session_fallback(&self) -> (r: String)
        ensures
            r@ == join_path(self.data_view(), "session.json"@),
    {
        join(self.data.as_str(), "session.json")
    }

    /// The music cache: it evicts by itself, its limit is a setting.
    pub fn song_cache(&self) -> (r: String)
        ensures
            r@ == join_path(self.data_view(), "cache"@),
    {
        join(self.data.as_str(), "cache")
    }

    /// Downloaded tracks: no cache; neither the limit nor "Clear cache" touches them.
    pub fn downloads(&self) -> (r: String)
        ensures
            r@ == join_path(self.data_view(), "downloads"@),
    {
        join(self.data.as_str(), "downloads")
    }

    pub fn backups(&self) -> (r: String)
        ensures
            r@ == join_path(self.data_view(), "backups"@),
    {
        join(self.data.as_str(), "backups")
    }

    pub fn updates(&self) -> (r: String)
        ensures
            r@ == join_path(self.data_view(), "updates"@),
    {
        join(self.data.as_str(), "updates")
    }

    /// Covers: a cache that may be lost.
    pub fn images(&self) -> (r: String)
        ensures
            r@ == join_path(self.cache_view(), "images"@),
    {
        join(self.cache.as_str(), "images")
    }

    /// The saved copy of `config/stream-clients.json`.
    pub fn stream_clients(&self) -> (r: String)
        ensures
            r@ == join_path(self.data_view(), "stream-clients.json"@),
    {
        join(self.data.as_str(), "stream-clients.json")
    }

    /// The directories to create: data, cache, config and logs.
    pub fn directories(&self) -> (r: Vec<String>)
        ensures
            r@.len() == 4,
            r@[0]@ == self.data_view(),
            r@[1]@ == self.cache_view(),
            r@[2]@ == self.config_view(),
            r@[3]@ == join_path(self.data_view(), "logs"@),
    {
        let mut r: Vec<String> = Vec::new();
        r.push(string_of(&chars_of(self.data.as_str())));
        r.push(string_of(&chars_of(self.cache.as_str())));
        r.push(string_of(&chars_of(self.config.as_str())));
        r.push(self.logs());
        r
    }
}

/// Where the music lives, the data directory, is kept apart from the cache directory: the music
/// cache and downloads are under the data root, covers under the cache root.
pub proof fn law_music_is_not_under_xdg_cache(p: AppPaths)
    ensures
        p.data_view().len() > 0 ==> is_prefix_path(p.data_view(), join_path(p.data_view(), "cache"@)),
        p.data_view().len() > 0 ==> is_prefix_path(p.data_view(), join_path(p.data_view(), "downloads"@)),
        p.cache_view().len() > 0 ==> is_prefix_path(p.cache_view(), join_path(p.cache_view(), "images"@)),
{
    assert(join_path(p.data_view(), "cache"@).take(p.data_view().len() as int) =~= p.data_view());
    assert(join_path(p.data_view(), "downloads"@).take(p.data_view().len() as int) =~= p.data_view());
    assert(join_path(p.cache_view(), "images"@).take(p.cache_view().len() as int) =~= p.cache_view());
}

/// `base` begins `p`.
pub open spec fn is_prefix_path(base: Seq<char>, p: Seq<char>) -> bool {
    base.len() <= p.len() && p.take(base.len() as int) == base
}

} // verus!
