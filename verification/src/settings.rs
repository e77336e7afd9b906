//! Device settings: keys of the Android registry with their types and defaults, the theme and
//! the top-level sections. The settings file itself is a flat JSON object kept by the caller.
use vstd::prelude::*;
use vstd::pervasive::cloned;
use crate::chars::{chars_eq, chars_of, lit};
use crate::innertube::nav::{lookup, str_view, view_of};
use crate::json::{clone_json, json_eq, jview, Json, JsonV, Num};

pub mod keys;

verus! {

/// A setting's key, with its type and default value.
pub struct Key<T> {
    pub name: &'static str,
    default: T,
}

impl<T: Clone> Key<T> {
    pub closed spec fn default_spec(&self) -> T {
        self.default
    }

    pub closed spec fn name_spec(&self) -> &'static str {
        self.name
    }

    pub fn new(name: &'static str, default: T) -> (k: Self)
        ensures
            k.name_spec() == name,
            k.default_spec() == default,
    {
        Key { name, default }
    }

    pub fn default_value(&self) -> (r: T)
        ensures
            cloned(self.default_spec(), r),
    {
        self.default.clone()
    }
}

#[derive(Clone, Copy, Debug, Default, PartialEq, Eq, Structural)]
pub enum ThemeMode {
    #[default]
    System,
    Light,
    Dark,
}

/// A top-level section; the values are Android's (`TopLevelDestination`).
#[derive(Clone, Copy, Debug, Default, PartialEq, Eq, Hash, Structural)]
pub enum Tab {
    #[default]
    Trends,
    WhatsNew,
    Library,
    Settings,
}

/// The page name of a section in the window's stack.
pub open spec fn tab_id(tab: Tab) -> Seq<char> {
    match tab {
        Tab::Trends => "trends"@,
        Tab::WhatsNew => "new"@,
        Tab::Library => "library"@,
        Tab::Settings => "settings"@,
    }
}

/// The section with this page name.
pub open spec fn tab_of(id: Seq<char>) -> Option<Tab> {
    if id == tab_id(Tab::Trends) {
        Some(Tab::Trends)
    } else if id == tab_id(Tab::WhatsNew) {
        Some(Tab::WhatsNew)
    } else if id == tab_id(Tab::Library) {
        Some(Tab::Library)
    } else if id == tab_id(Tab::Settings) {
        Some(Tab::Settings)
    } else {
        None
    }
}

impl Tab {
    pub const ALL: [Tab; 4] = [Tab::Trends, Tab::WhatsNew, Tab::Library, Tab::Settings];

    /// The page name in the window's stack.
    pub fn id(self) -> (r: &'static str)
        ensures
            r@ == tab_id(self),
    {
        match self {
            Tab::Trends => "trends",
            Tab::WhatsNew => "new",
            Tab::Library => "library",
            Tab::Settings => "settings",
        }
    }

    pub fn from_id(id: &str) -> (r: Option<Tab>)
        ensures
            r == tab_of(id@),
    {
        let v = chars_of(id);
        if chars_eq(&v, &lit(Tab::Trends.id())) {
            Some(Tab::Trends)
        } else if chars_eq(&v, &lit(Tab::WhatsNew.id())) {
            Some(Tab::WhatsNew)
        } else if chars_eq(&v, &lit(Tab::Library.id())) {
            Some(Tab::Library)
        } else if chars_eq(&v, &lit(Tab::Settings.id())) {
            Some(Tab::Settings)
        } else {
            None
        }
    }
}

/// Every section's page name leads back to it.
pub proof fn law_tab_ids_round_trip(tab: Tab)
    ensures
        tab_of(tab_id(tab)) == Some(tab),
{
    reveal_strlit("trends");
    reveal_strlit("new");
    reveal_strlit("library");
    reveal_strlit("settings");
    assert(tab_id(Tab::Trends)[0] == 't');
    assert(tab_id(Tab::WhatsNew)[0] == 'n');
    assert(tab_id(Tab::Library)[0] == 'l');
    assert(tab_id(Tab::Settings)[0] == 's');
}


// ── the settings file ──

proof fn lemma_lookup_none(ps: Seq<(Seq<char>, JsonV)>, k: Seq<char>)
    ensures
        (lookup(ps, k) is None) == (forall|i: int| 0 <= i < ps.len() ==> (#[trigger] ps[i]).0 != k),
    decreases ps.len(),
{
    if ps.len() > 0 {
        lemma_lookup_none(ps.drop_first(), k);
        if ps[0].0 != k {
            assert forall|i: int| 0 < i < ps.len() && (forall|j: int| 0 <= j < ps.drop_first().len() ==> (#[trigger] ps.drop_first()[j]).0 != k) implies (#[trigger] ps[i]).0 != k by {
                assert(ps.drop_first()[i - 1] == ps[i]);
            }
            if lookup(ps.drop_first(), k) is Some {
                let j = choose|j: int| 0 <= j < ps.drop_first().len() && (#[trigger] ps.drop_first()[j]).0 == k;
                assert(ps[j + 1].0 == k);
            }
        }
    }
}

proof fn lemma_lookup_first(ps: Seq<(Seq<char>, JsonV)>, k: Seq<char>, i: int)
    requires
        0 <= i < ps.len(),
        ps[i].0 == k,
        forall|j: int| 0 <= j < i ==> (#[trigger] ps[j]).0 != k,
    ensures
        lookup(ps, k) == Some(ps[i].1),
    decreases i,
{
    if i > 0 {
        assert forall|j: int| 0 <= j < i - 1 implies (#[trigger] ps.drop_first()[j]).0 != k by {
            assert(ps.drop_first()[j] == ps[j + 1]);
        }
        lemma_lookup_first(ps.drop_first(), k, i - 1);
    }
}

proof fn lemma_lookup_push(ps: Seq<(Seq<char>, JsonV)>, p: (Seq<char>, JsonV), k: Seq<char>)
    ensures
        lookup(ps.push(p), k) == match lookup(ps, k) {
            Some(v) => Some(v),
            None => if p.0 == k { Some(p.1) } else { None },
        },
    decreases ps.len(),
{
    reveal_with_fuel(lookup, 2);
    if ps.len() > 0 {
        assert(ps.push(p)[0] == ps[0]);
        assert(ps.push(p).drop_first() =~= ps.drop_first().push(p));
        lemma_lookup_push(ps.drop_first(), p, k);
    } else {
        assert(ps.push(p)[0] == p);
        assert(ps.push(p).drop_first() =~= Seq::<(Seq<char>, JsonV)>::empty());
    }
}

proof fn lemma_lookup_update(ps: Seq<(Seq<char>, JsonV)>, i: int, p: (Seq<char>, JsonV), k: Seq<char>)
    requires
        0 <= i < ps.len(),
        p.0 == ps[i].0,
        forall|j: int| 0 <= j < i ==> (#[trigger] ps[j]).0 != p.0,
    ensures
        lookup(ps.update(i, p), k) == if k == p.0 { Some(p.1) } else { lookup(ps, k) },
    decreases i,
{
    if k == p.0 {
        assert forall|j: int| 0 <= j < i implies (#[trigger] ps.update(i, p)[j]).0 != k by {
            assert(ps.update(i, p)[j] == ps[j]);
        }
        lemma_lookup_first(ps.update(i, p), k, i);
    } else if i > 0 {
        assert(ps.update(i, p).drop_first() =~= ps.drop_first().update(i - 1, p));
        assert forall|j: int| 0 <= j < i - 1 implies (#[trigger] ps.drop_first()[j]).0 != p.0 by {
            assert(ps.drop_first()[j] == ps[j + 1]);
        }
        lemma_lookup_update(ps.drop_first(), i - 1, p, k);
    } else {
        assert(ps.update(i, p).drop_first() =~= ps.drop_first());
    }
}

/// The keys of the pairs are all different.
pub open spec fn keys_distinct(ps: Seq<(Seq<char>, JsonV)>) -> bool {
    forall|i: int, j: int| 0 <= i < j < ps.len() ==> (#[trigger] ps[i]).0 != (#[trigger] ps[j]).0
}

/// The device's settings: a flat JSON object, `{"theme.mode": "system", "shell.lastTab":
/// "Trends", …}`. Keys this version does not know are kept as they were, so that the file
/// outlives a downgrade.
#[derive(Debug)]
pub struct Settings {
    values: Vec<(String, Json)>,
}

impl Settings {
    /// The pairs as plain values.
    pub closed spec fn entries(&self) -> Seq<(Seq<char>, JsonV)> {
        self.values@.map_values(|p: (String, Json)| (p.0@, jview(p.1)))
    }

    /// The value of a key.
    pub open spec fn value_of(&self, name: Seq<char>) -> Option<JsonV> {
        lookup(self.entries(), name)
    }

    /// Each key once.
    pub open spec fn wf(&self) -> bool {
        keys_distinct(self.entries())
    }

    /// No settings: every key has its default.
    pub fn new() -> (s: Settings)
        ensures
            s.wf(),
            forall|k: Seq<char>| #[trigger] s.value_of(k) is None,
    {
        let s = Settings { values: Vec::new() };
        assert(s.entries() =~= Seq::<(Seq<char>, JsonV)>::empty());
        s
    }

    /// The value under `name`, as it is in the file.
    pub fn get_raw(&self, name: &str) -> (r: Option<&Json>)
        ensures
            view_of(r) == self.value_of(name@),
    {
        let ghost es = self.entries();
        let mut i: usize = 0;
        while i < self.values.len()
            invariant
                i <= self.values@.len(),
                es == self.entries(),
                es.len() == self.values@.len(),
                forall|k: int| 0 <= k < i ==> (#[trigger] es[k]).0 != name@,
            decreases self.values.len() - i,
        {
            assert(es[i as int] == (self.values@[i as int].0@, jview(self.values@[i as int].1)));
            if chars_eq(&chars_of(self.values[i].0.as_str()), &chars_of(name)) {
                proof {
                    lemma_lookup_first(es, name@, i as int);
                }
                return Some(&self.values[i].1);
            }
            i = i + 1;
        }
        proof {
            lemma_lookup_none(es, name@);
        }
        None
    }

    /// Sets `name` to `value`; `true` where the value changed and the file should be written.
    pub fn set_raw(&mut self, name: &str, value: Json) -> (changed: bool)
        requires
            old(self).wf(),
        ensures
            final(self).wf(),
            changed == (old(self).value_of(name@) != Some(jview(value))),
            forall|k: Seq<char>|
                #[trigger] final(self).value_of(k) == if k == name@ { Some(jview(value)) } else { old(self).value_of(k) },
    {
        let ghost es = self.entries();
        let ghost vv = jview(value);
        let mut i: usize = 0;
        while i < self.values.len()
            invariant
                i <= self.values@.len(),
                es == self.entries(),
                es.len() == self.values@.len(),
                self.values@ == old(self).values@,
                vv == jview(value),
                self.wf(),
                forall|k: int| 0 <= k < i ==> (#[trigger] es[k]).0 != name@,
            decreases self.values.len() - i,
        {
            assert(es[i as int] == (self.values@[i as int].0@, jview(self.values@[i as int].1)));
            if chars_eq(&chars_of(self.values[i].0.as_str()), &chars_of(name)) {
                proof {
                    lemma_lookup_first(es, name@, i as int);
                }
                if json_eq(&self.values[i].1, &value) {
                    return false;
                }
                let key = self.values[i].0.clone();
                self.values.set(i, (key, value));
                proof {
                    assert(self.entries() =~= es.update(i as int, (name@, vv)));
                    assert forall|k: Seq<char>| #[trigger] lookup(self.entries(), k) == if k == name@ { Some(vv) } else { lookup(es, k) } by {
                        lemma_lookup_update(es, i as int, (name@, vv), k);
                    }
                    assert forall|a: int, b: int| 0 <= a < b < self.entries().len() implies (#[trigger] self.entries()[a]).0 != (#[trigger] self.entries()[b]).0 by {
                        assert(es[a].0 != es[b].0);
                    }
                }
                return true;
            }
            i = i + 1;
        }
        proof {
            lemma_lookup_none(es, name@);
        }
        self.values.push((name.to_owned(), value));
        proof {
            assert(self.entries() =~= es.push((name@, vv)));
            assert forall|k: Seq<char>| #[trigger] lookup(self.entries(), k) == if k == name@ { Some(vv) } else { lookup(es, k) } by {
                lemma_lookup_push(es, (name@, vv), k);
            }
            assert forall|a: int, b: int| 0 <= a < b < self.entries().len() implies (#[trigger] self.entries()[a]).0 != (#[trigger] self.entries()[b]).0 by {
                if b == es.len() {
                    assert(self.entries()[a] == es[a]);
                }
            }
        }
        true
    }
}


/// A `bool` setting: the value where it is a boolean, else the default.
pub open spec fn bool_value(v: Option<JsonV>, default: bool) -> bool {
    match v {
        Some(JsonV::Bool(b)) => b,
        _ => default,
    }
}

/// An `i64` setting: the value where it is a whole number within `i64`, else the default.
pub open spec fn i64_value(v: Option<JsonV>, default: i64) -> i64 {
    match v {
        Some(JsonV::Number(Num::PosInt(u))) => if u <= i64::MAX { u as i64 } else { default },
        Some(JsonV::Number(Num::NegInt(i))) => i,
        _ => default,
    }
}

/// An `i32` setting: the value where it is a whole number within `i32`, else the default.
pub open spec fn i32_value(v: Option<JsonV>, default: i32) -> i32 {
    match v {
        Some(JsonV::Number(Num::PosInt(u))) => if u <= i32::MAX { u as i32 } else { default },
        Some(JsonV::Number(Num::NegInt(i))) => if i32::MIN <= i <= i32::MAX { i as i32 } else { default },
        _ => default,
    }
}

/// A text setting: the value where it is a string, else the default.
pub open spec fn text_value(v: Option<JsonV>, default: Seq<char>) -> Seq<char> {
    match v {
        Some(JsonV::Str(s)) => s,
        _ => default,
    }
}

/// An optional text setting: `null` is none, a string is itself, anything else the default.
pub open spec fn opt_text_value(v: Option<JsonV>, default: Option<Seq<char>>) -> Option<Seq<char>> {
    match v {
        Some(JsonV::Null) => None,
        Some(JsonV::Str(s)) => Some(s),
        _ => default,
    }
}

/// The name of a unit variant as `serde` reads it: a string, or an object of one key whose value
/// is `null`.
pub open spec fn unit_variant(v: Option<JsonV>) -> Option<Seq<char>> {
    match v {
        Some(JsonV::Str(s)) => Some(s),
        Some(JsonV::Object(ps)) => if ps.len() == 1 && ps[0].1 == JsonV::Null { Some(ps[0].0) } else { None },
        _ => None,
    }
}

/// The name of a theme in the file.
pub open spec fn theme_name(t: ThemeMode) -> Seq<char> {
    match t {
        ThemeMode::System => "system"@,
        ThemeMode::Light => "light"@,
        ThemeMode::Dark => "dark"@,
    }
}

/// The name of a section in the file.
pub open spec fn tab_name(t: Tab) -> Seq<char> {
    match t {
        Tab::Trends => "Trends"@,
        Tab::WhatsNew => "WhatsNew"@,
        Tab::Library => "Library"@,
        Tab::Settings => "Settings"@,
    }
}

/// The theme setting: by its name, else the default.
pub open spec fn theme_value(v: Option<JsonV>, default: ThemeMode) -> ThemeMode {
    match unit_variant(v) {
        Some(n) => if n == theme_name(ThemeMode::System) {
            ThemeMode::System
        } else if n == theme_name(ThemeMode::Light) {
            ThemeMode::Light
        } else if n == theme_name(ThemeMode::Dark) {
            ThemeMode::Dark
        } else {
            default
        },
        None => default,
    }
}

/// The section setting: by its name, else the default.
pub open spec fn tab_value(v: Option<JsonV>, default: Tab) -> Tab {
    match unit_variant(v) {
        Some(n) => if n == tab_name(Tab::Trends) {
            Tab::Trends
        } else if n == tab_name(Tab::WhatsNew) {
            Tab::WhatsNew
        } else if n == tab_name(Tab::Library) {
            Tab::Library
        } else if n == tab_name(Tab::Settings) {
            Tab::Settings
        } else {
            default
        },
        None => default,
    }
}

/// The value a key last has among the pairs: a later pair overrides an earlier one.
pub open spec fn last_value(ps: Seq<(Seq<char>, JsonV)>, k: Seq<char>) -> Option<JsonV>
    decreases ps.len(),
{
    if ps.len() == 0 {
        None
    } else if ps.last().0 == k {
        Some(ps.last().1)
    } else {
        last_value(ps.drop_last(), k)
    }
}

fn unit_variant_at(v: Option<&Json>) -> (r: Option<&str>)
    ensures
        str_view(r) == unit_variant(view_of(v)),
{
    match v {
        Some(Json::Str(s)) => Some(s.as_str()),
        Some(j) => match j {
            Json::Object(ps) => {
                proof {
                    crate::json::lemma_object(*j);
                }
                if ps.len() == 1 {
                    match &ps[0].1 {
                        Json::Null => Some(ps[0].0.as_str()),
                        _ => None,
                    }
                } else {
                    None
                }
            },
            _ => None,
        },
        None => None,
    }
}

fn is_name(s: &str, t: &str) -> (r: bool)
    ensures
        r == (s@ == t@),
{
    chars_eq(&chars_of(s), &lit(t))
}

impl Settings {
    /// The settings of a file's object; `None` where the file holds no object. A key given twice
    /// keeps its last value.
    pub fn from_object(value: &Json) -> (r: Option<Settings>)
        ensures
            match jview(*value) {
                JsonV::Object(ps) => r matches Some(s) && s.wf() && forall|k: Seq<char>| #[trigger] s.value_of(k) == last_value(ps, k),
                _ => r is None,
            },
    {
        match value {
            Json::Object(pairs) => {
                proof {
                    crate::json::lemma_object(*value);
                }
                let ghost ps = jview(*value)->Object_0;
                let mut s = Settings::new();
                let mut i: usize = 0;
                while i < pairs.len()
                    invariant
                        i <= pairs@.len(),
                        ps.len() == pairs@.len(),
                        forall|m: int| 0 <= m < pairs@.len() ==> #[trigger] ps[m] == (pairs@[m].0@, jview(pairs@[m].1)),
                        s.wf(),
                        forall|k: Seq<char>| #[trigger] s.value_of(k) == last_value(ps.take(i as int), k),
                    decreases pairs.len() - i,
                {
                    assert(ps.take(i + 1).drop_last() =~= ps.take(i as int));
                    assert(ps.take(i + 1).last() == ps[i as int]);
                    s.set_raw(pairs[i].0.as_str(), clone_json(&pairs[i].1));
                    i = i + 1;
                }
                assert(ps.take(pairs@.len() as int) =~= ps);
                Some(s)
            },
            _ => None,
        }
    }

    /// The file's object: every key with its value.
    pub fn to_object(&self) -> (r: Json)
        ensures
            jview(r) == JsonV::Object(self.entries()),
    {
        let mut out: Vec<(String, Json)> = Vec::new();
        let mut i: usize = 0;
        while i < self.values.len()
            invariant
                i <= self.values@.len(),
                out@.len() == i,
                forall|m: int| 0 <= m < i ==> (#[trigger] out@[m]).0@ == self.values@[m].0@ && jview(out@[m].1) == jview(self.values@[m].1),
            decreases self.values.len() - i,
        {
            out.push((self.values[i].0.clone(), clone_json(&self.values[i].1)));
            i = i + 1;
        }
        let r = Json::Object(out);
        proof {
            crate::json::lemma_object(r);
            assert(jview(r)->Object_0 =~= self.entries());
        }
        r
    }

    /// A `bool` setting; missing or of another type: the default.
    pub fn get_bool(&self, key: &Key<bool>) -> (r: bool)
        ensures
            r == bool_value(self.value_of(key.name_spec()@), key.default_spec()),
    {
        match self.get_raw(key.name) {
            Some(Json::Bool(b)) => *b,
            _ => key.default,
        }
    }

    /// An `i64` setting; missing or of another type: the default.
    pub fn get_i64(&self, key: &Key<i64>) -> (r: i64)
        ensures
            r == i64_value(self.value_of(key.name_spec()@), key.default_spec()),
    {
        match self.get_raw(key.name) {
            Some(Json::Number(Num::PosInt(u))) => if *u <= 9223372036854775807u64 { *u as i64 } else { key.default },
            Some(Json::Number(Num::NegInt(i))) => *i,
            _ => key.default,
        }
    }

    /// An `i32` setting; missing, of another type or out of range: the default.
    pub fn get_i32(&self, key: &Key<i32>) -> (r: i32)
        ensures
            r == i32_value(self.value_of(key.name_spec()@), key.default_spec()),
    {
        match self.get_raw(key.name) {
            Some(Json::Number(Num::PosInt(u))) => if *u <= 2147483647u64 { *u as i32 } else { key.default },
            Some(Json::Number(Num::NegInt(i))) => if -2147483648i64 <= *i && *i <= 2147483647i64 { *i as i32 } else { key.default },
            _ => key.default,
        }
    }

    /// A text setting; missing or of another type: the default.
    pub fn get_text(&self, key: &Key<&'static str>) -> (r: String)
        ensures
            r@ == text_value(self.value_of(key.name_spec()@), key.default_spec()@),
    {
        match self.get_raw(key.name) {
            Some(Json::Str(s)) => s.clone(),
            _ => key.default.to_owned(),
        }
    }

    /// An optional text setting; `null` is none; missing or of another type: the default.
    pub fn get_opt_text(&self, key: &Key<Option<&'static str>>) -> (r: Option<String>)
        ensures
            r.deep_view() == opt_text_value(self.value_of(key.name_spec()@), match key.default_spec() {
                Some(d) => Some(d@),
                None => None,
            }),
    {
        match self.get_raw(key.name) {
            Some(Json::Null) => None,
            Some(Json::Str(s)) => Some(s.clone()),
            _ => match key.default {
                Some(d) => Some(d.to_owned()),
                None => None,
            },
        }
    }

    /// The theme; unknown or missing: the default.
    pub fn get_theme(&self, key: &Key<ThemeMode>) -> (r: ThemeMode)
        ensures
            r == theme_value(self.value_of(key.name_spec()@), key.default_spec()),
    {
        proof {
            reveal_strlit("system");
            reveal_strlit("light");
            reveal_strlit("dark");
        }
        match unit_variant_at(self.get_raw(key.name)) {
            Some(n) => if is_name(n, "system") {
                ThemeMode::System
            } else if is_name(n, "light") {
                ThemeMode::Light
            } else if is_name(n, "dark") {
                ThemeMode::Dark
            } else {
                key.default
            },
            None => key.default,
        }
    }

    /// The section; unknown or missing: the default.
    pub fn get_tab(&self, key: &Key<Tab>) -> (r: Tab)
        ensures
            r == tab_value(self.value_of(key.name_spec()@), key.default_spec()),
    {
        match unit_variant_at(self.get_raw(key.name)) {
            Some(n) => if is_name(n, "Trends") {
                Tab::Trends
            } else if is_name(n, "WhatsNew") {
                Tab::WhatsNew
            } else if is_name(n, "Library") {
                Tab::Library
            } else if is_name(n, "Settings") {
                Tab::Settings
            } else {
                key.default
            },
            None => key.default,
        }
    }

    /// Sets a `bool`; `true` where it changed.
    pub fn set_bool(&mut self, key: &Key<bool>, value: bool) -> (changed: bool)
        requires
            old(self).wf(),
        ensures
            final(self).wf(),
            changed == (old(self).value_of(key.name_spec()@) != Some(JsonV::Bool(value))),
            forall|k: Seq<char>|
                #[trigger] final(self).value_of(k) == if k == key.name_spec()@ {
                    Some(JsonV::Bool(value))
                } else {
                    old(self).value_of(k)
                },
    {
        self.set_raw(key.name, Json::Bool(value))
    }

    /// Sets an `i64`; `true` where it changed.
    pub fn set_i64(&mut self, key: &Key<i64>, value: i64) -> (changed: bool)
        requires
            old(self).wf(),
        ensures
            final(self).wf(),
            forall|k: Seq<char>|
                #[trigger] final(self).value_of(k) == if k == key.name_spec()@ {
                    Some(JsonV::Number(if value < 0 { Num::NegInt(value) } else { Num::PosInt(value as u64) }))
                } else {
                    old(self).value_of(k)
                },
            changed == (old(self).value_of(key.name_spec()@) != final(self).value_of(key.name_spec()@)),
    {
        let n = if value < 0 { Num::NegInt(value) } else { Num::PosInt(value as u64) };
        self.set_raw(key.name, Json::Number(n))
    }

    /// Sets an `i32`; `true` where it changed.
    pub fn set_i32(&mut self, key: &Key<i32>, value: i32) -> (changed: bool)
        requires
            old(self).wf(),
        ensures
            final(self).wf(),
            forall|k: Seq<char>|
                #[trigger] final(self).value_of(k) == if k == key.name_spec()@ {
                    Some(JsonV::Number(if value < 0 { Num::NegInt(value as i64) } else { Num::PosInt(value as u64) }))
                } else {
                    old(self).value_of(k)
                },
            changed == (old(self).value_of(key.name_spec()@) != final(self).value_of(key.name_spec()@)),
    {
        let n = if value < 0 { Num::NegInt(value as i64) } else { Num::PosInt(value as u64) };
        self.set_raw(key.name, Json::Number(n))
    }

    /// Sets a text; `true` where it changed.
    pub fn set_text(&mut self, key: &Key<&'static str>, value: &str) -> (changed: bool)
        requires
            old(self).wf(),
        ensures
            final(self).wf(),
            forall|k: Seq<char>|
                #[trigger] final(self).value_of(k) == if k == key.name_spec()@ {
                    Some(JsonV::Str(value@))
                } else {
                    old(self).value_of(k)
                },
            changed == (old(self).value_of(key.name_spec()@) != Some(JsonV::Str(value@))),
    {
        self.set_raw(key.name, Json::Str(value.to_owned()))
    }

    /// Sets an optional text (`null` for none); `true` where it changed.
    pub fn set_opt_text(&mut self, key: &Key<Option<&'static str>>, value: Option<&str>) -> (changed: bool)
        requires
            old(self).wf(),
        ensures
            final(self).wf(),
            forall|k: Seq<char>|
                #[trigger] final(self).value_of(k) == if k == key.name_spec()@ {
                    Some(
                        match value {
                            Some(v) => JsonV::Str(v@),
                            None => JsonV::Null,
                        },
                    )
                } else {
                    old(self).value_of(k)
                },
            changed == (old(self).value_of(key.name_spec()@) != final(self).value_of(key.name_spec()@)),
    {
        let v = match value {
            Some(v) => Json::Str(v.to_owned()),
            None => Json::Null,
        };
        self.set_raw(key.name, v)
    }

    /// Sets the theme (by its name); `true` where it changed.
    pub fn set_theme(&mut self, key: &Key<ThemeMode>, value: ThemeMode) -> (changed: bool)
        requires
            old(self).wf(),
        ensures
            final(self).wf(),
            forall|k: Seq<char>|
                #[trigger] final(self).value_of(k) == if k == key.name_spec()@ {
                    Some(JsonV::Str(theme_name(value)))
                } else {
                    old(self).value_of(k)
                },
            changed == (old(self).value_of(key.name_spec()@) != Some(JsonV::Str(theme_name(value)))),
    {
        let name = match value {
            ThemeMode::System => "system",
            ThemeMode::Light => "light",
            ThemeMode::Dark => "dark",
        };
        self.set_raw(key.name, Json::Str(name.to_owned()))
    }

    /// Sets the section (by its name); `true` where it changed.
    pub fn set_tab(&mut self, key: &Key<Tab>, value: Tab) -> (changed: bool)
        requires
            old(self).wf(),
        ensures
            final(self).wf(),
            forall|k: Seq<char>|
                #[trigger] final(self).value_of(k) == if k == key.name_spec()@ {
                    Some(JsonV::Str(tab_name(value)))
                } else {
                    old(self).value_of(k)
                },
            changed == (old(self).value_of(key.name_spec()@) != Some(JsonV::Str(tab_name(value)))),
    {
        let name = match value {
            Tab::Trends => "Trends",
            Tab::WhatsNew => "WhatsNew",
            Tab::Library => "Library",
            Tab::Settings => "Settings",
        };
        self.set_raw(key.name, Json::Str(name.to_owned()))
    }

    /// A list's sort order (`sort.favorites` and the like): "Field:asc" or "Field:desc".
    pub fn sort(&self, screen: &str) -> (r: Option<String>)
        ensures
            r.deep_view() == match self.value_of("sort."@ + screen@) {
                Some(JsonV::Str(s)) => Some(s),
                _ => None,
            },
    {
        let mut k = lit("sort.");
        crate::chars::extend_str(&mut k, screen);
        let name = crate::chars::string_of(&k);
        match self.get_raw(name.as_str()) {
            Some(Json::Str(s)) => Some(s.clone()),
            _ => None,
        }
    }

    /// Sets a list's sort order; `true` where it changed.
    pub fn set_sort(&mut self, screen: &str, value: &str) -> (changed: bool)
        requires
            old(self).wf(),
        ensures
            final(self).wf(),
            forall|k: Seq<char>|
                #[trigger] final(self).value_of(k) == if k == "sort."@ + screen@ {
                    Some(JsonV::Str(value@))
                } else {
                    old(self).value_of(k)
                },
            changed == (old(self).value_of("sort."@ + screen@) != Some(JsonV::Str(value@))),
    {
        let mut k = lit("sort.");
        crate::chars::extend_str(&mut k, screen);
        let name = crate::chars::string_of(&k);
        self.set_raw(name.as_str(), Json::Str(value.to_owned()))
    }
}

/// A setting read back gives what was set: a key set to a value holds it, and every other key
/// keeps its own.
pub proof fn law_a_setting_reads_back_what_was_set(
    before: Settings,
    after: Settings,
    name: Seq<char>,
    value: JsonV,
    other: Seq<char>,
)
    requires
        forall|k: Seq<char>| #[trigger] after.value_of(k) == if k == name { Some(value) } else { before.value_of(k) },
    ensures
        after.value_of(name) == Some(value),
        other != name ==> after.value_of(other) == before.value_of(other),
{
    assert(after.value_of(name) == Some(value));
    assert(after.value_of(other) == if other == name { Some(value) } else { before.value_of(other) });
}


/// A typed setting reads back as it was written: whatever the default, the value that a setter
/// stores is read by the getter of its type as the value given.
pub proof fn law_typed_settings_read_back(
    b: bool,
    n: i64,
    m: i32,
    t: Seq<char>,
    o: Option<Seq<char>>,
    theme: ThemeMode,
    tab: Tab,
    db: bool,
    dn: i64,
    dm: i32,
    dt: Seq<char>,
    dopt: Option<Seq<char>>,
    dtheme: ThemeMode,
    dtab: Tab,
)
    ensures
        bool_value(Some(JsonV::Bool(b)), db) == b,
        i64_value(Some(JsonV::Number(if n < 0 { Num::NegInt(n) } else { Num::PosInt(n as u64) })), dn) == n,
        i32_value(Some(JsonV::Number(if m < 0 { Num::NegInt(m as i64) } else { Num::PosInt(m as u64) })), dm) == m,
        text_value(Some(JsonV::Str(t)), dt) == t,
        opt_text_value(Some(match o { Some(v) => JsonV::Str(v), None => JsonV::Null }), dopt) == o,
        theme_value(Some(JsonV::Str(theme_name(theme))), dtheme) == theme,
        tab_value(Some(JsonV::Str(tab_name(tab))), dtab) == tab,
{
    reveal_strlit("system");
    reveal_strlit("light");
    reveal_strlit("dark");
    reveal_strlit("Trends");
    reveal_strlit("WhatsNew");
    reveal_strlit("Library");
    reveal_strlit("Settings");
    assert(theme_name(ThemeMode::System)[0] == 's');
    assert(theme_name(ThemeMode::Light)[0] == 'l');
    assert(theme_name(ThemeMode::Dark)[0] == 'd');
    assert(tab_name(Tab::Trends)[0] == 'T');
    assert(tab_name(Tab::WhatsNew)[0] == 'W');
    assert(tab_name(Tab::Library)[0] == 'L');
    assert(tab_name(Tab::Settings)[0] == 'S');
}

} // verus!
