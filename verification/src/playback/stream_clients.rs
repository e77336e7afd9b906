//! The InnerTube clients for the stream, as `config/stream-clients.json` lists them. The app
//! takes its saved copy and fetches a fresh one in the background, so that a break on YouTube's
//! side is mended without a release; the built-in list stays the fallback, and a file that is not
//! valid is not applied.
use vstd::prelude::*;
use crate::chars::{trim, trimmed};
use crate::innertube::client::ClientProfile;
use crate::innertube::nav::{at, at_index, lookup, view_of};
use crate::json::{jview, Json, JsonV, Num};

verus! {

/// Where the fresh list is fetched from.
pub const URL: &'static str = "https://raw.githubusercontent.com/melogold-app/melogoldLinux/main/config/stream-clients.json";

/// The file format this app reads.
pub const SCHEMA: u32 = 1;

/// The built-in list: the client that the stream uses.
pub fn built_in() -> (r: Vec<ClientProfile>)
    ensures
        r@.len() == 1,
        r@[0].is(
            "VISIONOS",
            101,
            "1.02",
            "www.youtube.com",
            crate::innertube::client::VISION_OS_UA,
        ),
{
    let mut v: Vec<ClientProfile> = Vec::new();
    v.push(ClientProfile::vision_os());
    v
}

/// A client profile as plain values.
pub struct ProfileV {
    pub name: Seq<char>,
    pub id: u32,
    pub version: Seq<char>,
    pub host: Seq<char>,
    pub user_agent: Seq<char>,
    pub referer: Option<Seq<char>>,
    pub platform: Option<Seq<char>>,
    pub device_make: Option<Seq<char>>,
    pub device_model: Option<Seq<char>>,
    pub os_name: Option<Seq<char>>,
    pub os_version: Option<Seq<char>>,
    pub android_sdk_version: Option<u32>,
    pub media_user_agent: Option<Seq<char>>,
}

impl DeepView for ClientProfile {
    type V = ProfileV;

    open spec fn deep_view(&self) -> ProfileV {
        ProfileV {
            name: self.name@,
            id: self.id,
            version: self.version@,
            host: self.host@,
            user_agent: self.user_agent@,
            referer: self.referer.deep_view(),
            platform: self.platform.deep_view(),
            device_make: self.device_make.deep_view(),
            device_model: self.device_model.deep_view(),
            os_name: self.os_name.deep_view(),
            os_version: self.os_version.deep_view(),
            android_sdk_version: self.android_sdk_version,
            media_user_agent: self.media_user_agent.deep_view(),
        }
    }
}

/// A record's field, as `serde` reads a struct: by its key in an object, by its place in an
/// array. An object from `serde_json` holds each key once.
pub open spec fn field_of(v: JsonV, index: int, key: Seq<char>) -> Option<JsonV> {
    match v {
        JsonV::Object(pairs) => lookup(pairs, key),
        JsonV::Array(a) => if index < a.len() { Some(a[index]) } else { None },
        _ => None,
    }
}

/// A record of `fields` fields: an object, or an array of at most that many elements.
pub open spec fn record_shape(v: JsonV, fields: int) -> bool {
    match v {
        JsonV::Object(_) => true,
        JsonV::Array(a) => a.len() <= fields,
        _ => false,
    }
}

/// A `u32`: a whole number from 0 to `u32::MAX`.
pub open spec fn u32_of(v: JsonV) -> Option<u32> {
    match v {
        JsonV::Number(Num::PosInt(u)) => if u <= u32::MAX { Some(u as u32) } else { None },
        JsonV::Number(Num::NegInt(i)) => if 0 <= i <= u32::MAX { Some(i as u32) } else { None },
        _ => None,
    }
}

/// A required text field; `None`: missing or not a string.
pub open spec fn req_text(v: JsonV, index: int, key: Seq<char>) -> Option<Seq<char>> {
    match field_of(v, index, key) {
        Some(JsonV::Str(s)) => Some(s),
        _ => None,
    }
}

/// An optional text field: missing or `null` is `Some(None)`; `None`: of another type.
pub open spec fn opt_text(v: JsonV, index: int, key: Seq<char>) -> Option<Option<Seq<char>>> {
    match field_of(v, index, key) {
        None => Some(None),
        Some(JsonV::Null) => Some(None),
        Some(JsonV::Str(s)) => Some(Some(s)),
        _ => None,
    }
}

/// An optional `u32` field: missing or `null` is `Some(None)`; `None`: not a `u32`.
pub open spec fn opt_u32(v: JsonV, index: int, key: Seq<char>) -> Option<Option<u32>> {
    match field_of(v, index, key) {
        None => Some(None),
        Some(JsonV::Null) => Some(None),
        Some(x) => match u32_of(x) {
            Some(n) => Some(Some(n)),
            None => None,
        },
    }
}

/// A client profile as the file writes it (camelCase keys; unknown keys are ignored).
pub open spec fn profile_of(v: JsonV) -> Option<ProfileV> {
    let id = match field_of(v, 1, "id"@) {
        Some(x) => u32_of(x),
        None => None,
    };
    if !record_shape(v, 13) || req_text(v, 0, "name"@) is None || id is None || req_text(v, 2, "version"@) is None
        || req_text(v, 3, "host"@) is None || req_text(v, 4, "userAgent"@) is None || opt_text(v, 5, "referer"@) is None
        || opt_text(v, 6, "platform"@) is None || opt_text(v, 7, "deviceMake"@) is None || opt_text(
        v,
        8,
        "deviceModel"@,
    ) is None || opt_text(v, 9, "osName"@) is None || opt_text(v, 10, "osVersion"@) is None || opt_u32(
        v,
        11,
        "androidSdkVersion"@,
    ) is None || opt_text(v, 12, "mediaUserAgent"@) is None {
        None
    } else {
        Some(
            ProfileV {
                name: req_text(v, 0, "name"@).unwrap(),
                id: id.unwrap(),
                version: req_text(v, 2, "version"@).unwrap(),
                host: req_text(v, 3, "host"@).unwrap(),
                user_agent: req_text(v, 4, "userAgent"@).unwrap(),
                referer: opt_text(v, 5, "referer"@).unwrap(),
                platform: opt_text(v, 6, "platform"@).unwrap(),
                device_make: opt_text(v, 7, "deviceMake"@).unwrap(),
                device_model: opt_text(v, 8, "deviceModel"@).unwrap(),
                os_name: opt_text(v, 9, "osName"@).unwrap(),
                os_version: opt_text(v, 10, "osVersion"@).unwrap(),
                android_sdk_version: opt_u32(v, 11, "androidSdkVersion"@).unwrap(),
                media_user_agent: opt_text(v, 12, "mediaUserAgent"@).unwrap(),
            },
        )
    }
}

/// A profile that lacks a required value: a blank name, version, host or User-Agent, or id 0.
pub open spec fn is_blank(p: ProfileV) -> bool {
    trim(p.name).len() == 0 || p.id == 0 || trim(p.version).len() == 0 || trim(p.host).len() == 0 || trim(
        p.user_agent,
    ).len() == 0
}

/// The profiles of the clients, each read and not blank; `None` at the first that is not.
pub open spec fn profiles_of(clients: Seq<JsonV>) -> Option<Seq<ProfileV>>
    decreases clients.len(),
{
    if clients.len() == 0 {
        Some(Seq::empty())
    } else {
        match profiles_of(clients.drop_last()) {
            Some(ps) => match profile_of(clients.last()) {
                Some(p) => if is_blank(p) { None } else { Some(ps.push(p)) },
                None => None,
            },
            None => None,
        }
    }
}

/// The `clients` of the file: missing is none; `None`: not an array.
pub open spec fn clients_of(config: JsonV) -> Option<Seq<JsonV>> {
    match field_of(config, 1, "clients"@) {
        None => Some(Seq::empty()),
        Some(JsonV::Array(a)) => Some(a),
        _ => None,
    }
}

/// The profiles of the file: `None` where it is not a record with a `u32` schema and an array of
/// clients, the schema is not this app's, the list is empty, or a client lacks a required value.
pub open spec fn config_of(config: JsonV) -> Option<Seq<ProfileV>> {
    let schema = match field_of(config, 0, "schema"@) {
        Some(x) => u32_of(x),
        None => None,
    };
    match (schema, clients_of(config)) {
        (Some(s), Some(clients)) => if !record_shape(config, 2) || s != SCHEMA || clients.len() == 0 {
            None
        } else {
            profiles_of(clients)
        },
        _ => None,
    }
}

fn field_at<'a>(v: &'a Json, index: usize, key: &str) -> (r: Option<&'a Json>)
    ensures
        view_of(r) == field_of(jview(*v), index as int, key@),
{
    match v {
        Json::Object(_) => at(Some(v), key),
        Json::Array(_) => at_index(Some(v), index),
        _ => None,
    }
}

fn record_shape_of(v: &Json, fields: usize) -> (b: bool)
    ensures
        b == record_shape(jview(*v), fields as int),
{
    match v {
        Json::Object(_) => true,
        Json::Array(a) => {
            proof {
                crate::json::lemma_array(*v);
            }
            a.len() <= fields
        },
        _ => false,
    }
}

fn u32_at(o: Option<&Json>) -> (r: Option<u32>)
    ensures
        r == match view_of(o) {
            Some(x) => u32_of(x),
            None => None,
        },
{
    match o {
        Some(Json::Number(Num::PosInt(u))) => if *u <= 4294967295u64 {
            Some(*u as u32)
        } else {
            None
        },
        Some(Json::Number(Num::NegInt(i))) => if 0 <= *i && *i <= 4294967295i64 {
            Some(*i as u32)
        } else {
            None
        },
        _ => None,
    }
}

fn req_text_at(v: &Json, index: usize, key: &str) -> (r: Option<String>)
    ensures
        r.deep_view() == req_text(jview(*v), index as int, key@),
{
    match field_at(v, index, key) {
        Some(Json::Str(s)) => Some(s.clone()),
        _ => None,
    }
}

fn opt_text_at(v: &Json, index: usize, key: &str) -> (r: Option<Option<String>>)
    ensures
        r.deep_view() == opt_text(jview(*v), index as int, key@),
{
    match field_at(v, index, key) {
        None => Some(None),
        Some(Json::Null) => Some(None),
        Some(Json::Str(s)) => Some(Some(s.clone())),
        _ => None,
    }
}

fn opt_u32_at(v: &Json, index: usize, key: &str) -> (r: Option<Option<u32>>)
    ensures
        r == opt_u32(jview(*v), index as int, key@),
{
    match field_at(v, index, key) {
        None => Some(None),
        Some(Json::Null) => Some(None),
        Some(x) => match u32_at(Some(x)) {
            Some(n) => Some(Some(n)),
            None => None,
        },
    }
}

/// A client profile as the file writes it.
pub fn profile_from(v: &Json) -> (r: Option<ClientProfile>)
    ensures
        r.deep_view() == profile_of(jview(*v)),
{
    if !record_shape_of(v, 13) {
        return None;
    }
    let name = req_text_at(v, 0, "name");
    let id = u32_at(field_at(v, 1, "id"));
    let version = req_text_at(v, 2, "version");
    let host = req_text_at(v, 3, "host");
    let user_agent = req_text_at(v, 4, "userAgent");
    let referer = opt_text_at(v, 5, "referer");
    let platform = opt_text_at(v, 6, "platform");
    let device_make = opt_text_at(v, 7, "deviceMake");
    let device_model = opt_text_at(v, 8, "deviceModel");
    let os_name = opt_text_at(v, 9, "osName");
    let os_version = opt_text_at(v, 10, "osVersion");
    let android_sdk_version = opt_u32_at(v, 11, "androidSdkVersion");
    let media_user_agent = opt_text_at(v, 12, "mediaUserAgent");
    match (name, id, version, host, user_agent) {
        (Some(name), Some(id), Some(version), Some(host), Some(user_agent)) => match (
            referer,
            platform,
            device_make,
            device_model,
            os_name,
            os_version,
            android_sdk_version,
            media_user_agent,
        ) {
            (
                Some(referer),
                Some(platform),
                Some(device_make),
                Some(device_model),
                Some(os_name),
                Some(os_version),
                Some(android_sdk_version),
                Some(media_user_agent),
            ) => Some(
                ClientProfile {
                    name,
                    id,
                    version,
                    host,
                    user_agent,
                    referer,
                    platform,
                    device_make,
                    device_model,
                    os_name,
                    os_version,
                    android_sdk_version,
                    media_user_agent,
                },
            ),
            _ => None,
        },
        _ => None,
    }
}

/// A profile that lacks a required value.
fn blank(p: &ClientProfile) -> (b: bool)
    ensures
        b == is_blank(p.deep_view()),
{
    trimmed(p.name.as_str()).len() == 0 || p.id == 0 || trimmed(p.version.as_str()).len() == 0
        || trimmed(p.host.as_str()).len() == 0 || trimmed(p.user_agent.as_str()).len() == 0
}

/// The profiles of the file (`config/stream-clients.json` as a JSON value); `None`: the schema is
/// not this app's, the list is empty, or a client lacks a required field or value.
pub fn parse_config(config: &Json) -> (r: Option<Vec<ClientProfile>>)
    ensures
        r.deep_view() == config_of(jview(*config)),
{
    let schema = u32_at(field_at(config, 0, "schema"));
    let clients = field_at(config, 1, "clients");
    let shape = record_shape_of(config, 2);
    let schema = match schema {
        Some(s) => s,
        None => return None,
    };
    let list: &Vec<Json> = match clients {
        None => {
            assert(clients_of(jview(*config)) == Some(Seq::<JsonV>::empty()));
            return None;
        },
        Some(Json::Array(a)) => a,
        _ => return None,
    };
    proof {
        crate::json::lemma_array(*clients.unwrap());
    }
    let ghost cv = clients_of(jview(*config)).unwrap();
    if !shape || schema != SCHEMA || list.len() == 0 {
        return None;
    }
    let mut out: Vec<ClientProfile> = Vec::new();
    let mut i: usize = 0;
    assert(cv.take(0) =~= Seq::<JsonV>::empty());
    assert(config_of(jview(*config)) == profiles_of(cv));
    while i < list.len()
        invariant
            i <= list@.len(),
            config_of(jview(*config)) == profiles_of(cv),
            list@.len() == cv.len(),
            forall|m: int| 0 <= m < list@.len() ==> #[trigger] jview(list@[m]) == cv[m],
            profiles_of(cv.take(i as int)) == Some(out.deep_view()),
        decreases list.len() - i,
    {
        assert(cv.take(i + 1).drop_last() =~= cv.take(i as int));
        assert(cv.take(i + 1).last() == cv[i as int]);
        let ghost before = out.deep_view();
        match profile_from(&list[i]) {
            Some(p) => {
                if blank(&p) {
                    assert(profiles_of(cv.take(i + 1)) is None);
                    assert(profiles_of(cv) is None) by {
                        lemma_profiles_prefix(cv, i + 1);
                    }
                    return None;
                }
                out.push(p);
                assert(out.deep_view() =~= before.push(profile_of(cv[i as int]).unwrap()));
            },
            None => {
                assert(profiles_of(cv.take(i + 1)) is None);
                assert(profiles_of(cv) is None) by {
                    lemma_profiles_prefix(cv, i + 1);
                }
                return None;
            },
        }
        i = i + 1;
    }
    assert(cv.take(list@.len() as int) =~= cv);
    Some(out)
}

/// A list whose prefix fails fails.
proof fn lemma_profiles_prefix(clients: Seq<JsonV>, n: int)
    requires
        0 <= n <= clients.len(),
        profiles_of(clients.take(n)) is None,
    ensures
        profiles_of(clients) is None,
    decreases clients.len() - n,
{
    if n < clients.len() {
        assert(clients.take(n + 1).drop_last() =~= clients.take(n));
        lemma_profiles_prefix(clients, n + 1);
    } else {
        assert(clients.take(n) =~= clients);
    }
}

} // verus!
