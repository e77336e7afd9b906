//! Profiles of InnerTube clients: each has its own User-Agent and headers; there is no global
//! one. And the content language and region from the system's locale.
use vstd::prelude::*;
use crate::chars::{chars_eq, chars_of, dec, lit, lower_ascii, lowercase_ascii, push_decimal, slice_chars, string_of, extend_chars};
use crate::innertube::nav::{as_str, at, lookup, member, string_at};
use crate::innertube::ErrorKind;
use crate::json::{jview, lemma_object, Json, JsonV, Num};

verus! {

/// An InnerTube client: name, version, headers, device fields (as in `config/stream-clients.json`).
#[derive(Debug, PartialEq, Eq)]
pub struct ClientProfile {
    pub name: String,
    pub id: u32,
    pub version: String,
    pub host: String,
    pub user_agent: String,
    pub referer: Option<String>,
    pub platform: Option<String>,
    pub device_make: Option<String>,
    pub device_model: Option<String>,
    pub os_name: Option<String>,
    pub os_version: Option<String>,
    pub android_sdk_version: Option<u32>,
    /// The User-Agent for googlevideo requests; `None`: any.
    pub media_user_agent: Option<String>,
}

pub const CHROME_UA: &'static str =
    "Mozilla/5.0 (Windows NT 10.0; Win64; x64) AppleWebKit/537.36 (KHTML, like Gecko) Chrome/140.0.0.0 Safari/537.36";

pub const VISION_OS_UA: &'static str =
    "Mozilla/5.0 (Macintosh; Intel Mac OS X 15_7_3) AppleWebKit/605.1.15 (KHTML, like Gecko) Version/26.0 Safari/605.1.15";

pub const ANDROID_MUSIC_UA: &'static str = "com.google.android.apps.youtube.music/7.27.52 (Linux; U; Android 11) gzip";

fn text(s: &str) -> (r: String)
    ensures
        r@ == s@,
{
    string_of(&chars_of(s))
}

fn some_text(s: &str) -> (r: Option<String>)
    ensures
        r matches Some(t) && t@ == s@,
{
    Some(text(s))
}

/// The optional text's characters.
pub open spec fn opt_chars(s: Option<String>) -> Option<Seq<char>> {
    match s {
        Some(t) => Some(t@),
        None => None,
    }
}

impl ClientProfile {
    /// The profile's identity: name, id, version, host and User-Agent.
    pub open spec fn is(&self, name: &str, id: u32, version: &str, host: &str, user_agent: &str) -> bool {
        &&& self.name@ == name@
        &&& self.id == id
        &&& self.version@ == version@
        &&& self.host@ == host@
        &&& self.user_agent@ == user_agent@
        &&& self.media_user_agent is None
    }

    fn profile(name: &str, id: u32, version: &str, host: &str, user_agent: &str) -> (r: ClientProfile)
        ensures
            r.is(name, id, version, host, user_agent),
            r.referer is None,
            r.platform is None,
            r.device_make is None,
            r.device_model is None,
            r.os_name is None,
            r.os_version is None,
            r.android_sdk_version is None,
    {
        ClientProfile {
            name: text(name),
            id,
            version: text(version),
            host: text(host),
            user_agent: text(user_agent),
            referer: None,
            platform: None,
            device_make: None,
            device_model: None,
            os_name: None,
            os_version: None,
            android_sdk_version: None,
            media_user_agent: None,
        }
    }

    /// YouTube Music in a browser: search, pages, the queue.
    pub fn web_remix() -> (r: Self)
        ensures
            r.is("WEB_REMIX", 67, "1.20260922.01.00", "music.youtube.com", CHROME_UA),
            opt_chars(r.referer) == Some("https://music.youtube.com/"@),
            opt_chars(r.platform) == Some("DESKTOP"@),
            r.device_make is None && r.device_model is None && r.os_name is None && r.os_version is None,
            r.android_sdk_version is None,
    {
        let mut p = Self::profile("WEB_REMIX", 67, "1.20260922.01.00", "music.youtube.com", CHROME_UA);
        p.referer = some_text("https://music.youtube.com/");
        p.platform = some_text("DESKTOP");
        p
    }

    /// Plain YouTube: videos, channels, live streams outside the YTM catalogue.
    pub fn web() -> (r: Self)
        ensures
            r.is("WEB", 1, "2.20260924.00.00", "www.youtube.com", CHROME_UA),
            opt_chars(r.referer) == Some("https://www.youtube.com/"@),
            opt_chars(r.platform) == Some("DESKTOP"@),
            r.device_make is None && r.device_model is None && r.os_name is None && r.os_version is None,
            r.android_sdk_version is None,
    {
        let mut p = Self::profile("WEB", 1, "2.20260924.00.00", "www.youtube.com", CHROME_UA);
        p.referer = some_text("https://www.youtube.com/");
        p.platform = some_text("DESKTOP");
        p
    }

    /// The stream: direct links without a PO token; needs `visitorData`.
    pub fn vision_os() -> (r: Self)
        ensures
            r.is("VISIONOS", 101, "1.02", "www.youtube.com", VISION_OS_UA),
            opt_chars(r.referer) == Some("https://www.youtube.com/"@),
            r.platform is None,
            opt_chars(r.device_make) == Some("Apple"@),
            opt_chars(r.device_model) == Some("RealityDevice17,1"@),
            opt_chars(r.os_name) == Some("visionOS"@),
            opt_chars(r.os_version) == Some("26.5.23O471"@),
            r.android_sdk_version is None,
    {
        let mut p = Self::profile("VISIONOS", 101, "1.02", "www.youtube.com", VISION_OS_UA);
        p.referer = some_text("https://www.youtube.com/");
        p.device_make = some_text("Apple");
        p.device_model = some_text("RealityDevice17,1");
        p.os_name = some_text("visionOS");
        p.os_version = some_text("26.5.23O471");
        p
    }

    /// Synced lyrics of YouTube Music (`timedLyricsModel`).
    pub fn android_music() -> (r: Self)
        ensures
            r.is("ANDROID_MUSIC", 21, "7.27.52", "music.youtube.com", ANDROID_MUSIC_UA),
            r.referer is None,
            opt_chars(r.platform) == Some("MOBILE"@),
            r.device_make is None && r.device_model is None,
            opt_chars(r.os_name) == Some("Android"@),
            opt_chars(r.os_version) == Some("11"@),
            r.android_sdk_version == Some(30u32),
    {
        let mut p = Self::profile("ANDROID_MUSIC", 21, "7.27.52", "music.youtube.com", ANDROID_MUSIC_UA);
        p.platform = some_text("MOBILE");
        p.os_name = some_text("Android");
        p.os_version = some_text("11");
        p.android_sdk_version = Some(30);
        p
    }
}

/// The languages YouTube offers for its interface.
pub const SUPPORTED_LANGUAGES: [&'static str; 75] = [
    "af", "az", "id", "ms", "ca", "cs", "da", "de", "et", "en-GB", "en", "es", "es-419", "eu", "fil", "fr", "fr-CA", "gl", "hr", "zu",
    "is", "it", "sw", "lt", "hu", "nl", "no", "uz", "pl", "pt-PT", "pt", "ro", "sq", "sk", "sl", "fi", "sv", "vi", "tr", "bg", "ky", "kk",
    "mk", "mn", "ru", "sr", "uk", "el", "hy", "iw", "ur", "ar", "fa", "ne", "mr", "hi", "bn", "pa", "gu", "ta", "te", "kn", "ml", "si",
    "th", "lo", "my", "ka", "am", "km", "zh-CN", "zh-TW", "zh-HK", "ja", "ko",
];

/// A language YouTube supports.
pub open spec fn is_supported(lang: Seq<char>) -> bool {
    exists|i: int| 0 <= i < 75 && (#[trigger] SUPPORTED_LANGUAGES@[i])@ == lang
}

/// `char::to_ascii_uppercase`.
pub open spec fn ascii_upper(c: char) -> char {
    if 'a' <= c <= 'z' { ((c as u32) - 32) as char } else { c }
}

/// The index of the first character of `s` that is one of `a`, `b`.
pub open spec fn first_of(s: Seq<char>, a: char, b: char) -> int
    decreases s.len(),
{
    if s.len() == 0 {
        0
    } else if s.last() == a || s.last() == b {
        let f = first_of(s.drop_last(), a, b);
        if f < s.len() - 1 { f } else { s.len() - 1 }
    } else {
        let f = first_of(s.drop_last(), a, b);
        if f < s.len() - 1 { f } else { s.len() as int }
    }
}

/// `hl` and `gl` of a locale: `ru_RU.UTF-8` gives (`ru`, `RU`); an unknown language is `en`,
/// a missing or odd region `US`.
pub open spec fn locale_of(tag: Seq<char>) -> (Seq<char>, Seq<char>) {
    let t = tag.take(first_of(tag, '.', '@'));
    let cut = first_of(t, '_', '-');
    let language = lower_ascii(t.take(cut));
    let region: Option<Seq<char>> = if cut < t.len() { Some(t.skip(cut + 1).map_values(|c: char| ascii_upper(c))) } else { None };
    let hl = match region {
        Some(r) => if is_supported(language + seq!['-'] + r) {
            language + seq!['-'] + r
        } else if is_supported(language) {
            language
        } else {
            "en"@
        },
        None => if is_supported(language) { language } else { "en"@ },
    };
    let gl = match region {
        Some(r) => if r.len() == 2 && 'A' <= r[0] <= 'Z' && 'A' <= r[1] <= 'Z' { r } else { "US"@ },
        None => "US"@,
    };
    (hl, gl)
}

fn first_of_chars(s: &Vec<char>, a: char, b: char) -> (r: usize)
    ensures
        r == first_of(s@, a, b),
        r <= s@.len(),
{
    let mut i: usize = 0;
    while i < s.len() && s[i] != a && s[i] != b
        invariant
            i <= s.len(),
            forall|k: int| 0 <= k < i ==> s@[k] != a && s@[k] != b,
        decreases s.len() - i,
    {
        i = i + 1;
    }
    proof {
        lemma_first_of(s@, a, b, i as int);
    }
    i
}

proof fn lemma_first_of(s: Seq<char>, a: char, b: char, n: int)
    requires
        0 <= n <= s.len(),
        forall|k: int| 0 <= k < n ==> s[k] != a && s[k] != b,
        n < s.len() ==> (s[n] == a || s[n] == b),
    ensures
        first_of(s, a, b) == n,
    decreases s.len(),
{
    if s.len() > 0 {
        if n < s.len() {
            lemma_first_of(s.drop_last(), a, b, n);
        } else {
            lemma_first_of(s.drop_last(), a, b, n - 1);
        }
    }
}

fn supported(lang: &Vec<char>) -> (r: bool)
    ensures
        r == is_supported(lang@),
{
    let mut i: usize = 0;
    while i < 75
        invariant
            i <= 75,
            forall|k: int| 0 <= k < i ==> (#[trigger] SUPPORTED_LANGUAGES@[k])@ != lang@,
        decreases 75 - i,
    {
        if chars_eq(&chars_of(SUPPORTED_LANGUAGES[i]), lang) {
            return true;
        }
        i = i + 1;
    }
    false
}

/// `hl` and `gl` of a locale: `ru_RU.UTF-8` gives (`ru`, `RU`); an unknown language is `en`, the
/// region `US`.
pub fn locale_from(tag: &str) -> (r: (String, String))
    ensures
        r.0@ == locale_of(tag@).0,
        r.1@ == locale_of(tag@).1,
{
    let full = chars_of(tag);
    let t = slice_chars(&full, 0, first_of_chars(&full, '.', '@'));
    let cut = first_of_chars(&t, '_', '-');
    let language = lowercase_ascii(&slice_chars(&t, 0, cut));
    assert(t@ =~= tag@.take(first_of(tag@, '.', '@')));
    assert(t@.subrange(0, cut as int) =~= t@.take(cut as int));
    let region: Option<Vec<char>> = if cut < t.len() {
        let raw = slice_chars(&t, cut + 1, t.len());
        let mut up: Vec<char> = Vec::new();
        let mut k: usize = 0;
        while k < raw.len()
            invariant
                k <= raw.len(),
                up@ == raw@.take(k as int).map_values(|c: char| ascii_upper(c)),
            decreases raw.len() - k,
        {
            let c = raw[k];
            let u = if 'a' <= c && c <= 'z' { ((c as u32 - 32) as u8) as char } else { c };
            up.push(u);
            assert(up@ =~= raw@.take(k + 1).map_values(|c: char| ascii_upper(c)));
            k = k + 1;
        }
        assert(raw@.take(raw.len() as int) =~= t@.skip(cut + 1));
        assert(up@ =~= t@.skip(cut + 1).map_values(|c: char| ascii_upper(c)));
        Some(up)
    } else {
        None
    };
    let hl: Vec<char> = match &region {
        Some(r) => {
            let mut f = slice_chars(&language, 0, language.len());
            assert(f@ =~= language@);
            f.push('-');
            extend_chars(&mut f, r);
            assert(f@ =~= language@ + seq!['-'] + r@);
            if supported(&f) {
                f
            } else if supported(&language) {
                language
            } else {
                lit("en")
            }
        },
        None => if supported(&language) { language } else { lit("en") },
    };
    let gl: Vec<char> = match region {
        Some(r) => if r.len() == 2 && 'A' <= r[0] && r[0] <= 'Z' && 'A' <= r[1] && r[1] <= 'Z' { r } else { lit("US") },
        None => lit("US"),
    };
    (string_of(&hl), string_of(&gl))
}


/// Pairs of an object as plain values.
pub open spec fn pairs_view(v: Seq<(String, Json)>) -> Seq<(Seq<char>, JsonV)> {
    v.map_values(|p: (String, Json)| (p.0@, jview(p.1)))
}

/// A text field where the value is there.
pub open spec fn opt_field(key: Seq<char>, value: Option<Seq<char>>) -> Seq<(Seq<char>, JsonV)> {
    match value {
        Some(v) => seq![(key, JsonV::Str(v))],
        None => Seq::empty(),
    }
}

/// The `client` object of a request's context: the profile's name and version, the content
/// language (English for an anonymous request) and region, UTC, the device fields the profile
/// has, and `visitorData` unless the request is anonymous.
pub open spec fn client_fields(
    language: Seq<char>,
    region: Seq<char>,
    visitor: Option<Seq<char>>,
    c: ClientProfile,
    anonymous: bool,
) -> Seq<(Seq<char>, JsonV)> {
    seq![
        ("clientName"@, JsonV::Str(c.name@)),
        ("clientVersion"@, JsonV::Str(c.version@)),
        ("hl"@, JsonV::Str(if anonymous { "en"@ } else { language })),
        ("gl"@, JsonV::Str(region)),
        ("timeZone"@, JsonV::Str("UTC"@)),
        ("utcOffsetMinutes"@, JsonV::Number(Num::PosInt(0))),
    ] + opt_field("platform"@, opt_chars(c.platform)) + opt_field("deviceMake"@, opt_chars(c.device_make))
        + opt_field("deviceModel"@, opt_chars(c.device_model)) + opt_field("osName"@, opt_chars(c.os_name))
        + opt_field("osVersion"@, opt_chars(c.os_version)) + match c.android_sdk_version {
        Some(n) => seq![("androidSdkVersion"@, JsonV::Number(Num::PosInt(n as u64)))],
        None => Seq::empty(),
    } + if anonymous {
        Seq::empty()
    } else {
        opt_field("visitorData"@, visitor)
    }
}

/// A request's `context`: the client object and a user without safety mode.
pub open spec fn context_spec(
    language: Seq<char>,
    region: Seq<char>,
    visitor: Option<Seq<char>>,
    c: ClientProfile,
    anonymous: bool,
) -> JsonV {
    JsonV::Object(
        seq![
            ("client"@, JsonV::Object(client_fields(language, region, visitor, c, anonymous))),
            ("user"@, JsonV::Object(seq![("lockedSafetyMode"@, JsonV::Bool(false))])),
        ],
    )
}

/// A stored `visitorData`: an empty one is none.
pub open spec fn stored_visitor(value: Option<Seq<char>>) -> Option<Seq<char>> {
    match value {
        Some(v) => if v.len() == 0 { None } else { Some(v) },
        None => None,
    }
}

/// The class of a failed HTTP answer: none for a success (2xx); a block for 403 and 429; no
/// connection for a server error (5xx); anything else unknown.
pub open spec fn status_error_spec(status: u16) -> Option<ErrorKind> {
    if 200 <= status <= 299 {
        None
    } else if status == 403 || status == 429 {
        Some(ErrorKind::Blocked)
    } else if status >= 500 {
        Some(ErrorKind::Offline)
    } else {
        Some(ErrorKind::Unknown)
    }
}

/// The class of a failed HTTP answer, `None` where the answer is a success.
pub fn status_error(status: u16) -> (r: Option<ErrorKind>)
    ensures
        r == status_error_spec(status),
{
    if 200 <= status && status <= 299 {
        None
    } else if status == 403 || status == 429 {
        Some(ErrorKind::Blocked)
    } else if status >= 500 {
        Some(ErrorKind::Offline)
    } else {
        Some(ErrorKind::Unknown)
    }
}

fn push_text(out: &mut Vec<(String, Json)>, key: &str, value: &str)
    ensures
        pairs_view(final(out)@) == pairs_view(old(out)@).push((key@, JsonV::Str(value@))),
{
    out.push((text(key), Json::Str(text(value))));
    proof {
        assert(pairs_view(out@) =~= pairs_view(old(out)@).push((key@, JsonV::Str(value@))));
    }
}

fn push_opt(out: &mut Vec<(String, Json)>, key: &str, value: &Option<String>)
    ensures
        pairs_view(final(out)@) == pairs_view(old(out)@) + opt_field(key@, opt_chars(*value)),
{
    match value {
        Some(v) => {
            push_text(out, key, v.as_str());
            proof {
                assert(pairs_view(out@) =~= pairs_view(old(out)@) + opt_field(key@, opt_chars(*value)));
            }
        },
        None => {
            assert(pairs_view(out@) =~= pairs_view(old(out)@) + opt_field(key@, opt_chars(*value)));
        },
    }
}

fn object_of(pairs: Vec<(String, Json)>) -> (r: Json)
    ensures
        jview(r) == JsonV::Object(pairs_view(pairs@)),
{
    let r = Json::Object(pairs);
    proof {
        lemma_object(r);
        assert(jview(r)->Object_0 =~= pairs_view(pairs@));
    }
    r
}

/// Requests to `/youtubei/v1`: the content language and region, and the `visitorData` that the
/// first answer gave.
pub struct InnerTube {
    language: String,
    region: String,
    visitor: Option<String>,
}

impl InnerTube {
    pub closed spec fn language_spec(&self) -> Seq<char> {
        self.language@
    }

    pub closed spec fn region_spec(&self) -> Seq<char> {
        self.region@
    }

    /// The `visitorData` kept; never empty.
    pub closed spec fn visitor_spec(&self) -> Option<Seq<char>> {
        opt_chars(self.visitor)
    }

    pub fn new(language: &str, region: &str) -> (r: Self)
        ensures
            r.language_spec() == language@,
            r.region_spec() == region@,
            r.visitor_spec() is None,
    {
        InnerTube { language: text(language), region: text(region), visitor: None }
    }

    pub fn language(&self) -> (r: &str)
        ensures
            r@ == self.language_spec(),
    {
        self.language.as_str()
    }

    pub fn region(&self) -> (r: &str)
        ensures
            r@ == self.region_spec(),
    {
        self.region.as_str()
    }

    pub fn visitor_data(&self) -> (r: Option<String>)
        ensures
            opt_chars(r) == self.visitor_spec(),
    {
        match &self.visitor {
            Some(v) => Some(v.clone()),
            None => None,
        }
    }

    /// Keeps `visitorData`; an empty one is none.
    pub fn set_visitor_data(&mut self, value: Option<String>)
        ensures
            final(self).visitor_spec() == stored_visitor(opt_chars(value)),
            final(self).language_spec() == old(self).language_spec(),
            final(self).region_spec() == old(self).region_spec(),
    {
        self.visitor = match value {
            Some(v) => if chars_of(v.as_str()).len() == 0 { None } else { Some(v) },
            None => None,
        };
    }

    /// Learns `visitorData` from an answer (`responseContext.visitorData`) where none is kept yet
    /// and the request was not anonymous.
    pub fn remember_visitor(&mut self, answer: &Json, anonymous: bool)
        ensures
            final(self).visitor_spec() == if !anonymous && old(self).visitor_spec() is None {
                match as_str(member(member(Some(jview(*answer)), "responseContext"@), "visitorData"@)) {
                    Some(v) => stored_visitor(Some(v)),
                    None => None,
                }
            } else {
                old(self).visitor_spec()
            },
            final(self).language_spec() == old(self).language_spec(),
            final(self).region_spec() == old(self).region_spec(),
    {
        if !anonymous && self.visitor.is_none() {
            let found = string_at(at(at(Some(answer), "responseContext"), "visitorData"));
            if found.is_some() {
                self.set_visitor_data(found);
            }
        }
    }

    /// A request's `context`. `anonymous` is the diagnosis of a refusal: without our
    /// `visitorData`, so that YouTube finds the country anew, and in English, so that the reason
    /// can be held against YouTube's English phrases.
    pub fn context(&self, client: &ClientProfile, anonymous: bool) -> (r: Json)
        ensures
            jview(r) == context_spec(self.language_spec(), self.region_spec(), self.visitor_spec(), *client, anonymous),
    {
        let mut c: Vec<(String, Json)> = Vec::new();
        push_text(&mut c, "clientName", client.name.as_str());
        push_text(&mut c, "clientVersion", client.version.as_str());
        if anonymous {
            push_text(&mut c, "hl", "en");
        } else {
            push_text(&mut c, "hl", self.language.as_str());
        }
        push_text(&mut c, "gl", self.region.as_str());
        push_text(&mut c, "timeZone", "UTC");
        let ghost five = pairs_view(c@);
        c.push((text("utcOffsetMinutes"), Json::Number(Num::PosInt(0))));
        let ghost base = pairs_view(c@);
        assert(base =~= five.push(("utcOffsetMinutes"@, JsonV::Number(Num::PosInt(0)))));
        push_opt(&mut c, "platform", &client.platform);
        push_opt(&mut c, "deviceMake", &client.device_make);
        push_opt(&mut c, "deviceModel", &client.device_model);
        push_opt(&mut c, "osName", &client.os_name);
        push_opt(&mut c, "osVersion", &client.os_version);
        let ghost devices = pairs_view(c@);
        match client.android_sdk_version {
            Some(n) => {
                c.push((text("androidSdkVersion"), Json::Number(Num::PosInt(n as u64))));
                assert(pairs_view(c@) =~= devices.push(("androidSdkVersion"@, JsonV::Number(Num::PosInt(n as u64)))));
            },
            None => {},
        }
        let ghost sdk = pairs_view(c@);
        if !anonymous {
            push_opt(&mut c, "visitorData", &self.visitor);
        } else {
            assert(pairs_view(c@) =~= sdk + Seq::<(Seq<char>, JsonV)>::empty());
        }
        proof {
            reveal_strlit("en");
            let fields = client_fields(self.language_spec(), self.region_spec(), self.visitor_spec(), *client, anonymous);
            assert(base =~= seq![
                ("clientName"@, JsonV::Str(client.name@)),
                ("clientVersion"@, JsonV::Str(client.version@)),
                ("hl"@, JsonV::Str(if anonymous { "en"@ } else { self.language_spec() })),
                ("gl"@, JsonV::Str(self.region_spec())),
                ("timeZone"@, JsonV::Str("UTC"@)),
                ("utcOffsetMinutes"@, JsonV::Number(Num::PosInt(0))),
            ]);
            assert(sdk =~= devices + match client.android_sdk_version {
                Some(n) => seq![("androidSdkVersion"@, JsonV::Number(Num::PosInt(n as u64)))],
                None => Seq::<(Seq<char>, JsonV)>::empty(),
            });
            assert(pairs_view(c@) =~= fields);
        }
        let client_object = object_of(c);
        let ghost cv = jview(client_object);
        let mut user: Vec<(String, Json)> = Vec::new();
        user.push((text("lockedSafetyMode"), Json::Bool(false)));
        assert(pairs_view(user@) =~= seq![("lockedSafetyMode"@, JsonV::Bool(false))]);
        let user_object = object_of(user);
        let ghost uv = jview(user_object);
        let mut top: Vec<(String, Json)> = Vec::new();
        top.push((text("client"), client_object));
        top.push((text("user"), user_object));
        assert(pairs_view(top@) =~= seq![("client"@, cv), ("user"@, uv)]);
        object_of(top)
    }
}


/// The text without the slashes at its end.
pub open spec fn trim_slashes(s: Seq<char>) -> Seq<char>
    decreases s.len(),
{
    if s.len() > 0 && s.last() == '/' {
        trim_slashes(s.drop_last())
    } else {
        s
    }
}

fn trimmed_slashes(s: &str) -> (r: String)
    ensures
        r@ == trim_slashes(s@),
{
    let v = chars_of(s);
    let mut end: usize = v.len();
    assert(v@.subrange(0, end as int) =~= v@);
    while end > 0 && v[end - 1] == '/'
        invariant
            end <= v@.len(),
            trim_slashes(v@) == trim_slashes(v@.subrange(0, end as int)),
        decreases end,
    {
        assert(v@.subrange(0, end as int).drop_last() =~= v@.subrange(0, end - 1));
        end = end - 1;
    }
    assert(v@.subrange(0, end as int) == trim_slashes(v@.subrange(0, end as int)));
    string_of(&slice_chars(&v, 0, end))
}

/// A header where the value is there.
pub open spec fn opt_header(name: Seq<char>, value: Option<Seq<char>>) -> Seq<(Seq<char>, Seq<char>)> {
    match value {
        Some(v) => seq![(name, v)],
        None => Seq::empty(),
    }
}

/// The headers of a request: the profile's User-Agent, name (its number) and version, the
/// content language (English for an anonymous request), JSON, the profile's Referer with its
/// Origin (the Referer without its closing slashes), and `visitorData` unless the request is
/// anonymous.
pub open spec fn headers_spec(
    language: Seq<char>,
    visitor: Option<Seq<char>>,
    c: ClientProfile,
    anonymous: bool,
) -> Seq<(Seq<char>, Seq<char>)> {
    seq![
        ("User-Agent"@, c.user_agent@),
        ("X-YouTube-Client-Name"@, dec(c.id as nat)),
        ("X-YouTube-Client-Version"@, c.version@),
        ("Accept-Language"@, if anonymous { "en"@ } else { language }),
        ("Content-Type"@, "application/json"@),
    ] + match c.referer {
        Some(r) => seq![("Referer"@, r@), ("Origin"@, trim_slashes(r@))],
        None => Seq::empty(),
    } + if anonymous {
        Seq::empty()
    } else {
        opt_header("X-Goog-Visitor-Id"@, visitor)
    }
}

/// The address of an endpoint: on `host` where one is given, else on the profile's host.
pub open spec fn url_spec(c: ClientProfile, endpoint: Seq<char>, host: Option<Seq<char>>) -> Seq<char> {
    "https://"@ + match host {
        Some(h) => h,
        None => c.host@,
    } + "/youtubei/v1/"@ + endpoint + "?prettyPrint=false"@
}

/// Header pairs as plain values.
pub open spec fn header_view(v: Seq<(String, String)>) -> Seq<(Seq<char>, Seq<char>)> {
    v.map_values(|p: (String, String)| (p.0@, p.1@))
}

fn push_header(out: &mut Vec<(String, String)>, name: &str, value: &str)
    ensures
        header_view(final(out)@) == header_view(old(out)@).push((name@, value@)),
{
    out.push((text(name), text(value)));
    assert(header_view(out@) =~= header_view(old(out)@).push((name@, value@)));
}

/// The address of an endpoint of `/youtubei/v1`.
pub fn request_url(client: &ClientProfile, endpoint: &str, host: Option<&str>) -> (r: String)
    ensures
        r@ == url_spec(*client, endpoint@, match host {
            Some(h) => Some(h@),
            None => None,
        }),
{
    let mut v = lit("https://");
    match host {
        Some(h) => extend_str_into(&mut v, h),
        None => extend_str_into(&mut v, client.host.as_str()),
    }
    extend_str_into(&mut v, "/youtubei/v1/");
    extend_str_into(&mut v, endpoint);
    extend_str_into(&mut v, "?prettyPrint=false");
    proof {
        reveal_strlit("https://");
    }
    string_of(&v)
}

fn extend_str_into(v: &mut Vec<char>, s: &str)
    ensures
        final(v)@ == old(v)@ + s@,
{
    let w = chars_of(s);
    extend_chars(v, &w);
}

impl InnerTube {
    /// The headers of a request with this profile.
    pub fn request_headers(&self, client: &ClientProfile, anonymous: bool) -> (r: Vec<(String, String)>)
        ensures
            header_view(r@) == headers_spec(self.language_spec(), self.visitor_spec(), *client, anonymous),
    {
        let mut h: Vec<(String, String)> = Vec::new();
        push_header(&mut h, "User-Agent", client.user_agent.as_str());
        let mut id: Vec<char> = Vec::new();
        push_decimal(&mut id, client.id as u64);
        assert(id@ =~= dec(client.id as nat));
        let ghost one = header_view(h@);
        h.push((text("X-YouTube-Client-Name"), string_of(&id)));
        assert(header_view(h@) =~= one.push(("X-YouTube-Client-Name"@, dec(client.id as nat))));
        push_header(&mut h, "X-YouTube-Client-Version", client.version.as_str());
        if anonymous {
            push_header(&mut h, "Accept-Language", "en");
        } else {
            push_header(&mut h, "Accept-Language", self.language.as_str());
        }
        push_header(&mut h, "Content-Type", "application/json");
        let ghost base = header_view(h@);
        match &client.referer {
            Some(r) => {
                push_header(&mut h, "Referer", r.as_str());
                let origin = trimmed_slashes(r.as_str());
                push_header(&mut h, "Origin", origin.as_str());
            },
            None => {},
        }
        let ghost with_referer = header_view(h@);
        if !anonymous {
            match &self.visitor {
                Some(v) => push_header(&mut h, "X-Goog-Visitor-Id", v.as_str()),
                None => {},
            }
        }
        proof {
            reveal_strlit("en");
            assert(base =~= seq![
                ("User-Agent"@, client.user_agent@),
                ("X-YouTube-Client-Name"@, dec(client.id as nat)),
                ("X-YouTube-Client-Version"@, client.version@),
                ("Accept-Language"@, if anonymous { "en"@ } else { self.language_spec() }),
                ("Content-Type"@, "application/json"@),
            ]);
            assert(with_referer =~= base + match client.referer {
                Some(r) => seq![("Referer"@, r@), ("Origin"@, trim_slashes(r@))],
                None => Seq::<(Seq<char>, Seq<char>)>::empty(),
            });
            assert(header_view(h@) =~= headers_spec(self.language_spec(), self.visitor_spec(), *client, anonymous));
        }
        h
    }
}


proof fn lemma_lookup_concat(ps: Seq<(Seq<char>, JsonV)>, qs: Seq<(Seq<char>, JsonV)>, k: Seq<char>)
    ensures
        lookup(ps + qs, k) == match lookup(ps, k) {
            Some(v) => Some(v),
            None => lookup(qs, k),
        },
    decreases ps.len(),
{
    if ps.len() > 0 {
        assert((ps + qs)[0] == ps[0]);
        assert((ps + qs).drop_first() =~= ps.drop_first() + qs);
        lemma_lookup_concat(ps.drop_first(), qs, k);
    } else {
        assert(ps + qs =~= qs);
    }
}

proof fn lemma_lookup_absent(ps: Seq<(Seq<char>, JsonV)>, k: Seq<char>)
    requires
        forall|i: int| 0 <= i < ps.len() ==> (#[trigger] ps[i]).0 != k,
    ensures
        lookup(ps, k) is None,
    decreases ps.len(),
{
    if ps.len() > 0 {
        assert forall|i: int| 0 <= i < ps.drop_first().len() implies (#[trigger] ps.drop_first()[i]).0 != k by {
            assert(ps.drop_first()[i] == ps[i + 1]);
        }
        lemma_lookup_absent(ps.drop_first(), k);
    }
}

/// The fields of a context up to `visitorData`.
spec fn fields_before_visitor(language: Seq<char>, region: Seq<char>, c: ClientProfile, anonymous: bool) -> Seq<(Seq<char>, JsonV)> {
    seq![
        ("clientName"@, JsonV::Str(c.name@)),
        ("clientVersion"@, JsonV::Str(c.version@)),
        ("hl"@, JsonV::Str(if anonymous { "en"@ } else { language })),
        ("gl"@, JsonV::Str(region)),
        ("timeZone"@, JsonV::Str("UTC"@)),
        ("utcOffsetMinutes"@, JsonV::Number(Num::PosInt(0))),
    ] + opt_field("platform"@, opt_chars(c.platform)) + opt_field("deviceMake"@, opt_chars(c.device_make))
        + opt_field("deviceModel"@, opt_chars(c.device_model)) + opt_field("osName"@, opt_chars(c.os_name))
        + opt_field("osVersion"@, opt_chars(c.os_version)) + match c.android_sdk_version {
        Some(n) => seq![("androidSdkVersion"@, JsonV::Number(Num::PosInt(n as u64)))],
        None => Seq::empty(),
    }
}

proof fn lemma_before_has_no_visitor(language: Seq<char>, region: Seq<char>, c: ClientProfile, anonymous: bool)
    ensures
        forall|i: int|
            0 <= i < fields_before_visitor(language, region, c, anonymous).len()
                ==> (#[trigger] fields_before_visitor(language, region, c, anonymous)[i]).0 != "visitorData"@,
{
    reveal_strlit("visitorData");
    reveal_strlit("clientName");
    reveal_strlit("clientVersion");
    reveal_strlit("hl");
    reveal_strlit("gl");
    reveal_strlit("timeZone");
    reveal_strlit("utcOffsetMinutes");
    reveal_strlit("platform");
    reveal_strlit("deviceMake");
    reveal_strlit("deviceModel");
    reveal_strlit("osName");
    reveal_strlit("osVersion");
    reveal_strlit("androidSdkVersion");
    let before = fields_before_visitor(language, region, c, anonymous);
    assert forall|i: int| 0 <= i < before.len() implies (#[trigger] before[i]).0 != "visitorData"@ by {
        assert("visitorData"@[0] == 'v');
        assert("clientName"@[0] == 'c');
        assert("clientVersion"@[0] == 'c');
        assert("hl"@[0] == 'h');
        assert("gl"@[0] == 'g');
        assert("timeZone"@[0] == 't');
        assert("utcOffsetMinutes"@[0] == 'u');
        assert("platform"@[0] == 'p');
        assert("deviceMake"@[0] == 'd');
        assert("deviceModel"@[0] == 'd');
        assert("osName"@[0] == 'o');
        assert("osVersion"@[0] == 'o');
        assert("androidSdkVersion"@[0] == 'a');
        assert(before[i].0[0] != 'v');
    }
}

/// A request's context carries `visitorData` unless the request is anonymous, and speaks the
/// content language, or English when it is anonymous.
pub proof fn law_context_carries_visitor_unless_anonymous(
    language: Seq<char>,
    region: Seq<char>,
    visitor: Option<Seq<char>>,
    c: ClientProfile,
)
    ensures
        member(member(Some(context_spec(language, region, visitor, c, true)), "client"@), "visitorData"@) is None,
        member(member(Some(context_spec(language, region, visitor, c, false)), "client"@), "visitorData"@) == match visitor {
            Some(v) => Some(JsonV::Str(v)),
            None => None,
        },
        member(member(Some(context_spec(language, region, visitor, c, true)), "client"@), "hl"@) == Some(JsonV::Str("en"@)),
        member(member(Some(context_spec(language, region, visitor, c, false)), "client"@), "hl"@) == Some(JsonV::Str(language)),
{
    reveal_strlit("client");
    reveal_strlit("user");
    reveal_strlit("visitorData");
    reveal_strlit("hl");
    reveal_strlit("clientName");
    reveal_strlit("clientVersion");
    reveal_strlit("gl");
    reveal_strlit("timeZone");
    reveal_strlit("utcOffsetMinutes");
    reveal_strlit("platform");
    reveal_strlit("deviceMake");
    reveal_strlit("deviceModel");
    reveal_strlit("osName");
    reveal_strlit("osVersion");
    reveal_strlit("androidSdkVersion");
    reveal_with_fuel(lookup, 4);
    let vd = "visitorData"@;
    assert(vd[0] == 'v');
    assert("hl"@[0] == 'h' && "hl"@.len() == 2);
    assert("clientName"@[0] == 'c');
    assert("clientVersion"@[0] == 'c');
    assert("client"@[0] == 'c');
    assert("user"@[0] == 'u');
    assert("client"@ != "user"@);
    assert("client"@ != "hl"@);
    assert("clientName"@ != "hl"@);
    assert("clientVersion"@ != "hl"@);
    lemma_before_has_no_visitor(language, region, c, true);
    lemma_before_has_no_visitor(language, region, c, false);
    let before_t = fields_before_visitor(language, region, c, true);
    let before_f = fields_before_visitor(language, region, c, false);
    lemma_lookup_absent(before_t, vd);
    lemma_lookup_absent(before_f, vd);
    assert(client_fields(language, region, visitor, c, true) =~= before_t + Seq::<(Seq<char>, JsonV)>::empty());
    assert(client_fields(language, region, visitor, c, false) =~= before_f + opt_field(vd, visitor));
    lemma_lookup_concat(before_t, Seq::<(Seq<char>, JsonV)>::empty(), vd);
    lemma_lookup_concat(before_f, opt_field(vd, visitor), vd);
    match visitor {
        Some(v) => {
            assert(opt_field(vd, visitor).drop_first() =~= Seq::<(Seq<char>, JsonV)>::empty());
        },
        None => {},
    }
    let fields_t = client_fields(language, region, visitor, c, true);
    let fields_f = client_fields(language, region, visitor, c, false);
    assert(fields_t[0].0 == "clientName"@ && fields_t[1].0 == "clientVersion"@ && fields_t[2] == ("hl"@, JsonV::Str("en"@)));
    assert(fields_f[0].0 == "clientName"@ && fields_f[1].0 == "clientVersion"@ && fields_f[2] == ("hl"@, JsonV::Str(language)));
    assert(fields_t.drop_first().drop_first()[0] == fields_t[2]);
    assert(fields_f.drop_first().drop_first()[0] == fields_f[2]);
}

} // verus!
