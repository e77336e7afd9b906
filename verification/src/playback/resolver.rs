//! The stream of a track: its errors, how often to retry them, what YouTube's words mean, and
//! when an address expires.
use vstd::prelude::*;
use crate::chars::{
    chars_eq, chars_of, contains_sub, dec, extend_chars, extend_str, find_chars, is_prefix, lit, lowercase, parse_i64,
    parse_i64_chars, push_decimal, starts_with, string_of, to_lowercase,
};
use crate::innertube::player::Playability;
use crate::links::{opt_parts_view, parse_url, parts_view, query_value, url_parts_of, UrlParts};

verus! {

/// The class of a failure to get a stream: it decides the retries and the card's text.
#[derive(Clone, Copy, Debug, PartialEq, Eq, Structural)]
pub enum StreamErrorKind {
    Network,
    Timeout,
    BotCheck,
    Geo,
    Unavailable,
    Age,
    Extractor,
}

#[derive(Debug, PartialEq)]
pub struct StreamError {
    pub kind: StreamErrorKind,
    pub message: String,
    /// Closed in a country: where YouTube sees the device (`RU`); `None`: it did not say.
    pub country: Option<String>,
    /// In how many countries the rights holder opened the track; `None`: unknown.
    pub open_countries: Option<usize>,
}

/// The retries for a class: network 2; timeout, bot check and the extractor 1; the rest 0.
pub open spec fn retries_of(kind: StreamErrorKind) -> u32 {
    match kind {
        StreamErrorKind::Network => 2,
        StreamErrorKind::Timeout | StreamErrorKind::BotCheck | StreamErrorKind::Extractor => 1,
        _ => 0,
    }
}

/// The reason lies in the video itself.
pub open spec fn is_final_kind(kind: StreamErrorKind) -> bool {
    kind == StreamErrorKind::Geo || kind == StreamErrorKind::Unavailable || kind == StreamErrorKind::Age
}

impl StreamError {
    pub fn new(kind: StreamErrorKind, message: &str) -> (r: Self)
        ensures
            r.kind == kind,
            r.message@ == message@,
            r.country is None,
            r.open_countries is None,
    {
        StreamError { kind, message: string_of(&chars_of(message)), country: None, open_countries: None }
    }

    /// How often to retry before skipping the track.
    pub fn retries(&self) -> (r: u32)
        ensures
            r == retries_of(self.kind),
    {
        match self.kind {
            StreamErrorKind::Network => 2,
            StreamErrorKind::Timeout | StreamErrorKind::BotCheck | StreamErrorKind::Extractor => 1,
            _ => 0,
        }
    }

    /// Skipped without retries: the reason lies in the video itself.
    pub fn is_final(&self) -> (r: bool)
        ensures
            r == is_final_kind(self.kind),
    {
        match self.kind {
            StreamErrorKind::Geo | StreamErrorKind::Unavailable | StreamErrorKind::Age => true,
            _ => false,
        }
    }
}

/// A final error is never retried, and a retried one is never final.
pub proof fn law_final_errors_are_not_retried(kind: StreamErrorKind)
    ensures
        is_final_kind(kind) <==> retries_of(kind) == 0,
{
}

/// `p` occurs in `t`.
pub open spec fn has(t: Seq<char>, p: Seq<char>) -> bool {
    contains_sub(t, p)
}

/// The class of an error by YouTube's own text, already lowercased.
pub open spec fn class_of(t: Seq<char>) -> StreamErrorKind {
    if has(t, "not a bot"@) || has(t, "confirm you’re not"@) || has(t, "confirm you're not"@) || has(t, "sign in to confirm"@) {
        StreamErrorKind::BotCheck
    } else if has(t, "country"@) || has(t, "region"@) || has(t, "стране"@) || has(t, "регион"@) {
        StreamErrorKind::Geo
    } else if (has(t, "age"@) && (has(t, "confirm"@) || has(t, "restricted"@))) || has(t, "возраст"@) {
        StreamErrorKind::Age
    } else if has(t, "unavailable"@) || has(t, "removed"@) || has(t, "private"@) || has(t, "недоступно"@) || is_prefix("error"@, t)
        || is_prefix("unplayable"@, t) {
        StreamErrorKind::Unavailable
    } else if has(t, "login_required"@) || has(t, "sign in"@) {
        StreamErrorKind::BotCheck
    } else {
        StreamErrorKind::Extractor
    }
}

fn has_text(t: &Vec<char>, p: &str) -> (r: bool)
    ensures
        r == has(t@, p@),
{
    find_chars(t, &lit(p)).is_some()
}

/// The class of an error by YouTube's text, already lowercased.
pub fn classify_lowercase(text: &str) -> (r: StreamErrorKind)
    ensures
        r == class_of(text@),
{
    let t = chars_of(text);
    if has_text(&t, "not a bot") || has_text(&t, "confirm you’re not") || has_text(&t, "confirm you're not")
        || has_text(&t, "sign in to confirm") {
        StreamErrorKind::BotCheck
    } else if has_text(&t, "country") || has_text(&t, "region") || has_text(&t, "стране") || has_text(&t, "регион") {
        StreamErrorKind::Geo
    } else if (has_text(&t, "age") && (has_text(&t, "confirm") || has_text(&t, "restricted"))) || has_text(&t, "возраст") {
        StreamErrorKind::Age
    } else if has_text(&t, "unavailable") || has_text(&t, "removed") || has_text(&t, "private") || has_text(&t, "недоступно")
        || starts_with(&t, &lit("error")) || starts_with(&t, &lit("unplayable")) {
        StreamErrorKind::Unavailable
    } else if has_text(&t, "login_required") || has_text(&t, "sign in") {
        StreamErrorKind::BotCheck
    } else {
        StreamErrorKind::Extractor
    }
}

/// The class of an error by YouTube's text.
pub fn classify(message: &str) -> (r: StreamErrorKind)
    ensures
        r == class_of(lowercase(message@)),
{
    let lower = to_lowercase(message);
    classify_lowercase(lower.as_str())
}

/// One of the phrases occurs in either text.
pub open spec fn says(phrases: Seq<Seq<char>>, a: Seq<char>, b: Seq<char>) -> bool {
    exists|i: int| 0 <= i < phrases.len() && (has(a, #[trigger] phrases[i]) || has(b, phrases[i]))
}

pub open spec fn geo_phrases() -> Seq<Seq<char>> {
    seq!["available in your country"@, "not made this video available in your country"@, "blocked it in your country"@]
}

pub open spec fn age_phrases() -> Seq<Seq<char>> {
    seq!["confirm your age"@, "age-restricted"@, "inappropriate for some users"@]
}

pub open spec fn gone_phrases() -> Seq<Seq<char>> {
    seq![
        "private video"@,
        "has been removed"@,
        "account associated with this video has been terminated"@,
        "no longer available"@,
    ]
}

fn says_any(phrases: &Vec<&'static str>, a: &Vec<char>, b: &Vec<char>) -> (r: bool)
    ensures
        r == says(phrases@.map_values(|p: &'static str| p@), a@, b@),
{
    let ghost ps = phrases@.map_values(|p: &'static str| p@);
    let mut i: usize = 0;
    while i < phrases.len()
        invariant
            i <= phrases@.len(),
            ps == phrases@.map_values(|p: &'static str| p@),
            forall|k: int| 0 <= k < i ==> !(has(a@, #[trigger] ps[k]) || has(b@, ps[k])),
        decreases phrases.len() - i,
    {
        if has_text(a, phrases[i]) || has_text(b, phrases[i]) {
            assert(has(a@, ps[i as int]) || has(b@, ps[i as int]));
            return true;
        }
        i = i + 1;
    }
    false
}

/// A diagnosis as plain values: class, message, country and the count of open countries.
pub open spec fn error_view(e: StreamError) -> (StreamErrorKind, Seq<char>, Option<Seq<char>>, Option<usize>) {
    (e.kind, e.message@, match e.country {
        Some(c) => Some(c@),
        None => None,
    }, e.open_countries)
}

/// The diagnosis, by order: the device's country outside the list of open ones is "closed in the
/// country" (with the country and the count); phrases about the country likewise; about age,
/// age; about removal, removed. `None`: nothing to add, the old error stays. The texts compared
/// are lowercased: `reason_lower` the answer's reason, `message_lower` the failure's message.
pub open spec fn diagnosis(
    p: Option<&Playability>,
    failure_message: Seq<char>,
    reason_lower: Seq<char>,
    message_lower: Seq<char>,
) -> Option<(StreamErrorKind, Seq<char>, Option<Seq<char>>, Option<usize>)> {
    let reason: Seq<char> = match p {
        Some(pl) => match pl.reason {
            Some(r) => r@,
            None => Seq::empty(),
        },
        None => Seq::empty(),
    };
    let explained = if reason.len() == 0 { failure_message } else { reason };
    let open: Option<usize> = match p {
        Some(pl) => if pl.available_countries@.len() > 0 { Some(pl.available_countries@.len() as usize) } else { None },
        None => None,
    };
    let country: Option<Seq<char>> = match p {
        Some(pl) => match pl.country {
            Some(c) => Some(c@),
            None => None,
        },
        None => None,
    };
    if p matches Some(pl) && pl.blocked_here() {
        Some((
            StreamErrorKind::Geo,
            "Closed in "@ + match country {
                Some(c) => c,
                None => "?"@,
            } + ", open in "@ + dec(match open {
                Some(n) => n as nat,
                None => 0,
            }) + " countries"@,
            country,
            open,
        ))
    } else if says(geo_phrases(), message_lower, reason_lower) {
        Some((StreamErrorKind::Geo, "Closed in the country: "@ + explained, country, open))
    } else if says(age_phrases(), message_lower, reason_lower) {
        Some((StreamErrorKind::Age, "Age check: "@ + explained, None, None))
    } else if says(gone_phrases(), message_lower, reason_lower) {
        Some((StreamErrorKind::Unavailable, "Removed or private: "@ + explained, None, None))
    } else {
        None
    }
}

fn clone_text(s: &String) -> (r: String)
    ensures
        r@ == s@,
{
    string_of(&chars_of(s.as_str()))
}

/// The diagnosis, with the texts to compare already lowercased.
pub fn diagnose_lowercase(playability: Option<&Playability>, failure: &StreamError, reason_lower: &str, message_lower: &str)
    -> (r: Option<StreamError>)
    ensures
        match diagnosis(playability, failure.message@, reason_lower@, message_lower@) {
            Some(d) => r matches Some(e) && error_view(e) == d,
            None => r is None,
        },
{
    let reason: Vec<char> = match playability {
        Some(p) => match &p.reason {
            Some(r) => chars_of(r.as_str()),
            None => Vec::new(),
        },
        None => Vec::new(),
    };
    let explained: Vec<char> = if reason.len() == 0 { chars_of(failure.message.as_str()) } else { reason };
    let open: Option<usize> = match playability {
        Some(p) => if p.available_countries.len() > 0 { Some(p.available_countries.len()) } else { None },
        None => None,
    };
    let country: Option<String> = match playability {
        Some(p) => match &p.country {
            Some(c) => Some(clone_text(c)),
            None => None,
        },
        None => None,
    };
    let blocked = match playability {
        Some(p) => p.is_blocked_here(),
        None => false,
    };
    if blocked {
        let mut m = lit("Closed in ");
        match &country {
            Some(c) => extend_str(&mut m, c.as_str()),
            None => extend_str(&mut m, "?"),
        }
        extend_str(&mut m, ", open in ");
        match open {
            Some(n) => push_decimal(&mut m, n as u64),
            None => push_decimal(&mut m, 0),
        }
        extend_str(&mut m, " countries");
        return Some(StreamError { kind: StreamErrorKind::Geo, message: string_of(&m), country, open_countries: open });
    }
    let a = chars_of(message_lower);
    let b = chars_of(reason_lower);
    let geo: Vec<&'static str> = vec!["available in your country", "not made this video available in your country", "blocked it in your country"];
    let age: Vec<&'static str> = vec!["confirm your age", "age-restricted", "inappropriate for some users"];
    let gone: Vec<&'static str> = vec![
        "private video",
        "has been removed",
        "account associated with this video has been terminated",
        "no longer available",
    ];
    assert(geo@.map_values(|p: &'static str| p@) =~= geo_phrases());
    assert(age@.map_values(|p: &'static str| p@) =~= age_phrases());
    assert(gone@.map_values(|p: &'static str| p@) =~= gone_phrases());
    if says_any(&geo, &a, &b) {
        let mut m = lit("Closed in the country: ");
        extend_chars(&mut m, &explained);
        return Some(StreamError { kind: StreamErrorKind::Geo, message: string_of(&m), country, open_countries: open });
    }
    if says_any(&age, &a, &b) {
        let mut m = lit("Age check: ");
        extend_chars(&mut m, &explained);
        return Some(StreamError { kind: StreamErrorKind::Age, message: string_of(&m), country: None, open_countries: None });
    }
    if says_any(&gone, &a, &b) {
        let mut m = lit("Removed or private: ");
        extend_chars(&mut m, &explained);
        return Some(StreamError { kind: StreamErrorKind::Unavailable, message: string_of(&m), country: None, open_countries: None });
    }
    None
}

/// The diagnosis of a failure by YouTube's answer to the WEB client (see `diagnosis`).
pub fn diagnose(playability: Option<&Playability>, failure: &StreamError) -> (r: Option<StreamError>)
    ensures
        match diagnosis(
            playability,
            failure.message@,
            lowercase(match playability {
                Some(p) => match p.reason {
                    Some(r) => r@,
                    None => Seq::<char>::empty(),
                },
                None => Seq::<char>::empty(),
            }),
            lowercase(failure.message@),
        ) {
            Some(d) => r matches Some(e) && error_view(e) == d,
            None => r is None,
        },
{
    let reason: String = match playability {
        Some(p) => match &p.reason {
            Some(r) => clone_text(r),
            None => string_of(&Vec::new()),
        },
        None => string_of(&Vec::new()),
    };
    let reason_lower = to_lowercase(reason.as_str());
    let message_lower = to_lowercase(failure.message.as_str());
    diagnose_lowercase(playability, failure, reason_lower.as_str(), message_lower.as_str())
}

/// The `expire` parameter of an address's query, read as a number.
pub open spec fn expire_of(parts: Option<(Option<Seq<char>>, Seq<(Seq<char>, Seq<char>)>)>) -> Option<i64> {
    match parts {
        Some((_, q)) => match query_value(q, "expire"@) {
            Some(v) => parse_i64(v),
            None => None,
        },
        None => None,
    }
}

/// The expiry of an address: `expire` minus 5 minutes, but at least a minute from now; without
/// the parameter, 5 hours from now.
pub open spec fn expiry(expire: Option<i64>, now: i64) -> int {
    match expire {
        Some(seconds) => {
            let at = seconds * 1000 - 5 * 60_000;
            if at >= now + 60_000 { at } else { now + 60_000 }
        },
        None => now + 5 * 3_600_000,
    }
}

/// Whether the expiry of `expire` leaves `i64`.
pub open spec fn expiry_overflows(expire: Option<i64>, now: i64) -> bool {
    match expire {
        Some(seconds) => !(i64::MIN <= seconds * 1000 <= i64::MAX) || !(i64::MIN <= seconds * 1000 - 5 * 60_000),
        None => false,
    }
}

/// The `expire` parameter of parsed parts.
fn expire_param(parts: &Option<UrlParts>) -> (r: Option<i64>)
    ensures
        r == expire_of(opt_parts_view(*parts)),
{
    match parts {
        Some(p) => {
            let mut i: usize = 0;
            let ghost q = parts_view(*p).1;
            assert(q.skip(0) =~= q);
            let key = lit("expire");
            while i < p.query.len()
                invariant
                    i <= p.query@.len(),
                    q == p.query@.map_values(|kv: (String, String)| (kv.0@, kv.1@)),
                    query_value(q, "expire"@) == query_value(q.skip(i as int), "expire"@),
                    key@ == "expire"@,
                    expire_of(opt_parts_view(*parts)) == match query_value(q, "expire"@) {
                        Some(v) => parse_i64(v),
                        None => None,
                    },
                decreases p.query.len() - i,
            {
                assert(q.skip(i as int)[0] == q[i as int]);
                assert(q.skip(i as int).drop_first() =~= q.skip(i + 1));
                if chars_eq(&chars_of(p.query[i].0.as_str()), &key) {
                    assert(q[i as int].1 == p.query@[i as int].1@);
                    return parse_i64_chars(&chars_of(p.query[i].1.as_str()));
                }
                i = i + 1;
            }
            None
        },
        None => None,
    }
}

/// The expiry from a parsed address.
pub fn expiry_from_parts(parts: Option<UrlParts>, now: i64) -> (r: i64)
    requires
        now <= i64::MAX - 5 * 3_600_000,
        !expiry_overflows(expire_of(opt_parts_view(parts)), now),
    ensures
        r == expiry(expire_of(opt_parts_view(parts)), now),
{
    match expire_param(&parts) {
        Some(seconds) => {
            let at = seconds * 1000 - 5 * 60_000;
            if at >= now + 60_000 { at } else { now + 60_000 }
        },
        None => now + 5 * 3_600_000,
    }
}

/// `expire` from the address minus 5 minutes; without it, in 5 hours.
pub fn expires_at(url: &str, now: i64) -> (r: i64)
    requires
        now <= i64::MAX - 5 * 3_600_000,
        !expiry_overflows(expire_of(url_parts_of(url@)), now),
    ensures
        r == expiry(expire_of(url_parts_of(url@)), now),
{
    expiry_from_parts(parse_url(url), now)
}

/// `expires_at` where its value fits in `i64`; `None` where the address's `expire` is too large.
pub fn expires_at_checked(url: &str, now: i64) -> (r: Option<i64>)
    requires
        now <= i64::MAX - 5 * 3_600_000,
    ensures
        match r {
            Some(v) => !expiry_overflows(expire_of(url_parts_of(url@)), now) && v == expiry(expire_of(url_parts_of(url@)), now),
            None => expiry_overflows(expire_of(url_parts_of(url@)), now),
        },
{
    let parts = parse_url(url);
    match expire_param(&parts) {
        Some(seconds) => {
            if seconds > i64::MAX / 1000 || seconds < (i64::MIN + 5 * 60_000) / 1000 {
                return None;
            }
        },
        None => {},
    }
    Some(expires_at(url, now))
}


/// How a lowercased error text is classed, by the words in it, each rule over the ones before:
/// a bot check ("not a bot", "confirm you're not", "sign in to confirm"); a country or region
/// block; an age check; a track that is gone ("unavailable", "removed", "private", "недоступно",
/// or a text that starts with "error" or "unplayable"); a sign-in asked for; else the extractor.
pub proof fn law_error_classes(t: Seq<char>)
    ensures
        (contains_sub(t, "not a bot"@) || contains_sub(t, "confirm you’re not"@) || contains_sub(t, "confirm you're not"@)
            || contains_sub(t, "sign in to confirm"@)) ==> class_of(t) == StreamErrorKind::BotCheck,
        !(contains_sub(t, "not a bot"@) || contains_sub(t, "confirm you’re not"@) || contains_sub(t, "confirm you're not"@)
            || contains_sub(t, "sign in to confirm"@)) ==> {
            &&& (contains_sub(t, "country"@) || contains_sub(t, "region"@) || contains_sub(t, "стране"@) || contains_sub(
                t,
                "регион"@,
            )) ==> class_of(t) == StreamErrorKind::Geo
            &&& !(contains_sub(t, "country"@) || contains_sub(t, "region"@) || contains_sub(t, "стране"@) || contains_sub(
                t,
                "регион"@,
            )) ==> {
                &&& ((contains_sub(t, "age"@) && (contains_sub(t, "confirm"@) || contains_sub(t, "restricted"@)))
                    || contains_sub(t, "возраст"@)) ==> class_of(t) == StreamErrorKind::Age
                &&& !((contains_sub(t, "age"@) && (contains_sub(t, "confirm"@) || contains_sub(t, "restricted"@)))
                    || contains_sub(t, "возраст"@)) ==> {
                    &&& contains_sub(t, "unavailable"@) ==> class_of(t) == StreamErrorKind::Unavailable
                    &&& contains_sub(t, "removed"@) ==> class_of(t) == StreamErrorKind::Unavailable
                    &&& contains_sub(t, "private"@) ==> class_of(t) == StreamErrorKind::Unavailable
                    &&& contains_sub(t, "недоступно"@) ==> class_of(t) == StreamErrorKind::Unavailable
                    &&& is_prefix("error"@, t) ==> class_of(t) == StreamErrorKind::Unavailable
                    &&& is_prefix("unplayable"@, t) ==> class_of(t) == StreamErrorKind::Unavailable
                    &&& !(contains_sub(t, "unavailable"@) || contains_sub(t, "removed"@) || contains_sub(t, "private"@)
                        || contains_sub(t, "недоступно"@) || is_prefix("error"@, t) || is_prefix("unplayable"@, t)) ==> {
                        &&& (contains_sub(t, "login_required"@) || contains_sub(t, "sign in"@)) ==> class_of(t)
                            == StreamErrorKind::BotCheck
                        &&& !(contains_sub(t, "login_required"@) || contains_sub(t, "sign in"@)) ==> class_of(t)
                            == StreamErrorKind::Extractor
                    }
                }
            }
        },
{
}

/// A private video is gone: a lowercased text that says "private", and none of the bot-check,
/// country or region, or age words, is classed `Unavailable` (skipped at once, not retried).
pub proof fn law_private_is_unavailable(t: Seq<char>)
    requires
        contains_sub(t, "private"@),
        !contains_sub(t, "not a bot"@),
        !contains_sub(t, "confirm you’re not"@),
        !contains_sub(t, "confirm you're not"@),
        !contains_sub(t, "sign in to confirm"@),
        !contains_sub(t, "country"@),
        !contains_sub(t, "region"@),
        !contains_sub(t, "стране"@),
        !contains_sub(t, "регион"@),
        !contains_sub(t, "возраст"@),
        !(contains_sub(t, "age"@) && (contains_sub(t, "confirm"@) || contains_sub(t, "restricted"@))),
    ensures
        class_of(t) == StreamErrorKind::Unavailable,
        is_final_kind(class_of(t)),
{
    law_error_classes(t);
}

} // verus!
