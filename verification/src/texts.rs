//! The texts of playback errors: short beside "Retry", a notice in "Skipped", and in full on the
//! error card, with the country where YouTube sees the device and in how many the track is open.
use vstd::prelude::*;
use crate::countries::{entry_from, name, table};
use crate::localization::{fill, lookup_spec, plural, plural_text, tr, trf, Lang};
use crate::playback::engine::PlayerError;
use crate::playback::resolver::StreamErrorKind;

verus! {

/// The string key of an error class.
pub open spec fn kind_key(kind: StreamErrorKind) -> Seq<char> {
    match kind {
        StreamErrorKind::Network | StreamErrorKind::Timeout => "PlayErrorNetwork"@,
        StreamErrorKind::BotCheck => "PlayErrorBot"@,
        StreamErrorKind::Geo => "PlayErrorGeo"@,
        StreamErrorKind::Unavailable => "PlayErrorUnavailable"@,
        StreamErrorKind::Age => "PlayErrorAge"@,
        StreamErrorKind::Extractor => "PlayErrorExtractor"@,
    }
}

/// The string of `key` in `lang`, or the key where there is none.
pub open spec fn text_of_key(lang: Lang, key: Seq<char>) -> Seq<char> {
    match lookup_spec(lang, key) {
        Some(s) => s@,
        None => key,
    }
}

/// A country's name in `lang`; an unknown code stands for itself.
pub open spec fn country_name(lang: Lang, code: Seq<char>) -> Seq<char> {
    match entry_from(table(), code, 0) {
        Some((ru, en)) => if lang == Lang::Ru { ru } else { en },
        None => code,
    }
}

fn error_kind_text_in(lang: Lang, kind: StreamErrorKind) -> (r: &'static str)
    ensures
        r@ == text_of_key(lang, kind_key(kind)),
{
    tr(
        lang,
        match kind {
            StreamErrorKind::Network | StreamErrorKind::Timeout => "PlayErrorNetwork",
            StreamErrorKind::BotCheck => "PlayErrorBot",
            StreamErrorKind::Geo => "PlayErrorGeo",
            StreamErrorKind::Unavailable => "PlayErrorUnavailable",
            StreamErrorKind::Age => "PlayErrorAge",
            StreamErrorKind::Extractor => "PlayErrorExtractor",
        },
    )
}

fn country_of(lang: Lang, code: &String) -> (r: String)
    ensures
        r@ == country_name(lang, code@),
{
    name(code.as_str(), lang == Lang::Ru)
}

fn one_arg(a: String) -> (v: Vec<String>)
    ensures
        v.deep_view() == seq![a@],
{
    let ghost av = a@;
    let mut v: Vec<String> = Vec::new();
    v.push(a);
    assert(v.deep_view() =~= seq![av]);
    v
}

fn two_args(a: String, b: String) -> (v: Vec<String>)
    ensures
        v.deep_view() == seq![a@, b@],
{
    let ghost av = a@;
    let ghost bv = b@;
    let mut v: Vec<String> = Vec::new();
    v.push(a);
    v.push(b);
    assert(v.deep_view() =~= seq![av, bv]);
    v
}

/// The reason in short, beside "Retry": "Недоступно: Россия".
pub open spec fn title_spec(lang: Lang, kind: StreamErrorKind, country: Option<Seq<char>>) -> Seq<char> {
    match (kind, country) {
        (StreamErrorKind::Geo, Some(code)) => fill(
            text_of_key(lang, "PlayErrorGeoCountryShortFormat"@),
            seq![country_name(lang, code)],
        ),
        _ => text_of_key(lang, kind_key(kind)),
    }
}

/// The reason in short, beside "Retry".
pub fn error_title(lang: Lang, error: &PlayerError) -> (r: String)
    ensures
        r@ == title_spec(lang, error.kind, error.country.deep_view()),
{
    match (&error.kind, &error.country) {
        (StreamErrorKind::Geo, Some(code)) => trf(lang, "PlayErrorGeoCountryShortFormat", &one_arg(country_of(lang, code))),
        _ => error_kind_text_in(lang, error.kind).to_owned(),
    }
}

/// The reason in the "Skipped" notice, short enough to read in four seconds.
pub open spec fn notice_spec(lang: Lang, kind: StreamErrorKind, country: Option<Seq<char>>) -> Seq<char> {
    match (kind, country) {
        (StreamErrorKind::Geo, Some(code)) => fill(
            text_of_key(lang, "PlayErrorGeoCountryNoticeFormat"@),
            seq![country_name(lang, code)],
        ),
        _ => text_of_key(lang, kind_key(kind)),
    }
}

/// The reason in the "Skipped" notice.
pub fn error_notice_in(lang: Lang, error: &PlayerError) -> (r: String)
    ensures
        r@ == notice_spec(lang, error.kind, error.country.deep_view()),
{
    match (&error.kind, &error.country) {
        (StreamErrorKind::Geo, Some(code)) => trf(lang, "PlayErrorGeoCountryNoticeFormat", &one_arg(country_of(lang, code))),
        _ => error_kind_text_in(lang, error.kind).to_owned(),
    }
}

/// The reason in full, on the error card: for a country, where YouTube sees the device and, where
/// known, in how many other countries the track is open.
pub open spec fn text_spec(lang: Lang, kind: StreamErrorKind, country: Option<Seq<char>>, open: Option<usize>) -> Seq<char> {
    match (kind, country) {
        (StreamErrorKind::Geo, Some(code)) => match open {
            Some(n) => fill(
                text_of_key(lang, "PlayErrorGeoCountryOpenFormat"@),
                seq![country_name(lang, code), plural_text(lang, "GeoOtherCountries"@, (n as i64) as int)],
            ),
            None => fill(text_of_key(lang, "PlayErrorGeoCountryFormat"@), seq![country_name(lang, code)]),
        },
        _ => text_of_key(lang, kind_key(kind)),
    }
}

/// The reason in full, on the error card.
pub fn error_text(lang: Lang, error: &PlayerError) -> (r: String)
    ensures
        r@ == text_spec(lang, error.kind, error.country.deep_view(), error.open_countries),
{
    match (&error.kind, &error.country) {
        (StreamErrorKind::Geo, Some(code)) => {
            let name = country_of(lang, code);
            match error.open_countries {
                Some(open) => {
                    let count = plural(lang, "GeoOtherCountries", open as i64);
                    trf(lang, "PlayErrorGeoCountryOpenFormat", &two_args(name, count))
                },
                None => trf(lang, "PlayErrorGeoCountryFormat", &one_arg(name)),
            }
        },
        _ => error_kind_text_in(lang, error.kind).to_owned(),
    }
}

/// "Skipped “…”: the reason".
pub fn skipped(lang: Lang, error: &PlayerError) -> (r: String)
    ensures
        r@ == fill(
            text_of_key(lang, "SkippedFormat"@),
            seq![error.track.title@, notice_spec(lang, error.kind, error.country.deep_view())],
        ),
{
    trf(lang, "SkippedFormat", &two_args(error.track.title.clone(), error_notice_in(lang, error)))
}

} // verus!
