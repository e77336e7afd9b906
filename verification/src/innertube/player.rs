//! Why YouTube does not give out a video, in its own words: the playability answer, and the
//! country in which YouTube sees the device, read out of `visitorData`.
use vstd::prelude::*;
use base64::Engine;
use crate::chars::{chars_eq, chars_of, lit, replace_all, replace_chars, string_of, trim, trim_chars};
use crate::innertube::music_parsers::{or_else, or_json};
use crate::innertube::nav::{as_str, at, items, items_at, member, str_at, str_view, string_at};
use crate::json::{jview, Json, JsonV};

verus! {

/// Why YouTube does not give out a video: the `player` answer of the WEB client, which sends the
/// list of countries even when the video does not play.
#[derive(Debug, Default, PartialEq)]
pub struct Playability {
    pub status: Option<String>,
    pub reason: Option<String>,
    /// The country in which YouTube sees the device (from `visitorData`).
    pub country: Option<String>,
    /// Where the rights holder opened the video; empty: YouTube did not say.
    pub available_countries: Vec<String>,
}

impl Playability {
    /// The rights holder closed the video in the country where YouTube sees the device.
    pub open spec fn blocked_here(&self) -> bool {
        match self.country {
            Some(c) => self.available_countries@.len() > 0
                && !(exists|i: int| 0 <= i < self.available_countries@.len() && (#[trigger] self.available_countries@[i])@ == c@),
            None => false,
        }
    }

    /// The rights holder closed the video in the country where YouTube sees the device.
    pub fn is_blocked_here(&self) -> (r: bool)
        ensures
            r == self.blocked_here(),
    {
        let c = match &self.country {
            Some(c) => chars_of(c.as_str()),
            None => return false,
        };
        if self.available_countries.len() == 0 {
            return false;
        }
        let mut i: usize = 0;
        while i < self.available_countries.len()
            invariant
                i <= self.available_countries@.len(),
                self.country matches Some(cc) && cc@ == c@,
                forall|k: int| 0 <= k < i ==> (#[trigger] self.available_countries@[k])@ != c@,
            decreases self.available_countries.len() - i,
        {
            if chars_eq(&chars_of(self.available_countries[i].as_str()), &c) {
                return false;
            }
            i = i + 1;
        }
        true
    }
}

/// What `STANDARD_NO_PAD` base64 decoding of `text` gives: `None` where the text is no such
/// base64.
pub uninterp spec fn base64_decoded(text: Seq<char>) -> Option<Seq<u8>>;

/// `base64::engine::general_purpose::STANDARD_NO_PAD.decode`. Claimed: the bytes are the named
/// function of the text, nothing more.
#[verifier::external_body]
fn decode_base64(text: &str) -> (r: Option<Vec<u8>>)
    ensures
        match r {
            Some(b) => base64_decoded(text@) == Some(b@),
            None => base64_decoded(text@) is None,
        },
{
    base64::engine::general_purpose::STANDARD_NO_PAD.decode(text).ok()
}

/// A protobuf varint read from `i` (below `end`), with bits `shift` on already in `acc`: its value
/// and where it ends.
pub open spec fn varint_from(bytes: Seq<u8>, i: int, end: int, shift: u64, acc: u64) -> Option<(u64, int)>
    decreases end - i,
{
    if 0 <= i < end && i < bytes.len() && shift < 64 {
        let b = bytes[i];
        let acc2 = acc | (((b & 0x7F) as u64) << shift);
        if b & 0x80 == 0 {
            Some((acc2, i + 1))
        } else {
            varint_from(bytes, i + 1, end, (shift + 7) as u64, acc2)
        }
    } else {
        None
    }
}

/// A varint read from `i`.
pub open spec fn varint_at(bytes: Seq<u8>, i: int, end: int) -> Option<(u64, int)> {
    varint_from(bytes, i, end, 0, 0)
}

/// A varint always moves on.
pub proof fn lemma_varint_advances(bytes: Seq<u8>, i: int, end: int, shift: u64, acc: u64)
    ensures
        varint_from(bytes, i, end, shift, acc) matches Some((_, j)) ==> i < j <= end,
    decreases end - i,
{
    if 0 <= i < end && i < bytes.len() && shift < 64 {
        let b = bytes[i];
        let acc2 = acc | (((b & 0x7F) as u64) << shift);
        if b & 0x80 != 0 {
            lemma_varint_advances(bytes, i + 1, end, (shift + 7) as u64, acc2);
        }
    }
}

/// How far the walk of a message has left to go.
pub open spec fn left(index: int, end: int) -> int {
    if index < end { end - index } else { 0 }
}

/// The bounds of the first length-delimited field `number` in the message `bytes[index..end]`.
pub open spec fn field_from(bytes: Seq<u8>, index: int, end: int, number: u64) -> Option<(int, int)>
    decreases left(index, end),
{
    if index < end {
        match varint_at(bytes, index, end) {
            None => None,
            Some((key, i1)) => {
                proof {
                    lemma_varint_advances(bytes, index, end, 0, 0);
                }
                if key & 7 == 0 {
                    match varint_at(bytes, i1, end) {
                        None => None,
                        Some((_, i2)) => {
                            proof {
                                lemma_varint_advances(bytes, i1, end, 0, 0);
                            }
                            field_from(bytes, i2, end, number)
                        },
                    }
                } else if key & 7 == 1 {
                    field_from(bytes, i1 + 8, end, number)
                } else if key & 7 == 2 {
                    match varint_at(bytes, i1, end) {
                        None => None,
                        Some((len, i2)) => {
                            proof {
                                lemma_varint_advances(bytes, i1, end, 0, 0);
                            }
                            let length = (len as usize) as int;
                            if length > end - i2 {
                                None
                            } else if key >> 3 == number {
                                Some((i2, i2 + length))
                            } else {
                                field_from(bytes, i2 + length, end, number)
                            }
                        },
                    }
                } else if key & 7 == 5 {
                    field_from(bytes, i1 + 4, end, number)
                } else {
                    None
                }
            },
        }
    } else {
        None
    }
}

fn varint(bytes: &Vec<u8>, index: &mut usize, end: usize) -> (r: Option<u64>)
    requires
        end <= bytes@.len(),
    ensures
        match varint_at(bytes@, *old(index) as int, end as int) {
            Some((v, j)) => r == Some(v) && *final(index) == j,
            None => r is None,
        },
{
    let mut value: u64 = 0;
    let mut shift: u64 = 0;
    let ghost start = *index as int;
    while *index < end && shift < 64
        invariant
            end <= bytes@.len(),
            shift % 7 == 0,
            shift <= 70,
            varint_at(bytes@, start, end as int) == varint_from(bytes@, *index as int, end as int, shift, value),
            start == *old(index) as int,
        decreases end - *index,
    {
        let byte = bytes[*index];
        *index = *index + 1;
        value = value | (((byte & 0x7F) as u64) << shift);
        if byte & 0x80 == 0 {
            return Some(value);
        }
        shift = shift + 7;
    }
    None
}

/// The bounds of the first length-delimited field `number` in the message `bytes[start..end]`.
fn field(bytes: &Vec<u8>, start: usize, end: usize, number: u64) -> (r: Option<(usize, usize)>)
    requires
        end <= bytes@.len(),
    ensures
        match field_from(bytes@, start as int, end as int, number) {
            Some((s, e)) => r == Some((s as usize, e as usize)) && start <= s <= e <= end,
            None => r is None,
        },
{
    let mut index: usize = start;
    while index < end
        invariant
            end <= bytes@.len(),
            start <= index,
            field_from(bytes@, start as int, end as int, number) == field_from(bytes@, index as int, end as int, number),
        decreases end - index,
    {
        let ghost at = index as int;
        proof {
            lemma_varint_advances(bytes@, at, end as int, 0, 0);
        }
        let key = match varint(bytes, &mut index, end) {
            Some(k) => k,
            None => return None,
        };
        let ghost i1 = index as int;
        if key & 7 == 0 {
            proof {
                lemma_varint_advances(bytes@, i1, end as int, 0, 0);
            }
            match varint(bytes, &mut index, end) {
                Some(_) => {},
                None => return None,
            }
        } else if key & 7 == 1 {
            if end - index <= 8 {
                assert(field_from(bytes@, i1 + 8, end as int, number) is None);
                return None;
            }
            index = index + 8;
        } else if key & 7 == 2 {
            proof {
                lemma_varint_advances(bytes@, i1, end as int, 0, 0);
            }
            let length = match varint(bytes, &mut index, end) {
                Some(l) => l as usize,
                None => return None,
            };
            if length > end - index {
                return None;
            }
            if key >> 3 == number {
                return Some((index, index + length));
            }
            index = index + length;
        } else if key & 7 == 5 {
            if end - index <= 4 {
                assert(field_from(bytes@, i1 + 4, end as int, number) is None);
                return None;
            }
            index = index + 4;
        } else {
            return None;
        }
    }
    None
}

/// The country of a decoded `visitorData`: field 6 is a message whose field 1 is the country's
/// two-letter code.
pub open spec fn country_of_bytes(bytes: Seq<u8>) -> Option<Seq<char>> {
    match field_from(bytes, 0, bytes.len() as int, 6) {
        None => None,
        Some((start, end)) => match field_from(bytes, start, end, 1) {
            None => None,
            Some((s, e)) => if e - s == 2 && 65 <= bytes[s] <= 90 && 65 <= bytes[s + 1] <= 90 {
                Some(seq![bytes[s] as char, bytes[s + 1] as char])
            } else {
                None
            },
        },
    }
}

/// The country in decoded `visitorData` bytes.
pub fn country_from_visitor_bytes(bytes: &Vec<u8>) -> (r: Option<String>)
    ensures
        match country_of_bytes(bytes@) {
            Some(c) => r matches Some(s) && s@ == c,
            None => r is None,
        },
{
    let (start, end) = match field(bytes, 0, bytes.len(), 6) {
        Some(p) => p,
        None => return None,
    };
    let (s, e) = match field(bytes, start, end, 1) {
        Some(p) => p,
        None => return None,
    };
    if e - s == 2 && 65 <= bytes[s] && bytes[s] <= 90 && 65 <= bytes[s + 1] && bytes[s + 1] <= 90 {
        let mut v: Vec<char> = Vec::new();
        v.push(bytes[s] as char);
        v.push(bytes[s + 1] as char);
        assert(v@ =~= seq![bytes@[s as int] as char, bytes@[s + 1] as char]);
        Some(string_of(&v))
    } else {
        None
    }
}

/// The text that is base64-decoded: `%3D` (either case) read as `=`, trailing `=` dropped, and
/// the URL-safe alphabet turned into the standard one.
pub open spec fn visitor_base64(text: Seq<char>) -> Seq<char> {
    let t = replace_all(replace_all(text, "%3D"@, "="@), "%3d"@, "="@);
    replace_all(replace_all(trim_end_char(t, '='), "-"@, "+"@), "_"@, "/"@)
}

/// `s` without `c` at its end, any number of times.
pub open spec fn trim_end_char(s: Seq<char>, c: char) -> Seq<char>
    decreases s.len(),
{
    if s.len() > 0 && s.last() == c { trim_end_char(s.drop_last(), c) } else { s }
}

/// The country of the request from `visitorData`.
pub open spec fn visitor_country_of(visitor_data: Option<Seq<char>>) -> Option<Seq<char>> {
    match visitor_data {
        None => None,
        Some(v) => if trim(v).len() == 0 {
            None
        } else {
            match base64_decoded(visitor_base64(trim(v))) {
                None => None,
                Some(bytes) => country_of_bytes(bytes),
            }
        },
    }
}

/// The country of the request from `visitorData`: url-safe base64 (with `%3D` for `=`) of a
/// protobuf whose field 6 is a message and its field 1 the country's two-letter code. `None`:
/// missing or unreadable.
pub fn visitor_country(visitor_data: Option<&str>) -> (r: Option<String>)
    ensures
        r.deep_view() == visitor_country_of(str_view(visitor_data)),
        match visitor_data {
            None => r is None,
            Some(v) => if trim(v@).len() == 0 {
                r is None
            } else {
                match base64_decoded(visitor_base64(trim(v@))) {
                    None => r is None,
                    Some(bytes) => match country_of_bytes(bytes) {
                        Some(c) => r matches Some(s) && s@ == c,
                        None => r is None,
                    },
                }
            },
        },
{
    let text = match visitor_data {
        Some(v) => trim_chars(&chars_of(v)),
        None => return None,
    };
    if text.len() == 0 {
        return None;
    }
    let t = replace_chars(&replace_chars(&text, &lit("%3D"), &lit("=")), &lit("%3d"), &lit("="));
    let mut n: usize = t.len();
    assert(t@.take(n as int) =~= t@);
    while n > 0 && t[n - 1] == '='
        invariant
            n <= t@.len(),
            trim_end_char(t@, '=') == trim_end_char(t@.take(n as int), '='),
        decreases n,
    {
        assert(t@.take(n as int).drop_last() =~= t@.take(n - 1));
        n = n - 1;
    }
    let trimmed = crate::chars::slice_chars(&t, 0, n);
    assert(trimmed@ =~= t@.take(n as int));
    let b = replace_chars(&replace_chars(&trimmed, &lit("-"), &lit("+")), &lit("_"), &lit("/"));
    let s = string_of(&b);
    let bytes = match decode_base64(s.as_str()) {
        Some(bytes) => bytes,
        None => return None,
    };
    country_from_visitor_bytes(&bytes)
}


/// The strings among the elements, in order.
pub open spec fn strings_in(vs: Seq<JsonV>) -> Seq<Seq<char>>
    decreases vs.len(),
{
    if vs.len() == 0 {
        Seq::empty()
    } else {
        let s = strings_in(vs.drop_last());
        match as_str(Some(vs.last())) {
            Some(t) => s.push(t),
            None => s,
        }
    }
}

/// The countries where the video is open: from `playerMicroformatRenderer` (WEB), else from
/// `microformatDataRenderer` (WEB_REMIX).
pub open spec fn countries_of(response: JsonV) -> Option<JsonV> {
    let micro = member(Some(response), "microformat"@);
    or_else(
        member(member(micro, "playerMicroformatRenderer"@), "availableCountries"@),
        member(member(micro, "microformatDataRenderer"@), "availableCountries"@),
    )
}

impl Playability {
    /// Why YouTube does not give the video: status, reason, the country it sees, and where the
    /// video is open.
    pub fn parse(response: &Json) -> (r: Playability)
        ensures
            r.status.deep_view() == as_str(member(member(Some(jview(*response)), "playabilityStatus"@), "status"@)),
            r.reason.deep_view() == as_str(member(member(Some(jview(*response)), "playabilityStatus"@), "reason"@)),
            r.country.deep_view() == visitor_country_of(
                as_str(member(member(Some(jview(*response)), "responseContext"@), "visitorData"@)),
            ),
            r.available_countries.deep_view() == strings_in(items(countries_of(jview(*response)))),
    {
        let o = Some(response);
        let micro = at(o, "microformat");
        let countries = or_json(
            at(at(micro, "playerMicroformatRenderer"), "availableCountries"),
            at(at(micro, "microformatDataRenderer"), "availableCountries"),
        );
        let cs = items_at(countries);
        let ghost cv = items(countries_of(jview(*response)));
        let mut available: Vec<String> = Vec::new();
        let mut i: usize = 0;
        while i < cs.len()
            invariant
                i <= cs@.len(),
                cs@.len() == cv.len(),
                forall|m: int| 0 <= m < cs@.len() ==> #[trigger] jview(cs@[m]) == cv[m],
                available.deep_view() == strings_in(cv.take(i as int)),
            decreases cs.len() - i,
        {
            assert(cv.take(i + 1).drop_last() =~= cv.take(i as int));
            assert(cv.take(i + 1).last() == cv[i as int]);
            let ghost before = available.deep_view();
            match string_at(Some(&cs[i])) {
                Some(t) => {
                    available.push(t);
                    assert(available.deep_view() =~= before.push(as_str(Some(cv[i as int])).unwrap()));
                },
                None => {},
            }
            i = i + 1;
        }
        assert(cv.take(cs@.len() as int) =~= cv);
        Playability {
            status: string_at(at(at(o, "playabilityStatus"), "status")),
            reason: string_at(at(at(o, "playabilityStatus"), "reason")),
            country: visitor_country(str_at(at(at(o, "responseContext"), "visitorData"))),
            available_countries: available,
        }
    }
}

} // verus!
