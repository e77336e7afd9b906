//! Reading a stream's byte ranges: the cache on disk first, then the network. An expired
//! address (401, 403, 410) is no reason to skip the track but one to fetch a fresh address and
//! try again, at most twice in a row; a network failure is retried after 1 and 3 s. The requests
//! themselves are the app's; these are the decisions around them.
use vstd::prelude::*;
use crate::chars::{all_digits, chars_of, digits_value, is_digit, last_index_of, parse_digits, rfind_char, slice_chars};

verus! {

/// The last byte asked for: `start + length - 1`, no later than the stream's last byte where its
/// length is known; none where the range is empty.
pub open spec fn requested_end_of(start: u64, length: usize, total: Option<u64>) -> Option<u64> {
    let end = start + length - 1;
    let end = match total {
        Some(t) => {
            let last = if t >= 1 { t - 1 } else { 0 };
            if end < last { end } else { last }
        },
        None => end,
    };
    if end < start || length == 0 { None } else { Some(end as u64) }
}

/// The last byte to ask for (see `requested_end_of`); the range must not leave `u64`, and an
/// empty range at byte 0 is no range at all.
pub fn requested_end(start: u64, length: usize, total: Option<u64>) -> (r: Option<u64>)
    requires
        1 <= start + length <= u64::MAX + 1,
    ensures
        r == requested_end_of(start, length, total),
{
    let mut end: u64 = ((start as u128) + (length as u128) - 1) as u64;
    match total {
        Some(t) => {
            let last = if t >= 1 { t - 1 } else { 0 };
            if last < end {
                end = last;
            }
        },
        None => {},
    }
    if end < start || length == 0 {
        None
    } else {
        Some(end)
    }
}

/// What an answer to a range request means.
#[derive(Clone, Copy, Debug, PartialEq, Eq, Structural)]
pub enum RangeAnswer {
    /// The address expired: a fresh one, then again.
    Refresh,
    /// Past the end: nothing more to read.
    Empty,
    /// The bytes came.
    Bytes,
    /// Anything else fails like the network.
    Failed,
}

pub open spec fn answer_of_spec(status: u16) -> RangeAnswer {
    if status == 401 || status == 403 || status == 410 {
        RangeAnswer::Refresh
    } else if status == 416 {
        RangeAnswer::Empty
    } else if 200 <= status <= 299 {
        RangeAnswer::Bytes
    } else {
        RangeAnswer::Failed
    }
}

/// What an HTTP status of a range request means.
pub fn answer_of(status: u16) -> (r: RangeAnswer)
    ensures
        r == answer_of_spec(status),
{
    if status == 401 || status == 403 || status == 410 {
        RangeAnswer::Refresh
    } else if status == 416 {
        RangeAnswer::Empty
    } else if 200 <= status && status <= 299 {
        RangeAnswer::Bytes
    } else {
        RangeAnswer::Failed
    }
}

/// A third fresh address in a row is not asked for: the track fails as the extractor's.
pub fn refreshes_exhausted(refreshes_before: u32) -> (r: bool)
    ensures
        r == (refreshes_before + 1 > 2),
{
    refreshes_before >= 2
}

/// After the third failure in a row the network error stands.
pub fn retries_exhausted(failures: u32) -> (r: bool)
    ensures
        r == (failures > 2),
{
    failures > 2
}

/// A whole number as `str::parse::<u64>` reads it: an optional `+`, then decimal digits, within
/// `u64`.
pub open spec fn u64_of(s: Seq<char>) -> Option<u64> {
    let digits = if s.len() > 0 && s[0] == '+' { s.skip(1) } else { s };
    if digits.len() == 0 || !all_digits(digits) || digits_value(digits) > u64::MAX {
        None
    } else {
        Some(digits_value(digits) as u64)
    }
}

/// The stream's length from a `Content-Range` header (`bytes 0-99/1234`): what follows the last
/// `/`, where it is a number.
pub open spec fn content_range_total_of(header: Seq<char>) -> Option<u64> {
    match last_index_of(header, '/') {
        Some(i) => u64_of(header.skip(i + 1)),
        None => u64_of(header),
    }
}

fn u64_from(s: &Vec<char>) -> (r: Option<u64>)
    ensures
        r == u64_of(s@),
{
    let digits = if s.len() > 0 && s[0] == '+' { slice_chars(s, 1, s.len()) } else { slice_chars(s, 0, s.len()) };
    assert(s@.subrange(0, s@.len() as int) =~= s@);
    assert(s@.len() > 0 ==> s@.subrange(1, s@.len() as int) =~= s@.skip(1));
    assert(digits@ == (if s@.len() > 0 && s@[0] == '+' { s@.skip(1) } else { s@ }));
    if digits.len() == 0 {
        return None;
    }
    let mut k: usize = 0;
    while k < digits.len()
        invariant
            k <= digits@.len(),
            digits@ == (if s@.len() > 0 && s@[0] == '+' { s@.skip(1) } else { s@ }),
            forall|j: int| 0 <= j < k ==> #[trigger] is_digit(digits@[j]),
        decreases digits.len() - k,
    {
        if !('0' <= digits[k] && digits[k] <= '9') {
            assert(!all_digits(digits@)) by {
                assert(!is_digit(digits@[k as int]));
            }
            return None;
        }
        k = k + 1;
    }
    parse_digits(&digits)
}

/// The stream's length from a `Content-Range` header.
pub fn content_range_total(header: &str) -> (r: Option<u64>)
    ensures
        r == content_range_total_of(header@),
{
    let v = chars_of(header);
    match rfind_char(&v, '/') {
        Some(i) => {
            let tail = slice_chars(&v, i + 1, v.len());
            assert(v@.subrange(i + 1, v@.len() as int) =~= v@.skip(i + 1));
            u64_from(&tail)
        },
        None => u64_from(&v),
    }
}

} // verus!
