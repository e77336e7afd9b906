//! A cover of the size needed. The stored address is the original one; the size is chosen where
//! it is shown: for `lh3`/`yt3.googleusercontent` the tail after `=` becomes `=w{px}-h{px}-l90-rj`;
//! for `i.ytimg.com/vi/<id>` up to 320 px it is `mqdefault.jpg`, larger `hq720.jpg`.
use vstd::prelude::*;
use crate::chars::{concat, contains_sub, dec, extend_chars, extend_str, find_chars, find_sub, is_prefix, last_index_of, lit, push_decimal, rfind_char, slice_chars, starts_with, strip_prefix, string_of, chars_of};

verus! {

/// A character that a YouTube video id may hold.
pub open spec fn is_id_char(c: char) -> bool {
    ||| 'a' <= c <= 'z'
    ||| 'A' <= c <= 'Z'
    ||| '0' <= c <= '9'
    ||| c == '_'
    ||| c == '-'
}

/// What follows `http(s)://i.ytimg.com/vi/` (or `vi_webp/`) in `url`.
pub open spec fn ytimg_rest(url: Seq<char>) -> Option<Seq<char>> {
    let after_scheme = match strip_prefix(url, "https://"@) {
        Some(r) => Some(r),
        None => strip_prefix(url, "http://"@),
    };
    match after_scheme {
        Some(r) => match strip_prefix(r, "i.ytimg.com/vi/"@) {
            Some(x) => Some(x),
            None => strip_prefix(r, "i.ytimg.com/vi_webp/"@),
        },
        None => None,
    }
}

/// The video id of a frame address `i.ytimg.com/vi/<id>/…`, with where the file name begins.
pub open spec fn ytimg_video_id(url: Seq<char>) -> Option<(Seq<char>, int)> {
    match ytimg_rest(url) {
        Some(rest) => if rest.len() >= 12 && (forall|k: int| 0 <= k < 11 ==> #[trigger] is_id_char(rest[k])) && rest[11] == '/' {
            Some((rest.take(11), url.len() - rest.len() + 12))
        } else {
            None
        },
        None => None,
    }
}

/// The address without its size tail: up to the last `=` after the scheme.
pub open spec fn resized_base(u: Seq<char>) -> Seq<char> {
    let scheme_end = match find_sub(u, "://"@) {
        Some(i) => i + 3,
        None => 0,
    };
    match last_index_of(u, '=') {
        Some(eq) => if eq > scheme_end { u.take(eq) } else { u },
        None => u,
    }
}

/// The frame file for a size: small or large.
pub open spec fn frame_file(px: u32) -> Seq<char> {
    if px <= 320 { "mqdefault.jpg"@ } else { "hq720.jpg"@ }
}

/// The address of a cover of `px` pixels.
pub open spec fn sized_url(url: Option<Seq<char>>, px: u32) -> Option<Seq<char>> {
    match url {
        None => None,
        Some(u0) => if u0.len() == 0 {
            None
        } else {
            let u = if is_prefix("//"@, u0) { "https:"@ + u0 } else { u0 };
            if contains_sub(u, "googleusercontent.com"@) || contains_sub(u, "ggpht.com"@) {
                Some(resized_base(u) + "=w"@ + dec(px as nat) + "-h"@ + dec(px as nat) + "-l90-rj"@)
            } else {
                match ytimg_video_id(u) {
                    Some((id, _)) => Some("https://i.ytimg.com/vi/"@ + id + "/"@ + frame_file(px)),
                    None => Some(u),
                }
            }
        },
    }
}

/// The characters of an optional text.
pub open spec fn str_view(s: Option<&str>) -> Option<Seq<char>> {
    match s {
        Some(t) => Some(t@),
        None => None,
    }
}

/// The part of `s` before its first `?`.
pub open spec fn before_query(s: Seq<char>) -> Seq<char> {
    match find_sub(s, seq!['?']) {
        Some(i) => s.take(i),
        None => s,
    }
}

/// A large frame file, which old videos lack.
pub open spec fn is_large_frame(file: Seq<char>) -> bool {
    ||| file == "hq720.jpg"@
    ||| file == "sddefault.jpg"@
    ||| file == "maxresdefault.jpg"@
    ||| file == "hq720.webp"@
    ||| file == "maxresdefault.webp"@
}

fn video_id_of(url: &Vec<char>) -> (r: Option<(Vec<char>, usize)>)
    ensures
        match r {
            Some((id, at)) => ytimg_video_id(url@) == Some((id@, at as int)),
            None => ytimg_video_id(url@) is None,
        },
{
    let https = lit("https://");
    let http = lit("http://");
    let vi = lit("i.ytimg.com/vi/");
    let vi_webp = lit("i.ytimg.com/vi_webp/");
    let after: usize = if starts_with(url, &https) {
        https.len()
    } else if starts_with(url, &http) {
        http.len()
    } else {
        return None;
    };
    let r = slice_chars(url, after, url.len());
    let start: usize = if starts_with(&r, &vi) {
        after + vi.len()
    } else if starts_with(&r, &vi_webp) {
        after + vi_webp.len()
    } else {
        return None;
    };
    proof {
        assert(r@ == url@.skip(after as int));
        assert(url@.skip(after as int).skip((start - after) as int) =~= url@.skip(start as int));
    }
    let rest = slice_chars(url, start, url.len());
    assert(rest@ =~= url@.skip(start as int));
    assert(ytimg_rest(url@) == Some(rest@));
    if rest.len() < 12 || rest[11] != '/' {
        return None;
    }
    let mut k: usize = 0;
    while k < 11
        invariant
            k <= 11,
            rest@.len() >= 12,
            rest@[11] == '/',
            ytimg_rest(url@) == Some(rest@),
            forall|j: int| 0 <= j < k ==> #[trigger] is_id_char(rest@[j]),
        decreases 11 - k,
    {
        let c = rest[k];
        if !(('a' <= c && c <= 'z') || ('A' <= c && c <= 'Z') || ('0' <= c && c <= '9') || c == '_' || c == '-') {
            assert(!is_id_char(rest@[k as int]));
            return None;
        }
        k = k + 1;
    }
    let id = slice_chars(&rest, 0, 11);
    assert(id@ =~= rest@.take(11));
    Some((id, url.len() - rest.len() + 12))
}

/// The address of a cover of `px` pixels; `None` for a missing or empty address.
pub fn sized(url: Option<&str>, px: u32) -> (r: Option<String>)
    ensures
        match r {
            Some(s) => sized_url(str_view(url), px) == Some(s@),
            None => sized_url(str_view(url), px) is None,
        },
{
    let u0 = match url {
        Some(u) => chars_of(u),
        None => return None,
    };
    if u0.len() == 0 {
        return None;
    }
    let u = if starts_with(&u0, &lit("//")) { concat(&lit("https:"), &u0) } else { u0 };
    if find_chars(&u, &lit("googleusercontent.com")).is_some() || find_chars(&u, &lit("ggpht.com")).is_some() {
        proof {
            reveal_strlit("://");
        }
        let sep = lit("://");
        assert(sep@.len() == 3);
        assert(u@.len() == u.len());
        let scheme_end: usize = match find_chars(&u, &sep) {
            Some(i) => i + 3,
            None => 0,
        };
        let mut v = match rfind_char(&u, '=') {
            Some(eq) => if eq > scheme_end { slice_chars(&u, 0, eq) } else { slice_chars(&u, 0, u.len()) },
            None => slice_chars(&u, 0, u.len()),
        };
        assert(u@.subrange(0, u@.len() as int) =~= u@);
        proof {
            if let Some(eq) = last_index_of(u@, '=') {
                assert(u@.subrange(0, eq) =~= u@.take(eq));
            }
        }
        extend_str(&mut v, "=w");
        push_decimal(&mut v, px as u64);
        extend_str(&mut v, "-h");
        push_decimal(&mut v, px as u64);
        extend_str(&mut v, "-l90-rj");
        return Some(string_of(&v));
    }
    match video_id_of(&u) {
        Some((id, _)) => {
            let mut v = lit("https://i.ytimg.com/vi/");
            extend_chars(&mut v, &id);
            extend_str(&mut v, "/");
            if px <= 320 {
                extend_str(&mut v, "mqdefault.jpg");
            } else {
                extend_str(&mut v, "hq720.jpg");
            }
            Some(string_of(&v))
        },
        None => Some(string_of(&u)),
    }
}

/// A frame of the video by its id, where it has no cover of its own.
pub fn for_video(video_id: &str, px: u32) -> (r: String)
    ensures
        r@ == "https://i.ytimg.com/vi/"@ + video_id@ + "/"@ + if px <= 320 { "mqdefault.jpg"@ } else { "hqdefault.jpg"@ },
{
    let mut v = lit("https://i.ytimg.com/vi/");
    extend_str(&mut v, video_id);
    extend_str(&mut v, "/");
    if px <= 320 {
        extend_str(&mut v, "mqdefault.jpg");
    } else {
        extend_str(&mut v, "hqdefault.jpg");
    }
    string_of(&v)
}

/// The fallback frame: old videos have no large sizes, only `hqdefault.jpg` (480×360).
pub fn fallback(url: &str) -> (r: Option<String>)
    ensures
        match ytimg_video_id(url@) {
            Some((id, at)) => if is_large_frame(before_query(url@.skip(at))) {
                r matches Some(s) && s@ == "https://i.ytimg.com/vi/"@ + id + "/hqdefault.jpg"@
            } else {
                r is None
            },
            None => r is None,
        },
{
    let u = chars_of(url);
    let (id, at) = match video_id_of(&u) {
        Some(p) => p,
        None => return None,
    };
    let tail = slice_chars(&u, at, u.len());
    let file = match find_chars(&tail, &lit("?")) {
        Some(q) => slice_chars(&tail, 0, q),
        None => tail,
    };
    proof {
        assert(seq!['?'] =~= "?"@) by {
            reveal_strlit("?");
        }
        assert(tail@ =~= u@.skip(at as int));
        if let Some(q) = find_sub(tail@, seq!['?']) {
            assert(tail@.subrange(0, q) =~= tail@.take(q));
        }
    }
    let large = chars_eq_str(&file, "hq720.jpg") || chars_eq_str(&file, "sddefault.jpg") || chars_eq_str(&file, "maxresdefault.jpg")
        || chars_eq_str(&file, "hq720.webp") || chars_eq_str(&file, "maxresdefault.webp");
    if !large {
        return None;
    }
    let mut v = lit("https://i.ytimg.com/vi/");
    extend_chars(&mut v, &id);
    extend_str(&mut v, "/hqdefault.jpg");
    Some(string_of(&v))
}

/// Whether `v` holds exactly the characters of `s`.
fn chars_eq_str(v: &Vec<char>, s: &str) -> (r: bool)
    ensures
        r == (v@ == s@),
{
    crate::chars::chars_eq(v, &lit(s))
}

/// A 16:9 video frame: shown cropped to a square in the middle.
pub fn is_wide(url: Option<&str>) -> (r: bool)
    ensures
        r == match url {
            Some(u) => ytimg_video_id(u@) is Some,
            None => false,
        },
{
    match url {
        Some(u) => video_id_of(&chars_of(u)).is_some(),
        None => false,
    }
}

} // verus!
