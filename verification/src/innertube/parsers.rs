//! Reading YouTube Music's renderers: the kind of an item comes from its link (`pageType`,
//! `musicVideoType`), not from a localised caption; a caption's parts are told apart by shape.
use vstd::prelude::*;
use crate::chars::{
    all_digits, chars_eq, chars_of, digits_value, is_digit, is_ws, lit, lowercase, split, split_chars, string_of, to_lowercase,
    trim, trim_end, trim_start,
};
use crate::text::{duration_of, fold_parts, DurationFold};

verus! {

/// The `video_type` of a track by YouTube Music's `musicVideoType`.
pub open spec fn video_type_spec(t: Seq<char>) -> Seq<char> {
    if t == "MUSIC_VIDEO_TYPE_ATV"@ {
        "song"@
    } else if t == "MUSIC_VIDEO_TYPE_UGC"@ {
        "ugc"@
    } else if t == "MUSIC_VIDEO_TYPE_PODCAST_EPISODE"@ {
        "podcast_episode"@
    } else {
        "video"@
    }
}

/// The `video_type` of a track by YouTube Music's `musicVideoType`.
pub fn video_type_of(music_video_type: Option<&str>) -> (r: Option<String>)
    ensures
        match music_video_type {
            Some(t) => r matches Some(s) && s@ == video_type_spec(t@),
            None => r is None,
        },
{
    let t = match music_video_type {
        Some(t) => chars_of(t),
        None => return None,
    };
    let v = if chars_eq(&t, &lit("MUSIC_VIDEO_TYPE_ATV")) {
        lit("song")
    } else if chars_eq(&t, &lit("MUSIC_VIDEO_TYPE_UGC")) {
        lit("ugc")
    } else if chars_eq(&t, &lit("MUSIC_VIDEO_TYPE_PODCAST_EPISODE")) {
        lit("podcast_episode")
    } else {
        lit("video")
    };
    Some(string_of(&v))
}

/// A duration as YouTube writes it: "3:45" or "1:02:10" (one or two digits, then two-digit parts).
pub open spec fn duration_shape(text: Seq<char>) -> bool {
    let parts = split(text, ':');
    &&& 2 <= parts.len() <= 3
    &&& 1 <= parts[0].len() <= 2
    &&& all_digits(parts[0])
    &&& forall|i: int| 1 <= i < parts.len() ==> (#[trigger] parts[i]).len() == 2 && all_digits(parts[i])
}

fn digits_only(v: &Vec<char>) -> (r: bool)
    ensures
        r == all_digits(v@),
{
    let mut k: usize = 0;
    while k < v.len()
        invariant
            k <= v@.len(),
            forall|j: int| 0 <= j < k ==> #[trigger] is_digit(v@[j]),
        decreases v.len() - k,
    {
        if !('0' <= v[k] && v[k] <= '9') {
            assert(!is_digit(v@[k as int]));
            return false;
        }
        k = k + 1;
    }
    true
}

/// A duration as YouTube writes it: "3:45" or "1:02:10".
pub fn is_duration(text: &str) -> (r: bool)
    ensures
        r == duration_shape(text@),
{
    let parts = split_chars(&chars_of(text), ':');
    if parts.len() < 2 || parts.len() > 3 {
        return false;
    }
    if parts[0].len() < 1 || parts[0].len() > 2 || !digits_only(&parts[0]) {
        return false;
    }
    let mut i: usize = 1;
    while i < parts.len()
        invariant
            1 <= i <= parts@.len(),
            parts@.len() == split(text@, ':').len(),
            forall|k: int| 0 <= k < parts@.len() ==> #[trigger] parts@[k]@ == split(text@, ':')[k],
            forall|k: int| 1 <= k < i ==> (#[trigger] split(text@, ':')[k]).len() == 2 && all_digits(split(text@, ':')[k]),
        decreases parts.len() - i,
    {
        if parts[i].len() != 2 || !digits_only(&parts[i]) {
            assert(parts@[i as int]@ == split(text@, ':')[i as int]);
            return false;
        }
        i = i + 1;
    }
    true
}

/// A year: four digits.
pub open spec fn year_shape(text: Seq<char>) -> bool {
    text.len() == 4 && all_digits(text)
}

/// A year: four digits.
pub fn is_year(text: &str) -> (r: bool)
    ensures
        r == year_shape(text@),
{
    let v = chars_of(text);
    v.len() == 4 && digits_only(&v)
}

/// The type captions of mixed results ("Song", "Album", …): the first group of a caption,
/// dropped.
pub open spec fn type_labels() -> Seq<Seq<char>> {
    seq![
        "song"@, "video"@, "album"@, "single"@, "ep"@, "playlist"@, "artist"@, "episode"@, "podcast"@, "profile"@,
        "composition"@, "композиция"@, "песня"@, "трек"@, "видео"@, "клип"@, "альбом"@, "сингл"@, "плейлист"@,
        "исполнитель"@, "выпуск"@, "подкаст"@, "профиль"@,
    ]
}

/// A type caption, in any case.
pub fn is_type_label(text: &str) -> (r: bool)
    ensures
        r == type_labels().contains(lowercase(text@)),
{
    let lower = to_lowercase(text);
    let l = chars_of(lower.as_str());
    let labels: Vec<&'static str> = vec![
        "song", "video", "album", "single", "ep", "playlist", "artist", "episode", "podcast", "profile", "composition",
        "композиция", "песня", "трек", "видео", "клип", "альбом", "сингл", "плейлист", "исполнитель", "выпуск", "подкаст",
        "профиль",
    ];
    let ghost ls = labels@.map_values(|p: &'static str| p@);
    assert(ls =~= type_labels());
    let mut k: usize = 0;
    while k < labels.len()
        invariant
            k <= labels@.len(),
            ls == labels@.map_values(|p: &'static str| p@),
            ls == type_labels(),
            l@ == lowercase(text@),
            forall|j: int| 0 <= j < k ==> #[trigger] ls[j] != l@,
        decreases labels.len() - k,
    {
        if chars_eq(&lit(labels[k]), &l) {
            assert(ls[k as int] == l@);
            return true;
        }
        k = k + 1;
    }
    false
}


proof fn lemma_split_first(s: Seq<char>, sep: char)
    ensures
        split(s, sep).len() >= 1,
        split(s, sep)[0].len() <= s.len(),
        forall|i: int| 0 <= i < split(s, sep)[0].len() ==> #[trigger] split(s, sep)[0][i] == s[i],
        split(s, sep).len() == 1 ==> split(s, sep)[0] == s,
    decreases s.len(),
{
    if s.len() > 0 {
        lemma_split_first(s.drop_last(), sep);
        let p = split(s.drop_last(), sep);
        if s.last() != sep && p.len() == 1 {
            assert(split(s, sep)[0] =~= s);
        }
    }
}

proof fn lemma_split_last(s: Seq<char>, sep: char)
    ensures
        split(s, sep).len() >= 1,
        split(s, sep).last().len() <= s.len(),
        forall|i: int|
            0 <= i < split(s, sep).last().len() ==> #[trigger] split(s, sep).last()[split(s, sep).last().len() - 1 - i]
                == s[s.len() - 1 - i],
    decreases s.len(),
{
    if s.len() > 0 {
        lemma_split_last(s.drop_last(), sep);
        let p = split(s.drop_last(), sep);
        if s.last() != sep {
            let l = split(s, sep).last();
            assert(l == p.last().push(s.last()));
            assert forall|i: int| 0 <= i < l.len() implies #[trigger] l[l.len() - 1 - i] == s[s.len() - 1 - i] by {
                if i > 0 {
                    assert(p.last()[p.last().len() - 1 - (i - 1)] == s.drop_last()[s.drop_last().len() - 1 - (i - 1)]);
                }
            }
        }
    }
}

proof fn lemma_two_digits(p: Seq<char>)
    requires
        1 <= p.len() <= 2,
        all_digits(p),
    ensures
        digits_value(p) < 100,
{
    reveal_with_fuel(digits_value, 3);
    assert(is_digit(p[0]));
    assert(is_digit(p.last()));
    if p.len() == 2 {
        assert(p.drop_last().len() == 1);
        assert(p.drop_last().last() == p[0]);
    }
}

proof fn lemma_fold_small(parts: Seq<Seq<char>>)
    requires
        parts.len() <= 3,
        forall|i: int| 0 <= i < parts.len() ==> 1 <= (#[trigger] parts[i]).len() <= 2 && all_digits(parts[i]),
    ensures
        fold_parts(parts) matches DurationFold::Value(v) && 0 <= v && (parts.len() <= 1 ==> v < 100) && (parts.len()
            <= 2 ==> v < 6100) && v < 366100,
    decreases parts.len(),
{
    if parts.len() > 0 {
        lemma_fold_small(parts.drop_last());
        assert(parts.last() == parts[parts.len() - 1]);
        lemma_two_digits(parts.last());
    }
}

/// A duration in YouTube's shape reads to a value: it never leaves `i64`.
pub proof fn lemma_shaped_duration(t: Seq<char>)
    requires
        duration_shape(t),
    ensures
        duration_of(t) is Value,
{
    let parts = split(t, ':');
    lemma_split_first(t, ':');
    lemma_split_last(t, ':');
    assert(is_digit(parts[0][0]));
    assert(parts.last() == parts[parts.len() - 1]);
    assert(is_digit(parts.last()[1]));
    assert(parts.last()[parts.last().len() - 1 - 0] == t[t.len() - 1 - 0]);
    assert(t[0] == parts[0][0]);
    assert(!is_ws(t[0]));
    assert(!is_ws(t.last()));
    assert(trim_start(t) == t);
    assert(trim_end(t) == t);
    assert(trim(t) == t);
    lemma_fold_small(parts);
}

} // verus!
