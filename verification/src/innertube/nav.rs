//! Finding one's way in InnerTube's answers: keys, indices, `runs`, cover images. Every step
//! bears a missing key or a value of another type: the result is then `None`.
use vstd::prelude::*;
use crate::chars::{chars_eq, chars_of, lit, parse_i64, parse_i64_chars, string_of, trim, trimmed};
use crate::json::{jview, lemma_array, lemma_object, Json, JsonV, Num};

verus! {

/// The value of the first pair with `key`.
pub open spec fn lookup(pairs: Seq<(Seq<char>, JsonV)>, key: Seq<char>) -> Option<JsonV>
    decreases pairs.len(),
{
    if pairs.len() == 0 {
        None
    } else if pairs[0].0 == key {
        Some(pairs[0].1)
    } else {
        lookup(pairs.drop_first(), key)
    }
}

/// A step by key: the member of an object (`Value::get` with a key).
pub open spec fn member(o: Option<JsonV>, key: Seq<char>) -> Option<JsonV> {
    match o {
        Some(JsonV::Object(pairs)) => lookup(pairs, key),
        _ => None,
    }
}

/// A step by index: the element of an array.
pub open spec fn element(o: Option<JsonV>, i: int) -> Option<JsonV> {
    match o {
        Some(JsonV::Array(a)) => if 0 <= i < a.len() { Some(a[i]) } else { None },
        _ => None,
    }
}

/// The text of a string.
pub open spec fn as_str(o: Option<JsonV>) -> Option<Seq<char>> {
    match o {
        Some(JsonV::Str(s)) => Some(s),
        _ => None,
    }
}

/// The elements of an array; of anything else, none.
pub open spec fn items(o: Option<JsonV>) -> Seq<JsonV> {
    match o {
        Some(JsonV::Array(a)) => a,
        _ => Seq::empty(),
    }
}

/// A whole number: a number (one with a fraction by its whole part, one beyond `i64` at its
/// bound) or a string that holds one between blanks.
pub open spec fn int_of(o: Option<JsonV>) -> Option<i64> {
    match o {
        Some(JsonV::Number(Num::PosInt(u))) => Some(if u <= i64::MAX { u as i64 } else { i64::MAX }),
        Some(JsonV::Number(Num::NegInt(i))) => Some(i),
        Some(JsonV::Number(Num::Float(w))) => Some(w),
        Some(JsonV::Str(s)) => parse_i64(trim(s)),
        _ => None,
    }
}

/// `true` only for the value `true`.
pub open spec fn flag_of(o: Option<JsonV>) -> bool {
    o == Some(JsonV::Bool(true))
}

pub open spec fn view_of(o: Option<&Json>) -> Option<JsonV> {
    match o {
        Some(j) => Some(jview(*j)),
        None => None,
    }
}

pub open spec fn str_view(o: Option<&str>) -> Option<Seq<char>> {
    match o {
        Some(s) => Some(s@),
        None => None,
    }
}

/// `at!(o, key)`.
pub fn at<'a>(o: Option<&'a Json>, key: &str) -> (r: Option<&'a Json>)
    ensures
        view_of(r) == member(view_of(o), key@),
{
    let j = match o {
        Some(j) => j,
        None => return None,
    };
    match j {
        Json::Object(pairs) => {
            proof {
                lemma_object(*j);
            }
            let ghost ps = jview(*j)->Object_0;
            let k = key.to_owned();
            let mut i: usize = 0;
            assert(ps.skip(0) =~= ps);
            while i < pairs.len()
                invariant
                    i <= pairs@.len(),
                    k@ == key@,
                    *j == Json::Object(*pairs),
                    view_of(o) == Some(jview(*j)),
                    ps == jview(*j)->Object_0,
                    ps.len() == pairs@.len(),
                    forall|m: int| 0 <= m < pairs@.len() ==> #[trigger] ps[m] == (pairs@[m].0@, jview(pairs@[m].1)),
                    lookup(ps, key@) == lookup(ps.skip(i as int), key@),
                decreases pairs.len() - i,
            {
                assert(ps.skip(i as int)[0] == ps[i as int]);
                if pairs[i].0 == k {
                    return Some(&pairs[i].1);
                }
                assert(ps.skip(i as int).drop_first() =~= ps.skip(i + 1));
                i = i + 1;
            }
            None
        },
        _ => None,
    }
}

/// `at!(o, index)`.
pub fn at_index<'a>(o: Option<&'a Json>, index: usize) -> (r: Option<&'a Json>)
    ensures
        view_of(r) == element(view_of(o), index as int),
{
    let j = match o {
        Some(j) => j,
        None => return None,
    };
    match j {
        Json::Array(v) => {
            proof {
                lemma_array(*j);
            }
            if index < v.len() {
                Some(&v[index])
            } else {
                None
            }
        },
        _ => None,
    }
}

/// The text of a string (`Value::as_str`).
pub fn str_at<'a>(o: Option<&'a Json>) -> (r: Option<&'a str>)
    ensures
        str_view(r) == as_str(view_of(o)),
{
    match o {
        Some(Json::Str(s)) => Some(s.as_str()),
        _ => None,
    }
}

/// The text of a string, owned.
pub fn string_at(o: Option<&Json>) -> (r: Option<String>)
    ensures
        r.deep_view() == as_str(view_of(o)),
{
    match o {
        Some(Json::Str(s)) => Some(s.clone()),
        _ => None,
    }
}

/// The elements of an array; of anything else, none.
pub fn items_at<'a>(o: Option<&'a Json>) -> (r: &'a [Json])
    ensures
        r@.len() == items(view_of(o)).len(),
        forall|i: int| 0 <= i < r@.len() ==> #[trigger] jview(r@[i]) == items(view_of(o))[i],
{
    match o {
        Some(j) => match j {
            Json::Array(v) => {
                proof {
                    lemma_array(*j);
                }
                v.as_slice()
            },
            _ => &[],
        },
        None => &[],
    }
}

/// A whole number, or a string that holds one.
pub fn i64_at(o: Option<&Json>) -> (r: Option<i64>)
    ensures
        r == int_of(view_of(o)),
{
    match o {
        Some(Json::Number(Num::PosInt(u))) => Some(if *u <= 9223372036854775807u64 { *u as i64 } else { i64::MAX }),
        Some(Json::Number(Num::NegInt(i))) => Some(*i),
        Some(Json::Number(Num::Float(w))) => Some(*w),
        Some(Json::Str(s)) => parse_i64_chars(&trimmed(s.as_str())),
        _ => None,
    }
}

/// `true` only for the value `true`.
pub fn flag_at(o: Option<&Json>) -> (r: bool)
    ensures
        r == flag_of(view_of(o)),
{
    match o {
        Some(Json::Bool(b)) => *b,
        _ => false,
    }
}

/// The joined `text` of the runs that have one.
pub open spec fn run_texts(rs: Seq<JsonV>) -> Seq<char>
    decreases rs.len(),
{
    if rs.len() == 0 {
        Seq::empty()
    } else {
        run_texts(rs.drop_last()) + match as_str(member(Some(rs.last()), "text"@)) {
            Some(t) => t,
            None => Seq::empty(),
        }
    }
}

/// The text of a node `{runs: […]}`, `{simpleText}` or `{content}`.
pub open spec fn text_of(o: Option<JsonV>) -> Option<Seq<char>> {
    match member(o, "runs"@) {
        Some(JsonV::Array(rs)) => Some(run_texts(rs)),
        _ => match as_str(member(o, "simpleText"@)) {
            Some(t) => Some(t),
            None => as_str(member(o, "content"@)),
        },
    }
}

/// The text of a node `{runs: […]}`, `{simpleText}` or `{content}`.
pub fn text_at(o: Option<&Json>) -> (r: Option<String>)
    ensures
        r.deep_view() == text_of(view_of(o)),
{
    let runs = at(o, "runs");
    match runs {
        Some(Json::Array(_)) => {
            let rs = items_at(runs);
            let ghost rv = items(view_of(runs));
            let mut out: Vec<char> = Vec::new();
            let mut i: usize = 0;
            while i < rs.len()
                invariant
                    i <= rs@.len(),
                    rs@.len() == rv.len(),
                    forall|m: int| 0 <= m < rs@.len() ==> #[trigger] jview(rs@[m]) == rv[m],
                    out@ == run_texts(rv.take(i as int)),
                decreases rs.len() - i,
            {
                assert(rv.take(i + 1).drop_last() =~= rv.take(i as int));
                match str_at(at(Some(&rs[i]), "text")) {
                    Some(t) => {
                        let tv = chars_of(t);
                        let mut k: usize = 0;
                        let ghost before = out@;
                        while k < tv.len()
                            invariant
                                k <= tv@.len(),
                                out@ == before + tv@.take(k as int),
                            decreases tv.len() - k,
                        {
                            out.push(tv[k]);
                            assert(tv@.take(k + 1) =~= tv@.take(k as int).push(tv@[k as int]));
                            k = k + 1;
                        }
                        assert(tv@.take(tv@.len() as int) =~= tv@);
                    },
                    None => {
                        assert(out@ =~= out@ + Seq::<char>::empty());
                    },
                }
                i = i + 1;
            }
            assert(rv.take(rv.len() as int) =~= rv);
            Some(string_of(&out))
        },
        _ => match string_at(at(o, "simpleText")) {
            Some(t) => Some(t),
            None => string_at(at(o, "content")),
        },
    }
}


/// A piece of a caption, with the link it may carry.
#[derive(Debug)]
pub struct Run<'a> {
    pub text: String,
    pub browse_id: Option<String>,
    pub page_type: Option<String>,
    pub watch_video_id: Option<String>,
    pub watch: Option<&'a Json>,
}

/// A piece of a caption as plain values.
pub struct RunV {
    pub text: Seq<char>,
    pub browse_id: Option<Seq<char>>,
    pub page_type: Option<Seq<char>>,
    pub watch_video_id: Option<Seq<char>>,
    pub watch: Option<JsonV>,
}

impl<'a> DeepView for Run<'a> {
    type V = RunV;

    open spec fn deep_view(&self) -> RunV {
        RunV {
            text: self.text@,
            browse_id: self.browse_id.deep_view(),
            page_type: self.page_type.deep_view(),
            watch_video_id: self.watch_video_id.deep_view(),
            watch: view_of(self.watch),
        }
    }
}

/// `navigationEndpoint.browseEndpoint` of a node.
pub open spec fn browse_of(node: Option<JsonV>) -> Option<JsonV> {
    member(member(node, "navigationEndpoint"@), "browseEndpoint"@)
}

/// The `pageType` of a `browseEndpoint`.
pub open spec fn page_type_of(browse: Option<JsonV>) -> Option<Seq<char>> {
    as_str(
        member(
            member(member(browse, "browseEndpointContextSupportedConfigs"@), "browseEndpointContextMusicConfig"@),
            "pageType"@,
        ),
    )
}

pub open spec fn text_or_empty(t: Option<Seq<char>>) -> Seq<char> {
    match t {
        Some(t) => t,
        None => Seq::empty(),
    }
}

/// A run of a caption: its text and where it leads.
pub open spec fn run_of(v: JsonV) -> RunV {
    let node = Some(v);
    let nav = member(node, "navigationEndpoint"@);
    let browse = browse_of(node);
    RunV {
        text: text_or_empty(as_str(member(node, "text"@))),
        browse_id: as_str(member(browse, "browseId"@)),
        page_type: page_type_of(browse),
        watch_video_id: as_str(member(member(nav, "watchEndpoint"@), "videoId"@)),
        watch: member(nav, "watchEndpoint"@),
    }
}

/// The runs of a caption node.
pub open spec fn runs_of(o: Option<JsonV>) -> Seq<RunV> {
    items(member(o, "runs"@)).map_values(|v: JsonV| run_of(v))
}

/// The separator between a caption's groups.
pub open spec fn is_separator(r: RunV) -> bool {
    r.text == " • "@ || r.text == " · "@ || r.text == "•"@
}

/// The `pageType` of a `browseEndpoint`.
pub fn page_type_at<'a>(browse: Option<&'a Json>) -> (r: Option<&'a str>)
    ensures
        str_view(r) == page_type_of(view_of(browse)),
{
    str_at(at(at(at(browse, "browseEndpointContextSupportedConfigs"), "browseEndpointContextMusicConfig"), "pageType"))
}

impl<'a> Run<'a> {
    /// The separator " • ".
    pub fn separator() -> (r: Run<'static>)
        ensures
            r.deep_view() == (RunV { text: " • "@, browse_id: None, page_type: None, watch_video_id: None, watch: None }),
    {
        Run { text: string_of(&lit(" • ")), browse_id: None, page_type: None, watch_video_id: None, watch: None }
    }

    pub fn from(node: &'a Json) -> (r: Run<'a>)
        ensures
            r.deep_view() == run_of(jview(*node)),
    {
        let n = Some(node);
        let nav = at(n, "navigationEndpoint");
        let browse = at(nav, "browseEndpoint");
        let text = match string_at(at(n, "text")) {
            Some(t) => t,
            None => String::new(),
        };
        Run {
            text,
            browse_id: string_at(at(browse, "browseId")),
            page_type: match page_type_at(browse) {
                Some(t) => Some(t.to_owned()),
                None => None,
            },
            watch_video_id: string_at(at(at(nav, "watchEndpoint"), "videoId")),
            watch: at(nav, "watchEndpoint"),
        }
    }

    pub fn is_separator(&self) -> (b: bool)
        ensures
            b == is_separator(self.deep_view()),
    {
        let t = chars_of(self.text.as_str());
        chars_eq(&t, &lit(" • ")) || chars_eq(&t, &lit(" · ")) || chars_eq(&t, &lit("•"))
    }
}

/// The runs of a caption node.
pub fn runs_at<'a>(o: Option<&'a Json>) -> (r: Vec<Run<'a>>)
    ensures
        r.deep_view() == runs_of(view_of(o)),
{
    let rs = items_at(at(o, "runs"));
    let ghost rv = items(member(view_of(o), "runs"@));
    let mut out: Vec<Run<'a>> = Vec::new();
    let mut i: usize = 0;
    while i < rs.len()
        invariant
            i <= rs@.len(),
            rs@.len() == rv.len(),
            forall|m: int| 0 <= m < rs@.len() ==> #[trigger] jview(rs@[m]) == rv[m],
            out@.len() == i,
            forall|m: int| 0 <= m < i ==> #[trigger] out@[m].deep_view() == run_of(rv[m]),
        decreases rs.len() - i,
    {
        out.push(Run::from(&rs[i]));
        i = i + 1;
    }
    assert(out.deep_view() =~= runs_of(view_of(o)));
    out
}

/// The width of a cover image entry (0 without one).
pub open spec fn width_of(v: JsonV) -> i64 {
    match int_of(member(Some(v), "width"@)) {
        Some(w) => w,
        None => 0,
    }
}

/// The widest entry; of several as wide, the last.
pub open spec fn widest(ts: Seq<JsonV>) -> int
    decreases ts.len(),
{
    if ts.len() <= 1 {
        0
    } else {
        let b = widest(ts.drop_last());
        if width_of(ts.last()) >= width_of(ts[b]) { ts.len() - 1 } else { b }
    }
}

proof fn lemma_widest(ts: Seq<JsonV>)
    requires
        ts.len() >= 1,
    ensures
        0 <= widest(ts) < ts.len(),
    decreases ts.len(),
{
    if ts.len() > 1 {
        lemma_widest(ts.drop_last());
    }
}

/// The largest cover image of a `thumbnails` array.
pub open spec fn best_thumbnail_of(o: Option<JsonV>) -> Option<Seq<char>> {
    let ts = items(o);
    if ts.len() == 0 { None } else { as_str(member(Some(ts[widest(ts)]), "url"@)) }
}

/// The largest cover image of a `thumbnails` array.
pub fn best_thumbnail_at(o: Option<&Json>) -> (r: Option<String>)
    ensures
        r.deep_view() == best_thumbnail_of(view_of(o)),
{
    let ts = items_at(o);
    let ghost tv = items(view_of(o));
    if ts.len() == 0 {
        return None;
    }
    let mut best: usize = 0;
    let mut best_width: i64 = match i64_at(at(Some(&ts[0]), "width")) {
        Some(w) => w,
        None => 0,
    };
    let mut i: usize = 1;
    assert(tv.take(1).len() == 1);
    while i < ts.len()
        invariant
            1 <= i <= ts@.len(),
            ts@.len() == tv.len(),
            forall|m: int| 0 <= m < ts@.len() ==> #[trigger] jview(ts@[m]) == tv[m],
            best < i,
            best as int == widest(tv.take(i as int)),
            best_width == width_of(tv[best as int]),
        decreases ts.len() - i,
    {
        let w = match i64_at(at(Some(&ts[i]), "width")) {
            Some(w) => w,
            None => 0,
        };
        proof {
            assert(tv.take(i + 1).drop_last() =~= tv.take(i as int));
            assert(tv.take(i + 1).last() == tv[i as int]);
            assert(tv.take(i + 1)[best as int] == tv[best as int]);
        }
        if w >= best_width {
            best = i;
            best_width = w;
        }
        i = i + 1;
    }
    assert(tv.take(tv.len() as int) =~= tv);
    string_at(at(Some(&ts[best]), "url"))
}


/// Every non-null value under `key`, depth first, in order: where a member has the key, what
/// lies inside it is not searched.
pub open spec fn found_all(v: JsonV, key: Seq<char>) -> Seq<JsonV>
    decreases v, 1int, 0int,
{
    match v {
        JsonV::Object(ps) => found_pairs(v, key, ps.len() as int),
        JsonV::Array(a) => found_items(v, key, a.len() as int),
        _ => Seq::empty(),
    }
}

/// What the first `n` members of an object hold under `key`.
pub open spec fn found_pairs(v: JsonV, key: Seq<char>, n: int) -> Seq<JsonV>
    decreases v, 0int, n,
{
    match v {
        JsonV::Object(ps) => if n <= 0 || n > ps.len() {
            Seq::empty()
        } else {
            let before = found_pairs(v, key, n - 1);
            proof {
                assert(decreases_to!(v => ps[n - 1].1));
            }
            if ps[n - 1].1 is Null {
                before
            } else if ps[n - 1].0 == key {
                before.push(ps[n - 1].1)
            } else {
                before + found_all(ps[n - 1].1, key)
            }
        },
        _ => Seq::empty(),
    }
}

/// What the first `n` elements of an array hold under `key`.
pub open spec fn found_items(v: JsonV, key: Seq<char>, n: int) -> Seq<JsonV>
    decreases v, 0int, n,
{
    match v {
        JsonV::Array(a) => if n <= 0 || n > a.len() {
            Seq::empty()
        } else {
            proof {
                assert(decreases_to!(v => a[n - 1]));
            }
            found_items(v, key, n - 1) + found_all(a[n - 1], key)
        },
        _ => Seq::empty(),
    }
}

pub open spec fn refs_view(v: Seq<&Json>) -> Seq<JsonV> {
    v.map_values(|r: &Json| jview(*r))
}

fn collect<'a>(node: &'a Json, key: &String, found: &mut Vec<&'a Json>)
    ensures
        refs_view(final(found)@) == refs_view(old(found)@) + found_all(jview(*node), key@),
    decreases node,
{
    let ghost start = refs_view(found@);
    match node {
        Json::Object(m) => {
            proof {
                lemma_object(*node);
            }
            let ghost v = jview(*node);
            let mut i: usize = 0;
            assert(found_pairs(v, key@, 0) =~= Seq::<JsonV>::empty());
            assert(refs_view(found@) =~= start + found_pairs(v, key@, 0));
            while i < m.len()
                invariant
                    i <= m@.len(),
                    *node == Json::Object(*m),
                    v == jview(*node),
                    v is Object,
                    v->Object_0.len() == m@.len(),
                    forall|k: int| 0 <= k < m@.len() ==> #[trigger] v->Object_0[k] == (m@[k].0@, jview(m@[k].1)),
                    refs_view(found@) == start + found_pairs(v, key@, i as int),
                decreases m.len() - i,
            {
                let ghost before = refs_view(found@);
                assert(v->Object_0[i as int] == (m@[i as int].0@, jview(m@[i as int].1)));
                let value = &m[i].1;
                let is_null = match value {
                    Json::Null => true,
                    _ => false,
                };
                if is_null {
                } else if m[i].0 == *key {
                    found.push(value);
                    assert(refs_view(found@) =~= before.push(jview(*value)));
                } else {
                    proof {
                        assert(decreases_to!(*node => (*node)->Object_0));
                        assert(decreases_to!((*node)->Object_0 => (*node)->Object_0@));
                        assert(decreases_to!((*node)->Object_0@ => (*node)->Object_0@[i as int]));
                        assert(decreases_to!((*node)->Object_0@[i as int] => (*node)->Object_0@[i as int].1));
                    }
                    collect(value, key, found);
                }
                i = i + 1;
            }
        },
        Json::Array(a) => {
            proof {
                lemma_array(*node);
            }
            let ghost v = jview(*node);
            let mut i: usize = 0;
            assert(refs_view(found@) =~= start + found_items(v, key@, 0));
            while i < a.len()
                invariant
                    i <= a@.len(),
                    *node == Json::Array(*a),
                    v == jview(*node),
                    v is Array,
                    v->Array_0.len() == a@.len(),
                    forall|k: int| 0 <= k < a@.len() ==> #[trigger] v->Array_0[k] == jview(a@[k]),
                    refs_view(found@) == start + found_items(v, key@, i as int),
                decreases a.len() - i,
            {
                proof {
                    assert(decreases_to!(*node => (*node)->Array_0));
                    assert(decreases_to!((*node)->Array_0 => (*node)->Array_0@));
                    assert(decreases_to!((*node)->Array_0@ => (*node)->Array_0@[i as int]));
                }
                assert(v->Array_0[i as int] == jview(a@[i as int]));
                collect(&a[i], key, found);
                i = i + 1;
            }
        },
        _ => {
            assert(refs_view(found@) =~= start + found_all(jview(*node), key@));
        },
    }
}

/// Every non-null value under `key`, depth first.
pub fn find_all<'a>(node: Option<&'a Json>, key: &str) -> (r: Vec<&'a Json>)
    ensures
        refs_view(r@) == match view_of(node) {
            Some(v) => found_all(v, key@),
            None => Seq::empty(),
        },
{
    let mut found: Vec<&'a Json> = Vec::new();
    match node {
        Some(n) => {
            let k = key.to_owned();
            collect(n, &k, &mut found);
            assert(refs_view(Seq::<&Json>::empty()) =~= Seq::<JsonV>::empty());
        },
        None => {
            assert(refs_view(found@) =~= Seq::<JsonV>::empty());
        },
    }
    found
}


/// The first value under `key`, depth first: a member with the key (not `null`) before what lies
/// deeper, then the members (or elements) in order.
pub open spec fn found_first(v: JsonV, key: Seq<char>) -> Option<JsonV>
    decreases v, 1int, 0int,
{
    match v {
        JsonV::Object(ps) => match lookup(ps, key) {
            Some(d) => if d is Null { first_in_pairs(v, key, 0) } else { Some(d) },
            None => first_in_pairs(v, key, 0),
        },
        JsonV::Array(a) => first_in_items(v, key, 0),
        _ => None,
    }
}

/// The first value under `key` among the members of an object from the `i`-th.
pub open spec fn first_in_pairs(v: JsonV, key: Seq<char>, i: int) -> Option<JsonV>
    decreases v, 0int, (match v {
        JsonV::Object(ps) => ps.len() - i,
        _ => 0,
    }),
{
    match v {
        JsonV::Object(ps) => if i < 0 || i >= ps.len() {
            None
        } else {
            proof {
                assert(decreases_to!(v => ps[i].1));
            }
            match found_first(ps[i].1, key) {
                Some(x) => Some(x),
                None => first_in_pairs(v, key, i + 1),
            }
        },
        _ => None,
    }
}

/// The first value under `key` among the elements of an array from the `i`-th.
pub open spec fn first_in_items(v: JsonV, key: Seq<char>, i: int) -> Option<JsonV>
    decreases v, 0int, (match v {
        JsonV::Array(a) => a.len() - i,
        _ => 0,
    }),
{
    match v {
        JsonV::Array(a) => if i < 0 || i >= a.len() {
            None
        } else {
            proof {
                assert(decreases_to!(v => a[i]));
            }
            match found_first(a[i], key) {
                Some(x) => Some(x),
                None => first_in_items(v, key, i + 1),
            }
        },
        _ => None,
    }
}

fn find_in<'a>(node: &'a Json, key: &String) -> (r: Option<&'a Json>)
    ensures
        view_of(r) == found_first(jview(*node), key@),
    decreases node,
{
    match node {
        Json::Object(m) => {
            proof {
                lemma_object(*node);
            }
            let ghost v = jview(*node);
            let k: &str = key.as_str();
            let direct = at(Some(node), k);
            match direct {
                Some(Json::Null) => {},
                Some(d) => return Some(d),
                None => {},
            }
            let mut i: usize = 0;
            while i < m.len()
                invariant
                    i <= m@.len(),
                    *node == Json::Object(*m),
                    v == jview(*node),
                    v is Object,
                    v->Object_0.len() == m@.len(),
                    forall|j: int| 0 <= j < m@.len() ==> #[trigger] v->Object_0[j] == (m@[j].0@, jview(m@[j].1)),
                    found_first(v, key@) == first_in_pairs(v, key@, i as int),
                decreases m.len() - i,
            {
                proof {
                    assert(decreases_to!(*node => (*node)->Object_0));
                    assert(decreases_to!((*node)->Object_0 => (*node)->Object_0@));
                    assert(decreases_to!((*node)->Object_0@ => (*node)->Object_0@[i as int]));
                    assert(decreases_to!((*node)->Object_0@[i as int] => (*node)->Object_0@[i as int].1));
                }
                assert(v->Object_0[i as int] == (m@[i as int].0@, jview(m@[i as int].1)));
                match find_in(&m[i].1, key) {
                    Some(x) => return Some(x),
                    None => {},
                }
                i = i + 1;
            }
            None
        },
        Json::Array(a) => {
            proof {
                lemma_array(*node);
            }
            let ghost v = jview(*node);
            let mut i: usize = 0;
            while i < a.len()
                invariant
                    i <= a@.len(),
                    *node == Json::Array(*a),
                    v == jview(*node),
                    v is Array,
                    v->Array_0.len() == a@.len(),
                    forall|j: int| 0 <= j < a@.len() ==> #[trigger] v->Array_0[j] == jview(a@[j]),
                    found_first(v, key@) == first_in_items(v, key@, i as int),
                decreases a.len() - i,
            {
                proof {
                    assert(decreases_to!(*node => (*node)->Array_0));
                    assert(decreases_to!((*node)->Array_0 => (*node)->Array_0@));
                    assert(decreases_to!((*node)->Array_0@ => (*node)->Array_0@[i as int]));
                }
                assert(v->Array_0[i as int] == jview(a@[i as int]));
                match find_in(&a[i], key) {
                    Some(x) => return Some(x),
                    None => {},
                }
                i = i + 1;
            }
            None
        },
        _ => None,
    }
}

/// The first value under `key`, depth first.
pub fn find<'a>(node: Option<&'a Json>, key: &str) -> (r: Option<&'a Json>)
    ensures
        view_of(r) == match view_of(node) {
            Some(v) => found_first(v, key@),
            None => None,
        },
{
    match node {
        Some(n) => find_in(n, &key.to_owned()),
        None => None,
    }
}

} // verus!
