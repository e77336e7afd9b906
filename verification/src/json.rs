//! JSON as the library reads it: a tree of plain values.
use vstd::prelude::*;

verus! {

/// A JSON number as `serde_json` keeps it: a whole number, or one with a fraction or exponent,
/// which the library reads only by its whole part (toward zero, within `i64`, as `as i64` gives it).
#[derive(Clone, Copy, Debug, PartialEq, Eq, Structural)]
pub enum Num {
    PosInt(u64),
    NegInt(i64),
    Float(i64),
}

#[derive(Debug, PartialEq)]
pub enum Json {
    Null,
    Bool(bool),
    Number(Num),
    Str(String),
    Array(Vec<Json>),
    Object(Vec<(String, Json)>),
}

/// A JSON value as plain values.
pub enum JsonV {
    Null,
    Bool(bool),
    Number(Num),
    Str(Seq<char>),
    Array(Seq<JsonV>),
    Object(Seq<(Seq<char>, JsonV)>),
}

pub open spec fn jview(j: Json) -> JsonV
    decreases j,
{
    match j {
        Json::Null => JsonV::Null,
        Json::Bool(b) => JsonV::Bool(b),
        Json::Number(n) => JsonV::Number(n),
        Json::Str(s) => JsonV::Str(s@),
        Json::Array(v) => JsonV::Array(Seq::new(v@.len(), |i: int| {
            if 0 <= i < v@.len() {
                proof {
                    assert(decreases_to!(j => v@[i]));
                }
                jview(v@[i])
            } else {
                JsonV::Null
            }
        })),
        Json::Object(m) => JsonV::Object(Seq::new(m@.len(), |i: int| {
            if 0 <= i < m@.len() {
                proof {
                    assert(decreases_to!(j => m@[i].1));
                }
                (m@[i].0@, jview(m@[i].1))
            } else {
                (Seq::empty(), JsonV::Null)
            }
        })),
    }
}


/// A copy of a JSON value.
pub fn clone_json(j: &Json) -> (r: Json)
    ensures
        jview(r) == jview(*j),
    decreases j,
{
    match j {
        Json::Null => Json::Null,
        Json::Bool(b) => Json::Bool(*b),
        Json::Number(n) => Json::Number(*n),
        Json::Str(s) => Json::Str(s.clone()),
        Json::Array(v) => {
            let mut out: Vec<Json> = Vec::new();
            let mut i: usize = 0;
            while i < v.len()
                invariant
                    i <= v@.len(),
                    *j == Json::Array(*v),
                    out@.len() == i,
                    forall|m: int| 0 <= m < i ==> #[trigger] jview(out@[m]) == jview(v@[m]),
                decreases v.len() - i,
            {
                proof {
                    assert(decreases_to!(*j => (*j)->Array_0));
                    assert(decreases_to!((*j)->Array_0 => (*j)->Array_0@));
                    assert(decreases_to!((*j)->Array_0@ => (*j)->Array_0@[i as int]));
                }
                out.push(clone_json(&v[i]));
                i = i + 1;
            }
            let r = Json::Array(out);
            proof {
                lemma_array(r);
                lemma_array(*j);
                assert(jview(r)->Array_0 =~= jview(*j)->Array_0);
            }
            r
        },
        Json::Object(m) => {
            let mut out: Vec<(String, Json)> = Vec::new();
            let mut i: usize = 0;
            while i < m.len()
                invariant
                    i <= m@.len(),
                    *j == Json::Object(*m),
                    out@.len() == i,
                    forall|k: int| 0 <= k < i ==> #[trigger] out@[k] == (m@[k].0, out@[k].1),
                    forall|k: int| 0 <= k < i ==> #[trigger] jview(out@[k].1) == jview(m@[k].1),
                decreases m.len() - i,
            {
                proof {
                    assert(decreases_to!(*j => (*j)->Object_0));
                    assert(decreases_to!((*j)->Object_0 => (*j)->Object_0@));
                    assert(decreases_to!((*j)->Object_0@ => (*j)->Object_0@[i as int]));
                    assert(decreases_to!((*j)->Object_0@[i as int] => (*j)->Object_0@[i as int].1));
                }
                let value = clone_json(&m[i].1);
                let key = m[i].0.clone();
                out.push((key, value));
                i = i + 1;
            }
            let r = Json::Object(out);
            proof {
                lemma_object(r);
                lemma_object(*j);
                assert(jview(r)->Object_0 =~= jview(*j)->Object_0);
            }
            r
        },
    }
}


pub proof fn lemma_object(j: Json)
    requires
        j is Object,
    ensures
        jview(j) is Object,
        jview(j)->Object_0.len() == j->Object_0@.len(),
        forall|i: int|
            0 <= i < j->Object_0@.len() ==> #[trigger] jview(j)->Object_0[i] == (j->Object_0@[i].0@, jview(
                j->Object_0@[i].1,
            )),
{
}

pub proof fn lemma_array(j: Json)
    requires
        j is Array,
    ensures
        jview(j) is Array,
        jview(j)->Array_0.len() == j->Array_0@.len(),
        forall|i: int| 0 <= i < j->Array_0@.len() ==> #[trigger] jview(j)->Array_0[i] == jview(j->Array_0@[i]),
{
}


/// Whether two JSON values are the same value.
pub fn json_eq(a: &Json, b: &Json) -> (r: bool)
    ensures
        r == (jview(*a) == jview(*b)),
    decreases a,
{
    match (a, b) {
        (Json::Null, Json::Null) => true,
        (Json::Bool(x), Json::Bool(y)) => *x == *y,
        (Json::Number(x), Json::Number(y)) => *x == *y,
        (Json::Str(x), Json::Str(y)) => *x == *y,
        (Json::Array(x), Json::Array(y)) => {
            proof {
                lemma_array(*a);
                lemma_array(*b);
            }
            if x.len() != y.len() {
                assert(jview(*a)->Array_0.len() != jview(*b)->Array_0.len());
                return false;
            }
            let mut i: usize = 0;
            while i < x.len()
                invariant
                    i <= x@.len(),
                    x@.len() == y@.len(),
                    *a == Json::Array(*x),
                    *b == Json::Array(*y),
                    jview(*a)->Array_0.len() == x@.len(),
                    jview(*b)->Array_0.len() == y@.len(),
                    forall|k: int| 0 <= k < x@.len() ==> #[trigger] jview(*a)->Array_0[k] == jview(x@[k]),
                    forall|k: int| 0 <= k < y@.len() ==> #[trigger] jview(*b)->Array_0[k] == jview(y@[k]),
                    forall|k: int| 0 <= k < i ==> jview(x@[k]) == jview(y@[k]),
                decreases x.len() - i,
            {
                proof {
                    assert(decreases_to!(*a => (*a)->Array_0));
                    assert(decreases_to!((*a)->Array_0 => (*a)->Array_0@));
                    assert(decreases_to!((*a)->Array_0@ => (*a)->Array_0@[i as int]));
                }
                if !json_eq(&x[i], &y[i]) {
                    assert(jview(*a)->Array_0[i as int] != jview(*b)->Array_0[i as int]);
                    return false;
                }
                i = i + 1;
            }
            assert(jview(*a)->Array_0 =~= jview(*b)->Array_0);
            true
        },
        (Json::Object(x), Json::Object(y)) => {
            proof {
                lemma_object(*a);
                lemma_object(*b);
            }
            if x.len() != y.len() {
                assert(jview(*a)->Object_0.len() != jview(*b)->Object_0.len());
                return false;
            }
            let mut i: usize = 0;
            while i < x.len()
                invariant
                    i <= x@.len(),
                    x@.len() == y@.len(),
                    *a == Json::Object(*x),
                    *b == Json::Object(*y),
                    jview(*a)->Object_0.len() == x@.len(),
                    jview(*b)->Object_0.len() == y@.len(),
                    forall|k: int| 0 <= k < x@.len() ==> #[trigger] jview(*a)->Object_0[k] == (x@[k].0@, jview(x@[k].1)),
                    forall|k: int| 0 <= k < y@.len() ==> #[trigger] jview(*b)->Object_0[k] == (y@[k].0@, jview(y@[k].1)),
                    forall|k: int| 0 <= k < i ==> x@[k].0@ == y@[k].0@ && jview(x@[k].1) == jview(y@[k].1),
                decreases x.len() - i,
            {
                proof {
                    assert(decreases_to!(*a => (*a)->Object_0));
                    assert(decreases_to!((*a)->Object_0 => (*a)->Object_0@));
                    assert(decreases_to!((*a)->Object_0@ => (*a)->Object_0@[i as int]));
                    assert(decreases_to!((*a)->Object_0@[i as int] => (*a)->Object_0@[i as int].1));
                }
                if !(x[i].0 == y[i].0) || !json_eq(&x[i].1, &y[i].1) {
                    assert(jview(*a)->Object_0[i as int] != jview(*b)->Object_0[i as int]);
                    return false;
                }
                i = i + 1;
            }
            assert(jview(*a)->Object_0 =~= jview(*b)->Object_0);
            true
        },
        _ => false,
    }
}

} // verus!
