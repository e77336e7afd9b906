//! Facts about sequences that the queue and the parsers share: first matches, permutations.
use vstd::prelude::*;

verus! {

/// The index of the first element of `s` that satisfies `p`, or `s.len()` where none does.
pub open spec fn first_where<A>(s: Seq<A>, p: spec_fn(A) -> bool) -> nat
    decreases s.len(),
{
    if s.len() == 0 {
        0
    } else {
        let f = first_where(s.drop_last(), p);
        if f < s.len() - 1 {
            f
        } else if p(s.last()) {
            (s.len() - 1) as nat
        } else {
            s.len()
        }
    }
}

/// `first_where` is the one index below which nothing matches and at which something does.
pub proof fn lemma_first_where<A>(s: Seq<A>, p: spec_fn(A) -> bool, n: int)
    requires
        0 <= n <= s.len(),
        forall|k: int| 0 <= k < n ==> !p(#[trigger] s[k]),
        n < s.len() ==> p(s[n]),
    ensures
        first_where(s, p) == n,
    decreases s.len(),
{
    if s.len() > 0 {
        if n < s.len() {
            if n < s.len() - 1 {
                lemma_first_where(s.drop_last(), p, n);
            } else {
                lemma_first_where(s.drop_last(), p, n);
            }
        } else {
            lemma_first_where(s.drop_last(), p, n - 1);
        }
    }
}

/// What `first_where` tells of the elements before and at it.
pub proof fn lemma_first_where_props<A>(s: Seq<A>, p: spec_fn(A) -> bool)
    ensures
        first_where(s, p) <= s.len(),
        forall|k: int| 0 <= k < first_where(s, p) ==> !p(#[trigger] s[k]),
        first_where(s, p) < s.len() ==> p(s[first_where(s, p) as int]),
    decreases s.len(),
{
    if s.len() > 0 {
        lemma_first_where_props(s.drop_last(), p);
        let f = first_where(s.drop_last(), p);
        assert forall|k: int| 0 <= k < first_where(s, p) implies !p(#[trigger] s[k]) by {
            if k < s.len() - 1 {
                assert(s[k] == s.drop_last()[k]);
            }
        }
    }
}

/// The elements of `s` are pairwise different.
pub open spec fn distinct<A>(s: Seq<A>) -> bool {
    forall|i: int, j: int| 0 <= i < s.len() && 0 <= j < s.len() && i != j ==> s[i] != s[j]
}

/// `o` orders the indices `0..n`: each once.
pub open spec fn is_perm(o: Seq<usize>, n: nat) -> bool {
    &&& o.len() == n
    &&& forall|i: int| 0 <= i < o.len() ==> #[trigger] o[i] < n
    &&& distinct(o)
}

/// `a, a + 1, …, a + n - 1`.
pub open spec fn range(a: int, n: nat) -> Seq<usize> {
    Seq::new(n, |k: int| (a + k) as usize)
}

/// `p` holds the elements of `c`, each once, in some order (`c` is itself without repeats).
pub open spec fn same_elements(p: Seq<usize>, c: Seq<usize>) -> bool {
    &&& p.len() == c.len()
    &&& distinct(p)
    &&& forall|i: int| 0 <= i < p.len() ==> c.contains(#[trigger] p[i])
}

/// The test "equals `x`".
pub open spec fn equals(x: usize) -> spec_fn(usize) -> bool {
    |y: usize| y == x
}

/// The position of `x` in `o`, where it occurs once.
pub open spec fn pos_of(o: Seq<usize>, x: usize) -> int {
    first_where(o, equals(x)) as int
}

pub proof fn lemma_pos_of(o: Seq<usize>, x: usize, p: int)
    requires
        distinct(o),
        0 <= p < o.len(),
        o[p] == x,
    ensures
        pos_of(o, x) == p,
{
    lemma_first_where(o, equals(x), p);
}

/// Without repeats, indices below `m` are at most `m` many.
pub proof fn lemma_distinct_bounded_len(o: Seq<usize>, m: nat)
    requires
        distinct(o),
        forall|i: int| 0 <= i < o.len() ==> #[trigger] o[i] < m,
    ensures
        o.len() <= m,
    decreases m,
{
    if m == 0 {
        if o.len() > 0 {
            assert(o[0] < 0);
        }
    } else {
        let top = (m - 1) as usize;
        if o.contains(top) {
            let p = choose|p: int| 0 <= p < o.len() && o[p] == top;
            let o2 = o.remove(p);
            assert forall|i: int| 0 <= i < o2.len() implies #[trigger] o2[i] < (m - 1) as nat by {
                if i < p {
                    assert(o2[i] == o[i]);
                } else {
                    assert(o2[i] == o[i + 1]);
                }
            }
            assert(distinct(o2)) by {
                assert forall|i: int, j: int| 0 <= i < o2.len() && 0 <= j < o2.len() && i != j implies o2[i] != o2[j] by {
                    let oi = if i < p { i } else { i + 1 };
                    let oj = if j < p { j } else { j + 1 };
                    assert(o2[i] == o[oi]);
                    assert(o2[j] == o[oj]);
                }
            }
            lemma_distinct_bounded_len(o2, (m - 1) as nat);
        } else {
            assert forall|i: int| 0 <= i < o.len() implies #[trigger] o[i] < (m - 1) as nat by {
                assert(o[i] != top);
            }
            lemma_distinct_bounded_len(o, (m - 1) as nat);
        }
    }
}

/// An ordering of `0..n` holds every index below `n`.
pub proof fn lemma_perm_contains(o: Seq<usize>, n: nat, x: usize)
    requires
        is_perm(o, n),
        x < n,
    ensures
        o.contains(x),
{
    if !o.contains(x) {
        let o2 = o.map_values(|v: usize| if v > x { (v - 1) as usize } else { v });
        assert forall|i: int| 0 <= i < o2.len() implies #[trigger] o2[i] < (n - 1) as nat by {
            assert(o[i] != x);
        }
        assert(distinct(o2)) by {
            assert forall|i: int, j: int| 0 <= i < o2.len() && 0 <= j < o2.len() && i != j implies o2[i] != o2[j] by {
                assert(o[i] != x && o[j] != x && o[i] != o[j]);
            }
        }
        lemma_distinct_bounded_len(o2, (n - 1) as nat);
    }
}

/// Copies a sequence of indices.
pub fn copy_indices(v: &Vec<usize>) -> (r: Vec<usize>)
    ensures
        r@ == v@,
{
    let mut r: Vec<usize> = Vec::new();
    let mut i: usize = 0;
    while i < v.len()
        invariant
            i <= v.len(),
            r@ == v@.take(i as int),
        decreases v.len() - i,
    {
        r.push(v[i]);
        assert(v@.take(i as int).push(v@[i as int]) =~= v@.take(i + 1));
        i = i + 1;
    }
    assert(v@.take(v.len() as int) =~= v@);
    r
}

/// The position of `x` in `v`, or `None`.
pub fn position_of(v: &Vec<usize>, x: usize) -> (r: Option<usize>)
    ensures
        match r {
            Some(p) => p == first_where(v@, equals(x)) && p < v.len() && v@[p as int] == x,
            None => first_where(v@, equals(x)) == v.len() && !v@.contains(x),
        },
{
    let mut i: usize = 0;
    while i < v.len()
        invariant
            i <= v.len(),
            forall|k: int| 0 <= k < i ==> v@[k] != x,
        decreases v.len() - i,
    {
        if v[i] == x {
            proof {
                lemma_first_where(v@, equals(x), i as int);
            }
            return Some(i);
        }
        i = i + 1;
    }
    proof {
        lemma_first_where(v@, equals(x), v.len() as int);
    }
    None
}


/// The indices of `o`, those from `at` on moved up by `count`.
pub open spec fn shift_up(o: Seq<usize>, at: int, count: int) -> Seq<usize> {
    o.map_values(|i: usize| if i >= at { (i + count) as usize } else { i })
}

/// `s` put into `o` before position `p`.
pub open spec fn insert_seq(o: Seq<usize>, p: int, s: Seq<usize>) -> Seq<usize> {
    o.take(p) + s + o.skip(p)
}

/// Making room for `count` new indices at `at` and putting them anywhere keeps an ordering.
pub proof fn lemma_insert_perm(o: Seq<usize>, n: nat, at: int, count: nat, p: int)
    requires
        is_perm(o, n),
        0 <= at <= n,
        0 <= p <= n,
        n + count <= usize::MAX,
    ensures
        is_perm(insert_seq(shift_up(o, at, count as int), p, range(at, count)), n + count),
{
    let sh = shift_up(o, at, count as int);
    let g = range(at, count);
    let r = insert_seq(sh, p, g);
    assert(r.len() == n + count);
    assert forall|t: int| 0 <= t < r.len() implies
        (t < p ==> r[t] == sh[t]) && (p <= t < p + count ==> r[t] == at + (t - p))
            && (p + count <= t ==> r[t] == sh[t - count]) by {}
    assert forall|k: int| 0 <= k < sh.len() implies (#[trigger] sh[k] < at || sh[k] >= at + count) && sh[k] < n + count by {
        assert(o[k] < n);
    }
    assert forall|t: int| 0 <= t < r.len() implies #[trigger] r[t] < n + count by {
        if t < p {
            assert(sh[t] < n + count);
        } else if t >= p + count {
            assert(sh[t - count] < n + count);
        }
    }
    assert forall|i: int, j: int| 0 <= i < r.len() && 0 <= j < r.len() && i != j implies r[i] != r[j] by {
        let si = if i < p { i } else { i - count };
        let sj = if j < p { j } else { j - count };
        if (i < p || i >= p + count) && (j < p || j >= p + count) {
            assert(r[i] == sh[si]);
            assert(r[j] == sh[sj]);
            assert(o[si] != o[sj]);
        } else if (i < p || i >= p + count) {
            assert(r[i] == sh[si]);
        } else if (j < p || j >= p + count) {
            assert(r[j] == sh[sj]);
        }
    }
}

/// Indices all below `at` stay where they are when room is made at `at`.
pub proof fn lemma_shift_up_below(o: Seq<usize>, at: int, count: int)
    requires
        forall|i: int| 0 <= i < o.len() ==> #[trigger] o[i] < at,
    ensures
        shift_up(o, at, count) == o,
{
    assert(shift_up(o, at, count) =~= o);
}

/// Keeps the elements of `o` for which `keep` holds, each renumbered by `f`.
pub open spec fn renumber(o: Seq<usize>, keep: spec_fn(usize) -> bool, f: spec_fn(usize) -> usize) -> Seq<usize>
    decreases o.len(),
{
    if o.len() == 0 {
        Seq::empty()
    } else {
        let r = renumber(o.drop_last(), keep, f);
        if keep(o.last()) { r.push(f(o.last())) } else { r }
    }
}

/// `v` is the renumbering of a kept element of `o`.
pub open spec fn from_kept(o: Seq<usize>, keep: spec_fn(usize) -> bool, f: spec_fn(usize) -> usize, v: usize) -> bool {
    exists|k: int| 0 <= k < o.len() && keep(#[trigger] o[k]) && f(o[k]) == v
}

/// The elements of `renumber` are the renumbered kept elements of `o`.
pub proof fn lemma_renumber_members(o: Seq<usize>, keep: spec_fn(usize) -> bool, f: spec_fn(usize) -> usize)
    ensures
        forall|t: int| 0 <= t < renumber(o, keep, f).len() ==> from_kept(o, keep, f, #[trigger] renumber(o, keep, f)[t]),
        forall|k: int| 0 <= k < o.len() && keep(#[trigger] o[k]) ==> renumber(o, keep, f).contains(f(o[k])),
    decreases o.len(),
{
    if o.len() > 0 {
        let d = o.drop_last();
        lemma_renumber_members(d, keep, f);
        let r = renumber(o, keep, f);
        let rd = renumber(d, keep, f);
        assert forall|t: int| 0 <= t < r.len() implies from_kept(o, keep, f, #[trigger] r[t]) by {
            if t < rd.len() {
                assert(r[t] == rd[t]);
                assert(from_kept(d, keep, f, rd[t]));
                let k = choose|k: int| 0 <= k < d.len() && keep(#[trigger] d[k]) && f(d[k]) == rd[t];
                assert(o[k] == d[k]);
            } else {
                assert(r[t] == f(o[o.len() - 1]));
                assert(keep(o[o.len() - 1]));
            }
        }
        assert forall|k: int| 0 <= k < o.len() && keep(#[trigger] o[k]) implies r.contains(f(o[k])) by {
            if k < d.len() {
                assert(d[k] == o[k]);
                assert(rd.contains(f(d[k])));
                let t = choose|t: int| 0 <= t < rd.len() && rd[t] == f(d[k]);
                assert(r[t] == rd[t]);
            } else {
                assert(r[r.len() - 1] == f(o[k]));
            }
        }
    }
}

/// Distinct kept elements renumbered one to one stay distinct.
pub proof fn lemma_renumber_distinct(o: Seq<usize>, keep: spec_fn(usize) -> bool, f: spec_fn(usize) -> usize)
    requires
        distinct(o),
        forall|i: usize, j: usize| #![trigger f(i), f(j)] keep(i) && keep(j) && i != j ==> f(i) != f(j),
    ensures
        distinct(renumber(o, keep, f)),
    decreases o.len(),
{
    if o.len() > 0 {
        let d = o.drop_last();
        assert(distinct(d)) by {
            assert forall|i: int, j: int| 0 <= i < d.len() && 0 <= j < d.len() && i != j implies d[i] != d[j] by {
                assert(d[i] == o[i] && d[j] == o[j]);
            }
        }
        lemma_renumber_distinct(d, keep, f);
        lemma_renumber_members(d, keep, f);
        let rd = renumber(d, keep, f);
        if keep(o.last()) {
            assert forall|t: int| 0 <= t < rd.len() implies rd[t] != f(o.last()) by {
                assert(from_kept(d, keep, f, rd[t]));
                let k = choose|k: int| 0 <= k < d.len() && keep(#[trigger] d[k]) && f(d[k]) == rd[t];
                assert(d[k] == o[k]);
                assert(o[k] != o[o.len() - 1]);
            }
        }
    }
}

/// Every index below `u` occurs in `s`: then `s` has at least `u` elements.
pub proof fn lemma_covering_len(s: Seq<usize>, u: nat)
    requires
        u <= usize::MAX,
        forall|x: usize| x < u ==> s.contains(x),
    ensures
        s.len() >= u,
    decreases u,
{
    if u > 0 {
        let top = (u - 1) as usize;
        assert(s.contains(top));
        let p = choose|p: int| 0 <= p < s.len() && s[p] == top;
        let s2 = s.remove(p);
        assert forall|x: usize| x < (u - 1) as nat implies s2.contains(x) by {
            assert(s.contains(x));
            let q = choose|q: int| 0 <= q < s.len() && s[q] == x;
            if q < p {
                assert(s2[q] == x);
            } else {
                assert(q != p);
                assert(s2[q - 1] == x);
            }
        }
        lemma_covering_len(s2, (u - 1) as nat);
    }
}

/// Some kept index below `n` is renumbered to `x`.
pub open spec fn reached(n: nat, keep: spec_fn(usize) -> bool, f: spec_fn(usize) -> usize, x: usize) -> bool {
    exists|i: usize| i < n && keep(i) && #[trigger] f(i) == x
}

/// Renumbering the kept indices of an ordering one to one onto `0..m` gives an ordering of `0..m`.
pub proof fn lemma_renumber_perm(o: Seq<usize>, n: nat, keep: spec_fn(usize) -> bool, f: spec_fn(usize) -> usize, m: nat)
    requires
        is_perm(o, n),
        forall|i: usize, j: usize| #![trigger f(i), f(j)] keep(i) && keep(j) && i != j ==> f(i) != f(j),
        forall|i: usize| i < n && keep(i) ==> #[trigger] f(i) < m,
        forall|x: usize| x < m ==> #[trigger] reached(n, keep, f, x),
        m <= usize::MAX,
    ensures
        is_perm(renumber(o, keep, f), m),
{
    let r = renumber(o, keep, f);
    lemma_renumber_members(o, keep, f);
    lemma_renumber_distinct(o, keep, f);
    assert forall|t: int| 0 <= t < r.len() implies #[trigger] r[t] < m by {
        assert(from_kept(o, keep, f, r[t]));
        let k = choose|k: int| 0 <= k < o.len() && keep(#[trigger] o[k]) && f(o[k]) == r[t];
        assert(o[k] < n);
    }
    lemma_distinct_bounded_len(r, m);
    assert forall|x: usize| x < m implies r.contains(x) by {
        assert(reached(n, keep, f, x));
        let i = choose|i: usize| i < n && keep(i) && #[trigger] f(i) == x;
        lemma_perm_contains(o, n, i);
        let k = choose|k: int| 0 <= k < o.len() && o[k] == i;
        assert(keep(o[k]));
    }
    lemma_covering_len(r, m);
}


/// Taking `x` out of an ordering and putting it back anywhere keeps an ordering.
pub proof fn lemma_move_perm(o: Seq<usize>, n: nat, p: int, t: int)
    requires
        is_perm(o, n),
        0 <= p < o.len(),
        0 <= t <= n - 1,
    ensures
        is_perm(o.remove(p).insert(t, o[p]), n),
{
    let x = o[p];
    let rest = o.remove(p);
    let r = rest.insert(t, x);
    assert forall|k: int| 0 <= k < rest.len() implies #[trigger] rest[k] != x && rest[k] < n by {
        if k < p {
            assert(rest[k] == o[k]);
        } else {
            assert(rest[k] == o[k + 1]);
        }
    }
    assert forall|i: int, j: int| 0 <= i < rest.len() && 0 <= j < rest.len() && i != j implies rest[i] != rest[j] by {
        let oi = if i < p { i } else { i + 1 };
        let oj = if j < p { j } else { j + 1 };
        assert(rest[i] == o[oi] && rest[j] == o[oj]);
    }
    assert forall|k: int| 0 <= k < r.len() implies #[trigger] r[k] < n by {
        if k < t {
            assert(r[k] == rest[k]);
        } else if k > t {
            assert(r[k] == rest[k - 1]);
        }
    }
    assert forall|i: int, j: int| 0 <= i < r.len() && 0 <= j < r.len() && i != j implies r[i] != r[j] by {
        let ri = if i < t { i } else { i - 1 };
        let rj = if j < t { j } else { j - 1 };
        if i != t && j != t {
            assert(r[i] == rest[ri] && r[j] == rest[rj]);
        } else if i == t {
            assert(r[j] == rest[rj]);
        } else {
            assert(r[i] == rest[ri]);
        }
    }
}


/// `a, a + 1, …, n - 1` without `x` where `current` holds it.
pub open spec fn range_except(a: int, n: int, current: Option<usize>) -> Seq<usize> {
    match current {
        Some(c) => if a <= c < n {
            range(a, (c - a) as nat) + range(c + 1, (n - 1 - c) as nat)
        } else {
            range(a, (n - a) as nat)
        },
        None => range(a, (n - a) as nat),
    }
}

/// What `range_except` holds: the indices from `a` below `n` but the excluded one, each once.
pub proof fn lemma_range_except(a: int, n: int, current: Option<usize>)
    requires
        0 <= a <= n <= usize::MAX + 1,
    ensures
        range_except(a, n, current).len() == n - a - if current matches Some(c) && a <= c < n { 1int } else { 0int },
        forall|k: int| 0 <= k < range_except(a, n, current).len() ==> {
            &&& a <= #[trigger] range_except(a, n, current)[k] < n
            &&& current != Some(range_except(a, n, current)[k])
        },
        distinct(range_except(a, n, current)),
        forall|x: usize| a <= x < n && current != Some(x) ==> #[trigger] range_except(a, n, current).contains(x),
{
    let r = range_except(a, n, current);
    match current {
        Some(c) => if a <= c < n {
            let lo = range(a, (c - a) as nat);
            let hi = range(c + 1, (n - 1 - c) as nat);
            assert forall|k: int| 0 <= k < r.len() implies
                (k < lo.len() ==> r[k] == a + k) && (k >= lo.len() ==> r[k] == c + 1 + (k - lo.len())) by {}
            assert forall|x: usize| a <= x < n && current != Some(x) implies #[trigger] r.contains(x) by {
                if x < c {
                    assert(r[x - a] == x);
                } else {
                    assert(r[x - a - 1] == x);
                }
            }
        } else {
            assert forall|x: usize| a <= x < n && current != Some(x) implies #[trigger] r.contains(x) by {
                assert(r[x - a] == x);
            }
        },
        None => {
            assert forall|x: usize| a <= x < n && current != Some(x) implies #[trigger] r.contains(x) by {
                assert(r[x - a] == x);
            }
        },
    }
}

/// Two sequences without repeats and without a common element join into one without repeats.
pub proof fn lemma_concat_distinct(a: Seq<usize>, b: Seq<usize>)
    requires
        distinct(a),
        distinct(b),
        forall|i: int, j: int| 0 <= i < a.len() && 0 <= j < b.len() ==> a[i] != b[j],
    ensures
        distinct(a + b),
{
    let r = a + b;
    assert forall|i: int, j: int| 0 <= i < r.len() && 0 <= j < r.len() && i != j implies r[i] != r[j] by {
        if i < a.len() && j >= a.len() {
            assert(r[j] == b[j - a.len()]);
        } else if i >= a.len() && j < a.len() {
            assert(r[i] == b[i - a.len()]);
        } else if i >= a.len() && j >= a.len() {
            assert(r[i] == b[i - a.len()] && r[j] == b[j - a.len()]);
        }
    }
}

/// Appends `a, a + 1, …, n - 1` without the index in `current`.
pub fn push_range_except(v: &mut Vec<usize>, a: usize, n: usize, current: Option<usize>)
    requires
        a <= n,
    ensures
        final(v)@ == old(v)@ + range_except(a as int, n as int, current),
{
    let ghost start = v@;
    let mut i: usize = a;
    while i < n
        invariant
            a <= i <= n,
            start == old(v)@,
            v@ == start + range_except(a as int, i as int, current),
        decreases n - i,
    {
        if current != Some(i) {
            v.push(i);
        }
        assert(v@ =~= start + range_except(a as int, (i + 1) as int, current));
        i = i + 1;
    }
}

} // verus!
