//! The music cache's bookkeeping: which byte ranges of a track are on disk, and when a track is
//! whole. Everything that plays is written in pieces as it is read; a track read whole plays
//! without the network. The files themselves are the caller's part.
use vstd::prelude::*;
use crate::seqs::{first_where, lemma_first_where, lemma_first_where_props};

verus! {

/// Ranges `[start, end)`: each non-empty, in order, with gaps between them.
pub open spec fn normalized(rs: Seq<(u64, u64)>) -> bool {
    &&& forall|k: int| 0 <= k < rs.len() ==> (#[trigger] rs[k]).0 < rs[k].1
    &&& forall|i: int, j: int| 0 <= i < j < rs.len() ==> (#[trigger] rs[i]).1 < (#[trigger] rs[j]).0
}

/// The byte `x` lies in one of the ranges.
pub open spec fn covers(rs: Seq<(u64, u64)>, x: int) -> bool {
    exists|k: int| 0 <= k < rs.len() && (#[trigger] rs[k]).0 <= x < rs[k].1
}

/// The test "ends at `start` or later".
pub open spec fn reaches(start: u64) -> spec_fn((u64, u64)) -> bool {
    |r: (u64, u64)| r.1 >= start
}

/// The test "starts after `end`".
pub open spec fn starts_after(end: u64) -> spec_fn((u64, u64)) -> bool {
    |r: (u64, u64)| r.0 > end
}

/// The ranges with `[start, end)` added: those that end before it stay, those that touch or
/// overlap it merge with it into one, those that start after it stay.
pub open spec fn with_range(rs: Seq<(u64, u64)>, start: u64, end: u64) -> Seq<(u64, u64)> {
    if end <= start {
        rs
    } else {
        let a = first_where(rs, reaches(start)) as int;
        let b = a + first_where(rs.skip(a), starts_after(end));
        let s = if a < b && rs[a].0 < start { rs[a].0 } else { start };
        let e = if a < b && rs[b - 1].1 > end { rs[b - 1].1 } else { end };
        rs.take(a) + seq![(s, e)] + rs.skip(b)
    }
}

/// Adds `[start, end)` and merges the ranges that touch or overlap.
pub fn add_range(ranges: &mut Vec<(u64, u64)>, start: u64, end: u64)
    ensures
        final(ranges)@ == with_range(old(ranges)@, start, end),
{
    if end <= start {
        return;
    }
    let ghost rs = ranges@;
    let n = ranges.len();
    let mut a: usize = 0;
    while a < n && ranges[a].1 < start
        invariant
            a <= n,
            n == ranges@.len(),
            ranges@ == rs,
            forall|k: int| 0 <= k < a ==> !(reaches(start)(#[trigger] rs[k])),
        decreases n - a,
    {
        a = a + 1;
    }
    proof {
        lemma_first_where(rs, reaches(start), a as int);
    }
    let mut b: usize = a;
    while b < n && ranges[b].0 <= end
        invariant
            a <= b <= n,
            n == ranges@.len(),
            ranges@ == rs,
            forall|k: int| a <= k < b ==> !(starts_after(end)(#[trigger] rs[k])),
        decreases n - b,
    {
        b = b + 1;
    }
    proof {
        let t = rs.skip(a as int);
        assert forall|k: int| 0 <= k < b - a implies !(starts_after(end)(#[trigger] t[k])) by {
            assert(t[k] == rs[a + k]);
        }
        if b < n {
            assert(t[b - a] == rs[b as int]);
        }
        lemma_first_where(t, starts_after(end), (b - a) as int);
    }
    let s = if a < b && ranges[a].0 < start { ranges[a].0 } else { start };
    let e = if a < b && ranges[b - 1].1 > end { ranges[b - 1].1 } else { end };
    let mut out: Vec<(u64, u64)> = Vec::new();
    let mut k: usize = 0;
    while k < a
        invariant
            k <= a <= n,
            n == ranges@.len(),
            ranges@ == rs,
            out@ == rs.take(k as int),
        decreases a - k,
    {
        out.push(ranges[k]);
        assert(out@ =~= rs.take(k + 1));
        k = k + 1;
    }
    out.push((s, e));
    k = b;
    while k < n
        invariant
            b <= k <= n,
            n == ranges@.len(),
            ranges@ == rs,
            out@ == rs.take(a as int) + seq![(s, e)] + rs.subrange(b as int, k as int),
        decreases n - k,
    {
        out.push(ranges[k]);
        assert(out@ =~= rs.take(a as int) + seq![(s, e)] + rs.subrange(b as int, k + 1));
        k = k + 1;
    }
    assert(rs.subrange(b as int, n as int) =~= rs.skip(b as int));
    *ranges = out;
}

/// Whole: all bytes from 0 to the stream's length are there.
pub open spec fn whole(total: Option<u64>, rs: Seq<(u64, u64)>) -> bool {
    match total {
        Some(t) => rs.len() == 1 && rs[0].0 == 0 && rs[0].1 >= t,
        None => false,
    }
}

/// Whole: all bytes from 0 to the stream's length are there.
pub fn is_complete(total: Option<u64>, ranges: &Vec<(u64, u64)>) -> (r: bool)
    ensures
        r == whole(total, ranges@),
{
    match total {
        Some(t) => ranges.len() == 1 && ranges[0].0 == 0 && ranges[0].1 >= t,
        None => false,
    }
}

/// The ranges to read back after a restart: each saved one cut at the data file's length.
pub fn ranges_from_saved(saved: &Vec<(u64, u64)>, disk_bytes: u64) -> (r: Vec<(u64, u64)>)
    ensures
        r@ == saved_ranges(saved@, disk_bytes),
{
    let mut r: Vec<(u64, u64)> = Vec::new();
    let mut k: usize = 0;
    while k < saved.len()
        invariant
            k <= saved@.len(),
            r@ == saved_ranges(saved@.take(k as int), disk_bytes),
        decreases saved.len() - k,
    {
        assert(saved@.take(k + 1).drop_last() =~= saved@.take(k as int));
        let (s, e) = saved[k];
        add_range(&mut r, s, if e < disk_bytes { e } else { disk_bytes });
        k = k + 1;
    }
    assert(saved@.take(saved@.len() as int) =~= saved@);
    r
}

/// The saved ranges, added in order, each cut at `disk_bytes`.
pub open spec fn saved_ranges(saved: Seq<(u64, u64)>, disk_bytes: u64) -> Seq<(u64, u64)>
    decreases saved.len(),
{
    if saved.len() == 0 {
        Seq::empty()
    } else {
        let (s, e) = saved.last();
        with_range(saved_ranges(saved.drop_last(), disk_bytes), s, if e < disk_bytes { e } else { disk_bytes })
    }
}


/// Adding a range keeps the ranges in order with gaps between them, and the bytes they cover are
/// the old ones and the new range's.
#[verifier::spinoff_prover]
#[verifier::rlimit(40)]
pub proof fn law_add_range_is_union(rs: Seq<(u64, u64)>, start: u64, end: u64)
    requires
        normalized(rs),
    ensures
        normalized(with_range(rs, start, end)),
        forall|x: int| covers(with_range(rs, start, end), x) <==> (covers(rs, x) || (start <= x < end)),
{
    if end <= start {
        return;
    }
    lemma_first_where_props(rs, reaches(start));
    let a = first_where(rs, reaches(start)) as int;
    let t = rs.skip(a);
    lemma_first_where_props(t, starts_after(end));
    let b = a + first_where(t, starts_after(end));
    assert forall|k: int| 0 <= k < a implies (#[trigger] rs[k]).1 < start by {
        assert(!reaches(start)(rs[k]));
    }
    assert forall|k: int| a <= k < b implies (#[trigger] rs[k]).0 <= end by {
        assert(t[k - a] == rs[k]);
        assert(!starts_after(end)(t[k - a]));
    }
    if b < rs.len() {
        assert(t[b - a] == rs[b]);
        assert(starts_after(end)(t[b - a]));
    }
    if a < rs.len() {
        assert(reaches(start)(rs[a]));
    }
    let s = if a < b && rs[a].0 < start { rs[a].0 } else { start };
    let e = if a < b && rs[b - 1].1 > end { rs[b - 1].1 } else { end };
    let r = with_range(rs, start, end);
    assert(r == rs.take(a) + seq![(s, e)] + rs.skip(b));
    assert forall|j: int| 0 <= j < r.len() implies
        (j < a ==> #[trigger] r[j] == rs[j]) && (j == a ==> r[j] == (s, e)) && (j > a ==> r[j] == rs[j - a - 1 + b]) by {}
    // Ranges after the merged one start after it ends.
    assert forall|j: int| b <= j < rs.len() implies (#[trigger] rs[j]).0 > e by {
        if j > b {
            assert(rs[b].1 < rs[j].0);
            assert(rs[b].0 < rs[b].1);
        }
        if a < b {
            assert(rs[b - 1].1 < rs[j].0);
        }
    }
    // Ranges before the merged one end before it starts.
    assert forall|j: int| 0 <= j < a implies (#[trigger] rs[j]).1 < s by {
        if a < b {
            assert(rs[j].1 < rs[a].0);
        }
    }
    assert forall|i: int, j: int| 0 <= i < j < r.len() implies (#[trigger] r[i]).1 < (#[trigger] r[j]).0 by {
        if j < a {
        } else if j == a {
            assert(rs[i].1 < s);
        } else if i < a {
            assert(rs[i].1 < rs[j - a - 1 + b].0);
        } else if i == a {
            assert(rs[j - a - 1 + b].0 > e);
        } else {
            assert(rs[i - a - 1 + b].1 < rs[j - a - 1 + b].0);
        }
    }
    assert forall|k: int| 0 <= k < r.len() implies (#[trigger] r[k]).0 < r[k].1 by {
        if k == a {
            assert(s <= start < end <= e);
        } else if k < a {
            assert(rs[k].0 < rs[k].1);
        } else {
            assert(rs[k - a - 1 + b].0 < rs[k - a - 1 + b].1);
        }
    }
    assert forall|x: int| covers(r, x) <==> (covers(rs, x) || (start <= x < end)) by {
        if covers(r, x) {
            let k = choose|k: int| 0 <= k < r.len() && (#[trigger] r[k]).0 <= x < r[k].1;
            if k < a {
                assert(rs[k].0 <= x < rs[k].1);
            } else if k > a {
                let m = k - a - 1 + b;
                assert(rs[m].0 <= x < rs[m].1);
            } else {
                if !(start <= x < end) {
                    if x < start {
                        assert(rs[a].0 <= x < rs[a].1);
                    } else {
                        assert(rs[b - 1].0 <= x < rs[b - 1].1);
                    }
                }
            }
        }
        if start <= x < end {
            assert(r[a].0 <= x < r[a].1);
        }
        if covers(rs, x) {
            let k = choose|k: int| 0 <= k < rs.len() && (#[trigger] rs[k]).0 <= x < rs[k].1;
            if k < a {
                assert(r[k].0 <= x < r[k].1);
            } else if k >= b {
                assert(r[k - b + a + 1] == rs[k]);
                assert(r[k - b + a + 1].0 <= x < r[k - b + a + 1].1);
            } else {
                assert(rs[a].0 <= rs[k].0);
                if k < b - 1 {
                    assert(rs[k].1 < rs[b - 1].0);
                }
                assert(rs[k].1 <= rs[b - 1].1);
                assert(r[a].0 <= x < r[a].1);
            }
        }
    }
}


// ── the limit ──

/// A track in the music cache as the limit sees it: when it was last read (nanoseconds since
/// the epoch), its bytes on disk, and whether it is playing.
#[derive(Clone, Copy, Debug, PartialEq, Eq, Structural)]
pub struct CachedTrack {
    pub last_read: u128,
    pub disk_bytes: u64,
    pub pinned: bool,
}

/// The bytes of the tracks.
pub open spec fn total_bytes(ts: Seq<CachedTrack>) -> int
    decreases ts.len(),
{
    if ts.len() == 0 { 0 } else { total_bytes(ts.drop_last()) + ts.last().disk_bytes }
}

/// Track `i` may still go: it is not playing and not yet removed.
pub open spec fn may_go(ts: Seq<CachedTrack>, removed: Seq<usize>, i: int) -> bool {
    0 <= i < ts.len() && !ts[i].pinned && !removed.contains(i as usize)
}

/// The track among the first `n` that was read longest ago and may still go; of several read at
/// the same time, the first.
pub open spec fn oldest_upto(ts: Seq<CachedTrack>, removed: Seq<usize>, n: int) -> Option<int>
    decreases n,
{
    if n <= 0 {
        None
    } else {
        let best = oldest_upto(ts, removed, n - 1);
        if may_go(ts, removed, n - 1) {
            match best {
                Some(b) => if ts[n - 1].last_read < ts[b].last_read { Some(n - 1) } else { Some(b) },
                None => Some(n - 1),
            }
        } else {
            best
        }
    }
}

/// Removing the tracks read longest ago, one by one, while the cache is over `max`.
pub open spec fn trim_from(ts: Seq<CachedTrack>, max: int, removed: Seq<usize>, size: int, fuel: nat) -> Seq<usize>
    decreases fuel,
{
    if fuel == 0 || size <= max {
        removed
    } else {
        match oldest_upto(ts, removed, ts.len() as int) {
            Some(i) => trim_from(
                ts,
                max,
                removed.push(i as usize),
                if size >= ts[i].disk_bytes { size - ts[i].disk_bytes } else { 0 },
                (fuel - 1) as nat,
            ),
            None => removed,
        }
    }
}

/// The tracks that go over the limit (in bytes; 0 or less is no limit): those read longest ago
/// first, playing ones never, until the cache fits.
pub open spec fn trim_plan_of(ts: Seq<CachedTrack>, max_bytes: i64) -> Seq<usize> {
    if max_bytes <= 0 {
        Seq::empty()
    } else {
        trim_from(ts, max_bytes as int, Seq::empty(), total_bytes(ts), ts.len())
    }
}

proof fn lemma_oldest_upto(ts: Seq<CachedTrack>, removed: Seq<usize>, n: int)
    requires
        0 <= n <= ts.len(),
    ensures
        oldest_upto(ts, removed, n) matches Some(i) ==> 0 <= i < n && may_go(ts, removed, i) && forall|j: int|
            0 <= j < n && #[trigger] may_go(ts, removed, j) ==> ts[i].last_read <= ts[j].last_read,
        oldest_upto(ts, removed, n) is None ==> forall|j: int| 0 <= j < n ==> !#[trigger] may_go(ts, removed, j),
    decreases n,
{
    if n > 0 {
        lemma_oldest_upto(ts, removed, n - 1);
    }
}

fn contains_index(v: &Vec<usize>, x: usize) -> (r: bool)
    ensures
        r == v@.contains(x),
{
    let mut k: usize = 0;
    while k < v.len()
        invariant
            k <= v@.len(),
            forall|j: int| 0 <= j < k ==> v@[j] != x,
        decreases v.len() - k,
    {
        if v[k] == x {
            assert(v@[k as int] == x);
            return true;
        }
        k = k + 1;
    }
    false
}

fn oldest_left(ts: &Vec<CachedTrack>, removed: &Vec<usize>) -> (r: Option<usize>)
    ensures
        match oldest_upto(ts@, removed@, ts@.len() as int) {
            Some(i) => r == Some(i as usize),
            None => r is None,
        },
{
    let mut best: Option<usize> = None;
    let mut n: usize = 0;
    while n < ts.len()
        invariant
            n <= ts@.len(),
            match oldest_upto(ts@, removed@, n as int) {
                Some(i) => best == Some(i as usize),
                None => best is None,
            },
        decreases ts.len() - n,
    {
        proof {
            lemma_oldest_upto(ts@, removed@, n as int);
        }
        if !ts[n].pinned && !contains_index(removed, n) {
            best = match best {
                Some(b) => if ts[n].last_read < ts[b].last_read { Some(n) } else { Some(b) },
                None => Some(n),
            };
        }
        n = n + 1;
    }
    best
}

fn total_of(ts: &Vec<CachedTrack>) -> (r: u64)
    requires
        total_bytes(ts@) <= u64::MAX,
    ensures
        r == total_bytes(ts@),
{
    let mut sum: u64 = 0;
    let mut k: usize = 0;
    while k < ts.len()
        invariant
            k <= ts@.len(),
            total_bytes(ts@) <= u64::MAX,
            sum == total_bytes(ts@.take(k as int)),
        decreases ts.len() - k,
    {
        assert(ts@.take(k + 1).drop_last() =~= ts@.take(k as int));
        proof {
            lemma_take_total(ts@, k + 1);
        }
        sum = sum + ts[k].disk_bytes;
        k = k + 1;
    }
    assert(ts@.take(ts@.len() as int) =~= ts@);
    sum
}

proof fn lemma_take_total(ts: Seq<CachedTrack>, k: int)
    requires
        0 <= k <= ts.len(),
    ensures
        total_bytes(ts.take(k)) <= total_bytes(ts),
    decreases ts.len() - k,
{
    if k < ts.len() {
        lemma_take_total(ts, k + 1);
        assert(ts.take(k + 1).drop_last() =~= ts.take(k));
    } else {
        assert(ts.take(k) =~= ts);
    }
}

/// The tracks that go over the limit, by their place in `tracks` (see `trim_plan_of`).
pub fn trim_plan(tracks: &Vec<CachedTrack>, max_bytes: i64) -> (r: Vec<usize>)
    requires
        total_bytes(tracks@) <= u64::MAX,
    ensures
        r@ == trim_plan_of(tracks@, max_bytes),
{
    let mut removed: Vec<usize> = Vec::new();
    if max_bytes <= 0 {
        return removed;
    }
    let max = max_bytes as u64;
    let mut size = total_of(tracks);
    let mut fuel: usize = tracks.len();
    while fuel > 0 && size > max
        invariant
            fuel <= tracks@.len(),
            max == max_bytes,
            max_bytes > 0,
            trim_from(tracks@, max as int, removed@, size as int, fuel as nat) == trim_plan_of(tracks@, max_bytes),
        decreases fuel,
    {
        match oldest_left(tracks, &removed) {
            Some(i) => {
                proof {
                    lemma_oldest_upto(tracks@, removed@, tracks@.len() as int);
                    assert(tracks@.len() == tracks.len());
                    assert(oldest_upto(tracks@, removed@, tracks@.len() as int) == Some(i as int));
                }
                let bytes = tracks[i].disk_bytes;
                let next_size = if size >= bytes { size - bytes } else { 0 };
                assert(trim_from(tracks@, max as int, removed@, size as int, fuel as nat) == trim_from(
                    tracks@,
                    max as int,
                    removed@.push(i),
                    next_size as int,
                    (fuel - 1) as nat,
                ));
                size = next_size;
                removed.push(i);
                fuel = fuel - 1;
            },
            None => {
                return removed;
            },
        }
    }
    removed
}


/// What the removed tracks keep: valid places, none playing, none twice, and each read no later
/// than any track that may still go.
pub open spec fn trim_sound(ts: Seq<CachedTrack>, r: Seq<usize>) -> bool {
    &&& forall|k: int| 0 <= k < r.len() ==> (#[trigger] r[k]) < ts.len() && !ts[r[k] as int].pinned
    &&& forall|k: int, l: int| 0 <= k < l < r.len() ==> #[trigger] r[k] != #[trigger] r[l]
    &&& forall|k: int, j: int|
        #![trigger r[k], may_go(ts, r, j)]
        0 <= k < r.len() && may_go(ts, r, j) ==> ts[r[k] as int].last_read <= ts[j].last_read
}

proof fn lemma_trim_from(ts: Seq<CachedTrack>, max: int, removed: Seq<usize>, size: int, fuel: nat)
    requires
        ts.len() <= usize::MAX,
        trim_sound(ts, removed),
    ensures
        trim_sound(ts, trim_from(ts, max, removed, size, fuel)),
    decreases fuel,
{
    if fuel > 0 && size > max {
        lemma_oldest_upto(ts, removed, ts.len() as int);
        match oldest_upto(ts, removed, ts.len() as int) {
            Some(i) => {
                let r2 = removed.push(i as usize);
                assert forall|j: int| #[trigger] may_go(ts, r2, j) implies may_go(ts, removed, j) by {
                    if removed.contains(j as usize) {
                        let k = choose|k: int| 0 <= k < removed.len() && removed[k] == j as usize;
                        assert(r2[k] == j as usize);
                        assert(r2.contains(j as usize));
                    }
                }
                assert forall|k: int, l: int| 0 <= k < l < r2.len() implies #[trigger] r2[k] != #[trigger] r2[l] by {
                    if l == removed.len() {
                        assert(!removed.contains(i as usize));
                        assert(removed[k] == r2[k]);
                    }
                }
                assert forall|k: int, j: int| #![trigger r2[k], may_go(ts, r2, j)] 0 <= k < r2.len() && may_go(ts, r2, j) implies ts[r2[k] as int].last_read
                    <= ts[j].last_read by {
                    assert(may_go(ts, removed, j));
                    if k < removed.len() {
                        assert(r2[k] == removed[k]);
                        assert(ts[removed[k] as int].last_read <= ts[j].last_read);
                    } else {
                        assert(r2[k] == i as usize);
                        assert(0 <= j < ts.len());
                        assert(ts[i].last_read <= ts[j].last_read);
                    }
                }
                lemma_trim_from(
                    ts,
                    max,
                    r2,
                    if size >= ts[i].disk_bytes { size - ts[i].disk_bytes } else { 0 },
                    (fuel - 1) as nat,
                );
            },
            None => {},
        }
    }
}

/// The limit spares what plays and goes by age: every track it removes is one the cache holds,
/// none is playing, none comes twice, and none was read later than a track it keeps that could
/// have gone; with no limit, or a cache within it, nothing goes.
pub proof fn law_trim_spares_playing_and_goes_by_age(ts: Seq<CachedTrack>, max_bytes: i64)
    requires
        ts.len() <= usize::MAX,
    ensures
        trim_sound(ts, trim_plan_of(ts, max_bytes)),
        max_bytes <= 0 || total_bytes(ts) <= max_bytes ==> trim_plan_of(ts, max_bytes).len() == 0,
{
    if max_bytes > 0 {
        lemma_trim_from(ts, max_bytes as int, Seq::empty(), total_bytes(ts), ts.len());
    }
}


/// The bytes kept for a track serve a new stream of it when the format (itag) is the same and,
/// where both lengths are known, so is the length; else the old bytes go.
pub fn keeps_entry(kept_itag: u32, kept_total: Option<u64>, itag: u32, content_length: Option<u64>) -> (r: bool)
    ensures
        r == (kept_itag == itag && (content_length is None || kept_total is None || kept_total == content_length)),
{
    if kept_itag != itag {
        return false;
    }
    match (content_length, kept_total) {
        (Some(a), Some(b)) => a == b,
        _ => true,
    }
}

/// Of two formats of one track found on disk, the one read later stays; read at the same time,
/// the one found first.
pub fn keeps_found_first(first_read: u128, then_read: u128) -> (r: bool)
    ensures
        r == (first_read >= then_read),
{
    first_read >= then_read
}

} // verus!
