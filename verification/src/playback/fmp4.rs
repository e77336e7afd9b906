//! Reading the fragmented MP4 (DASH) in which YouTube serves AAC (itag 140/139). A seek is one
//! request to the fragment needed: the `sidx` table says where each fragment lies, so the
//! headers of the fragments before it need not be read.
//!
//! Every reader states its result as a spec function of the bytes. Where the format's fields
//! would make a reader index past the data or leave an integer type, the spec function says
//! `Panics`: the plain readers require that it does not happen, and the `try_` readers report it.
use vstd::prelude::*;

verus! {

/// A malformed or incomplete file; `truncated` means: read more.
#[derive(Clone, Copy, Debug, PartialEq, Eq)]
pub struct FormatError(pub &'static str);

/// Why a reader stopped: a format error, or an index past the data or an integer overflow.
#[derive(Clone, Copy, Debug, PartialEq, Eq)]
pub enum Stop {
    Format(&'static str),
    Panic,
}

/// How a reader ends: with a value, with a format error, or at an index past the data or an
/// integer overflow.
pub enum Outcome<T> {
    Done(T),
    Failed(&'static str),
    Panics,
}

/// The big-endian value of the `n` bytes of `d` at `o`.
pub open spec fn be(d: Seq<u8>, o: int, n: nat) -> nat
    decreases n,
{
    if n == 0 {
        0
    } else {
        be(d, o, (n - 1) as nat) * 256 + d[o + n - 1] as nat
    }
}

/// The `n`-byte big-endian number at `o`, where the data holds it.
pub open spec fn num_at(d: Seq<u8>, o: int, n: nat) -> Option<nat> {
    if 0 <= o && o + n <= d.len() { Some(be(d, o, n)) } else { None }
}

pub proof fn lemma_be_bound(d: Seq<u8>, o: int, n: nat)
    ensures
        be(d, o, n) < pow256(n),
    decreases n,
{
    if n > 0 {
        lemma_be_bound(d, o, (n - 1) as nat);
        assert(be(d, o, n) <= (pow256((n - 1) as nat) - 1) * 256 + 255) by (nonlinear_arith)
            requires
                be(d, o, (n - 1) as nat) < pow256((n - 1) as nat),
                be(d, o, n) == be(d, o, (n - 1) as nat) * 256 + d[o + n - 1] as nat,
                d[o + n - 1] as nat <= 255;
    }
}

pub open spec fn pow256(n: nat) -> nat
    decreases n,
{
    if n == 0 { 1 } else { 256 * pow256((n - 1) as nat) }
}

fn u16_at(d: &[u8], o: usize) -> (r: Result<u16, Stop>)
    ensures
        match r {
            Ok(v) => num_at(d@, o as int, 2) == Some(v as nat),
            Err(e) => num_at(d@, o as int, 2) is None && e == Stop::Format("truncated"),
        },
{
    if o > d.len() || d.len() - o < 2 {
        return Err(Stop::Format("truncated"));
    }
    let v: u32 = d[o] as u32 * 256 + d[o + 1] as u32;
    proof {
        reveal_with_fuel(be, 3);
    }
    Ok(v as u16)
}

fn u32_at(d: &[u8], o: usize) -> (r: Result<u32, Stop>)
    ensures
        match r {
            Ok(v) => num_at(d@, o as int, 4) == Some(v as nat),
            Err(e) => num_at(d@, o as int, 4) is None && e == Stop::Format("truncated"),
        },
{
    if o > d.len() || d.len() - o < 4 {
        return Err(Stop::Format("truncated"));
    }
    let v: u64 = ((d[o] as u64 * 256 + d[o + 1] as u64) * 256 + d[o + 2] as u64) * 256 + d[o + 3] as u64;
    proof {
        reveal_with_fuel(be, 5);
    }
    Ok(v as u32)
}

fn u64_at(d: &[u8], o: usize) -> (r: Result<u64, Stop>)
    ensures
        match r {
            Ok(v) => num_at(d@, o as int, 8) == Some(v as nat),
            Err(e) => num_at(d@, o as int, 8) is None && e == Stop::Format("truncated"),
        },
{
    if o > d.len() || d.len() - o < 8 {
        return Err(Stop::Format("truncated"));
    }
    let hi: u64 = ((d[o] as u64 * 256 + d[o + 1] as u64) * 256 + d[o + 2] as u64) * 256 + d[o + 3] as u64;
    let lo: u64 = ((d[o + 4] as u64 * 256 + d[o + 5] as u64) * 256 + d[o + 6] as u64) * 256 + d[o + 7] as u64;
    proof {
        reveal_with_fuel(be, 9);
        let x = be(d@, o as int, 4);
        assert(x == hi);
        assert(be(d@, o as int, 8) == ((((x * 256 + d@[o + 4] as nat) * 256 + d@[o + 5] as nat) * 256 + d@[o + 6] as nat) * 256
            + d@[o + 7] as nat));
        assert(be(d@, o as int, 8) == hi as nat * 4294967296 + lo as nat);
    }
    let v: u64 = hi * 4294967296 + lo;
    Ok(v)
}

/// A box: its type (four bytes, big-endian), where it starts, where its content starts, and
/// where it ends (possibly past the data at hand).
#[derive(Clone, Copy, Debug)]
pub struct BoxRef {
    pub kind: u32,
    pub start: usize,
    pub content: usize,
    pub end: usize,
}

pub const MOOV: u32 = 0x6d6f6f76;
pub const MOOF: u32 = 0x6d6f6f66;
pub const MDAT: u32 = 0x6d646174;
pub const SIDX: u32 = 0x73696478;
pub const MVEX: u32 = 0x6d766578;
pub const TREX: u32 = 0x74726578;
pub const TRAK: u32 = 0x7472616b;
pub const MDIA: u32 = 0x6d646961;
pub const MDHD: u32 = 0x6d646864;
pub const MINF: u32 = 0x6d696e66;
pub const STBL: u32 = 0x7374626c;
pub const STSD: u32 = 0x73747364;
pub const MP4A: u32 = 0x6d703461;
pub const ESDS: u32 = 0x65736473;
pub const TRAF: u32 = 0x74726166;
pub const TFHD: u32 = 0x74666864;
pub const TFDT: u32 = 0x74666474;
pub const TRUN: u32 = 0x7472756e;

/// How far a walk from `i` to `end` has left to go.
pub open spec fn left(i: int, end: int) -> int {
    if i < end { end - i } else { 0 }
}

/// The header of the box at `i` in a run ending at `end`: its size and header length, or
/// `None` where the walk stops there.
pub open spec fn box_header(d: Seq<u8>, i: int, end: int) -> Option<(int, int)> {
    match num_at(d, i, 4) {
        None => None,
        Some(size32) => if size32 == 1 {
            match num_at(d, i + 8, 8) {
                Some(s) => if i + 16 <= end { Some((s as int, 16)) } else { None },
                None => None,
            }
        } else if size32 == 0 {
            Some((end - i, 8))
        } else {
            Some((size32 as int, 8))
        },
    }
}

/// The boxes from `i` to `end`; the last one may be cut short (its end past `end`). `None`:
/// a box's type lies past the data.
pub open spec fn boxes_from(d: Seq<u8>, i: int, end: int) -> Option<Seq<BoxRef>>
    decreases left(i, end),
{
    if i < 0 || i + 8 > end || i + 8 > usize::MAX || num_at(d, i, 4) is None {
        Some(Seq::empty())
    } else if i + 8 > d.len() {
        None
    } else {
        match box_header(d, i, end) {
            None => Some(Seq::empty()),
            Some((size, header)) => if size < header {
                Some(Seq::empty())
            } else {
                let box_end: int = if i + size > usize::MAX { usize::MAX as int } else { i + size };
                match boxes_from(d, box_end, end) {
                    None => None,
                    Some(rest) => Some(seq![BoxRef {
                        kind: be(d, i + 4, 4) as u32,
                        start: i as usize,
                        content: (i + header) as usize,
                        end: box_end as usize,
                    }] + rest),
                }
            },
        }
    }
}

/// The boxes on `[start, end)`; the last may be cut short. `None` where a box's type lies past
/// the data.
fn boxes(d: &[u8], start: usize, end: usize) -> (r: Option<Vec<BoxRef>>)
    ensures
        match boxes_from(d@, start as int, end as int) {
            Some(s) => r matches Some(v) && v@ == s,
            None => r is None,
        },
{
    let mut found: Vec<BoxRef> = Vec::new();
    let mut i: usize = start;
    let ghost whole = boxes_from(d@, start as int, end as int);
    while i <= end && end - i >= 8
        invariant
            start <= i || i == usize::MAX,
            whole == boxes_from(d@, start as int, end as int),
            match boxes_from(d@, i as int, end as int) {
                Some(rest) => whole == Some(found@ + rest),
                None => whole is None,
            },
        decreases left(i as int, end as int),
    {
        let size32 = match u32_at(d, i) {
            Ok(s) => s,
            Err(_) => {
                assert(found@ + Seq::<BoxRef>::empty() =~= found@);
                return Some(found);
            },
        };
        if d.len() - i < 8 {
            return None;
        }
        let kind: u32 = match u32_at(d, i + 4) {
            Ok(k) => k,
            Err(_) => return None,
        };
        let (size, header): (u64, usize) = if size32 == 1 {
            match u64_at(d, i + 8) {
                Ok(s) => {
                    if end - i < 16 {
                        assert(found@ + Seq::<BoxRef>::empty() =~= found@);
                        return Some(found);
                    }
                    (s, 16)
                },
                Err(_) => {
                    assert(found@ + Seq::<BoxRef>::empty() =~= found@);
                    return Some(found);
                },
            }
        } else if size32 == 0 {
            ((end - i) as u64, 8)
        } else {
            (size32 as u64, 8)
        };
        if size < header as u64 {
            assert(found@ + Seq::<BoxRef>::empty() =~= found@);
            return Some(found);
        }
        let box_end: usize = if size > (usize::MAX - i) as u64 { usize::MAX } else { i + size as usize };
        let b = BoxRef { kind, start: i, content: i + header, end: box_end };
        proof {
            let rest = boxes_from(d@, box_end as int, end as int);
            if let Some(r) = rest {
                assert(found@.push(b) + r =~= found@ + (seq![b] + r));
            }
        }
        found.push(b);
        i = box_end;
    }
    proof {
        if !(i <= end && end - i >= 8) {
            assert(boxes_from(d@, i as int, end as int) == Some(Seq::<BoxRef>::empty()));
            assert(found@ + Seq::<BoxRef>::empty() =~= found@);
        }
    }
    Some(found)
}


/// Within the data, the walk of boxes never reads past it.
pub proof fn lemma_boxes_within(d: Seq<u8>, i: int, end: int)
    requires
        end <= d.len(),
    ensures
        boxes_from(d, i, end) is Some,
    decreases left(i, end),
{
    if !(i < 0 || i + 8 > end || i + 8 > usize::MAX || num_at(d, i, 4) is None) {
        match box_header(d, i, end) {
            None => {},
            Some((size, header)) => if size >= header {
                let box_end: int = if i + size > usize::MAX { usize::MAX as int } else { i + size };
                lemma_boxes_within(d, box_end, end);
            },
        }
    }
}

/// The first box of `bs` of this type that lies wholly within `len` bytes.
pub open spec fn first_box(bs: Seq<BoxRef>, kind: u32, len: int) -> Option<BoxRef>
    decreases bs.len(),
{
    if bs.len() == 0 {
        None
    } else if bs[0].kind == kind && bs[0].end <= len {
        Some(bs[0])
    } else {
        first_box(bs.drop_first(), kind, len)
    }
}

/// The child of this type within `[start, end)` that lies wholly within the data.
pub open spec fn child_spec(d: Seq<u8>, start: int, end: int, kind: u32) -> Option<BoxRef> {
    let e = if end < d.len() { end } else { d.len() as int };
    match boxes_from(d, start, e) {
        Some(bs) => first_box(bs, kind, d.len() as int),
        None => None,
    }
}

fn find_box(bs: &Vec<BoxRef>, kind: u32, len: usize) -> (r: Option<BoxRef>)
    ensures
        r == first_box(bs@, kind, len as int),
{
    let mut k: usize = 0;
    assert(bs@.skip(0) =~= bs@);
    while k < bs.len()
        invariant
            k <= bs@.len(),
            first_box(bs@, kind, len as int) == first_box(bs@.skip(k as int), kind, len as int),
        decreases bs.len() - k,
    {
        assert(bs@.skip(k as int)[0] == bs@[k as int]);
        assert(bs@.skip(k as int).drop_first() =~= bs@.skip(k + 1));
        if bs[k].kind == kind && bs[k].end <= len {
            return Some(bs[k]);
        }
        k = k + 1;
    }
    None
}

/// The boxes of a walk have their content after their header and before their end.
pub proof fn lemma_boxes_shape(d: Seq<u8>, i: int, end: int)
    requires
        end <= usize::MAX,
    ensures
        boxes_from(d, i, end) matches Some(bs) ==> forall|k: int| 0 <= k < bs.len() ==>
            (#[trigger] bs[k]).start + 8 <= bs[k].content <= bs[k].end && bs[k].content <= end && bs[k].start + 8 <= d.len()
                && bs[k].content <= bs[k].start + 16,
    decreases left(i, end),
{
    if !(i < 0 || i + 8 > end || i + 8 > usize::MAX || num_at(d, i, 4) is None || i + 8 > d.len()) {
        match box_header(d, i, end) {
            None => {},
            Some((size, header)) => if size >= header {
                let box_end: int = if i + size > usize::MAX { usize::MAX as int } else { i + size };
                lemma_boxes_shape(d, box_end, end);
                if let Some(bs) = boxes_from(d, i, end) {
                    let rest = boxes_from(d, box_end, end)->0;
                    assert forall|k: int| 0 <= k < bs.len() implies (#[trigger] bs[k]).start + 8 <= bs[k].content <= bs[k].end
                        && bs[k].content <= end && bs[k].start + 8 <= d.len() && bs[k].content <= bs[k].start + 16 by {
                        if k > 0 {
                            assert(bs[k] == rest[k - 1]);
                        }
                    }
                }
            },
        }
    }
}

/// A box that `first_box` finds is one of the sequence, within `len`.
pub proof fn lemma_first_box(bs: Seq<BoxRef>, kind: u32, len: int)
    ensures
        first_box(bs, kind, len) matches Some(b) ==> b.end <= len && exists|k: int| 0 <= k < bs.len() && bs[k] == b,
    decreases bs.len(),
{
    if bs.len() > 0 && !(bs[0].kind == kind && bs[0].end <= len) {
        lemma_first_box(bs.drop_first(), kind, len);
        if let Some(b) = first_box(bs, kind, len) {
            let k = choose|k: int| 0 <= k < bs.drop_first().len() && bs.drop_first()[k] == b;
            assert(bs[k + 1] == b);
        }
    }
}

/// A child lies within the data, its content after its header.
pub proof fn lemma_child(d: Seq<u8>, start: int, end: int, kind: u32)
    requires
        d.len() <= usize::MAX,
    ensures
        child_spec(d, start, end, kind) matches Some(b) ==> b.start + 8 <= b.content <= b.end <= d.len(),
{
    let e = if end < d.len() { end } else { d.len() as int };
    lemma_boxes_shape(d, start, e);
    if let Some(bs) = boxes_from(d, start, e) {
        lemma_first_box(bs, kind, d.len() as int);
    }
}

fn child(d: &[u8], start: usize, end: usize, kind: u32) -> (r: Option<BoxRef>)
    ensures
        r == child_spec(d@, start as int, end as int, kind),
        r matches Some(b) ==> b.start + 8 <= b.content <= b.end <= d@.len(),
{
    proof {
        assert(d@.len() == d.len());
        lemma_child(d@, start as int, end as int, kind);
    }
    let e = if end < d.len() { end } else { d.len() };
    proof {
        lemma_boxes_within(d@, start as int, e as int);
    }
    match boxes(d, start, e) {
        Some(bs) => find_box(&bs, kind, d.len()),
        None => None,
    }
}

/// The first box of this type, whole or not.
pub open spec fn first_of_kind(bs: Seq<BoxRef>, kind: u32) -> Option<BoxRef>
    decreases bs.len(),
{
    if bs.len() == 0 {
        None
    } else if bs[0].kind == kind {
        Some(bs[0])
    } else {
        first_of_kind(bs.drop_first(), kind)
    }
}

/// Where the first `moof` of the data ends.
pub open spec fn moof_end_spec(data: Seq<u8>) -> Option<usize> {
    match boxes_from(data, 0, data.len() as int) {
        Some(bs) => match first_of_kind(bs, MOOF) {
            Some(b) => Some(b.end),
            None => None,
        },
        None => None,
    }
}

/// Where the fragment's `moof` ends, once its start is at hand: that many bytes are needed to
/// know the samples.
pub fn moof_end(data: &[u8]) -> (r: Option<usize>)
    ensures
        r == moof_end_spec(data@),
{
    proof {
        lemma_boxes_within(data@, 0, data@.len() as int);
    }
    let bs = match boxes(data, 0, data.len()) {
        Some(bs) => bs,
        None => return None,
    };
    let mut k: usize = 0;
    assert(bs@.skip(0) =~= bs@);
    while k < bs.len()
        invariant
            k <= bs@.len(),
            first_of_kind(bs@, MOOF) == first_of_kind(bs@.skip(k as int), MOOF),
            boxes_from(data@, 0, data@.len() as int) == Some(bs@),
        decreases bs.len() - k,
    {
        assert(bs@.skip(k as int)[0] == bs@[k as int]);
        assert(bs@.skip(k as int).drop_first() =~= bs@.skip(k + 1));
        if bs[k].kind == MOOF {
            return Some(bs[k].end);
        }
        k = k + 1;
    }
    None
}


/// A fragment from `sidx`: where it lies (`moof` + `mdat`) and the time it covers (in the
/// index's ticks).
#[derive(Clone, Copy, Debug, PartialEq, Eq)]
pub struct Fragment {
    pub index: usize,
    pub offset: u64,
    pub size: u32,
    pub start_ticks: u64,
    pub duration_ticks: u64,
}

/// The entries of `sidx` from `q`: `n` more, the `index`-th next, at `offset` and `time`.
pub open spec fn sidx_entries(d: Seq<u8>, q: int, n: nat, index: int, offset: int, time: int) -> Outcome<Seq<Fragment>>
    decreases n,
{
    if n == 0 {
        Outcome::Done(Seq::empty())
    } else {
        match num_at(d, q, 4) {
            None => Outcome::Failed("truncated"),
            Some(raw) => match num_at(d, q + 4, 4) {
                None => Outcome::Failed("truncated"),
                Some(duration) => {
                    let size = (raw as u32) & 0x7FFF_FFFFu32;
                    if offset + size > u64::MAX || time + duration > u64::MAX || index + 1 > usize::MAX {
                        Outcome::Panics
                    } else {
                        let f = Fragment {
                            index: index as usize,
                            offset: offset as u64,
                            size,
                            start_ticks: time as u64,
                            duration_ticks: duration as u64,
                        };
                        match sidx_entries(d, q + 12, (n - 1) as nat, index + 1, offset + size, time + duration) {
                            Outcome::Done(rest) => Outcome::Done(seq![f] + rest),
                            Outcome::Failed(e) => Outcome::Failed(e),
                            Outcome::Panics => Outcome::Panics,
                        }
                    }
                },
            },
        }
    }
}

/// `sidx` whose content starts at `p` and whose box ends at `end`: the index's timescale and
/// the fragments.
pub open spec fn sidx_spec(d: Seq<u8>, p: int, end: int) -> Outcome<(u32, Seq<Fragment>)> {
    if !(0 <= p < d.len()) {
        Outcome::Panics
    } else {
        let version = d[p];
        match num_at(d, p + 8, 4) {
            None => Outcome::Failed("truncated"),
            Some(timescale) => {
                let head: Option<(nat, nat, int)> = if version == 0 {
                    match (num_at(d, p + 12, 4), num_at(d, p + 16, 4)) {
                        (Some(e), Some(f)) => Some((e, f, p + 20)),
                        _ => None,
                    }
                } else {
                    match (num_at(d, p + 12, 8), num_at(d, p + 20, 8)) {
                        (Some(e), Some(f)) => Some((e, f, p + 28)),
                        _ => None,
                    }
                };
                match head {
                    None => Outcome::Failed("truncated"),
                    Some((earliest, first_offset, q)) => match num_at(d, q + 2, 2) {
                        None => Outcome::Failed("truncated"),
                        Some(count) => if end + first_offset > u64::MAX {
                            Outcome::Panics
                        } else {
                            match sidx_entries(d, q + 4, count, 0, end + first_offset, earliest as int) {
                                Outcome::Done(fs) => Outcome::Done((timescale as u32, fs)),
                                Outcome::Failed(e) => Outcome::Failed(e),
                                Outcome::Panics => Outcome::Panics,
                            }
                        },
                    },
                }
            },
        }
    }
}

/// How a failed reader stopped, as its outcome says.
pub open spec fn stopped<T>(o: Outcome<T>, e: Stop) -> bool {
    match o {
        Outcome::Done(_) => false,
        Outcome::Failed(msg) => e == Stop::Format(msg),
        Outcome::Panics => e == Stop::Panic,
    }
}

fn parse_sidx(d: &[u8], p: usize, end: usize) -> (r: Result<(u32, Vec<Fragment>), Stop>)
    requires
        d@.len() <= isize::MAX,
        end <= d@.len(),
    ensures
        match r {
            Ok((t, v)) => sidx_spec(d@, p as int, end as int) == Outcome::Done((t, v@)),
            Err(e) => stopped(sidx_spec(d@, p as int, end as int), e),
        },
{
    if p >= d.len() {
        return Err(Stop::Panic);
    }
    let version = d[p];
    let timescale = u32_at(d, p + 8)?;
    let (earliest, first_offset, mut q): (u64, u64, usize) = if version == 0 {
        let e = u32_at(d, p + 12)?;
        let f = u32_at(d, p + 16)?;
        (e as u64, f as u64, p + 20)
    } else {
        let e = u64_at(d, p + 12)?;
        let f = u64_at(d, p + 20)?;
        (e, f, p + 28)
    };
    let count = u16_at(d, q + 2)? as usize;
    q = q + 4;
    if first_offset > u64::MAX - end as u64 {
        return Err(Stop::Panic);
    }
    let mut fragments: Vec<Fragment> = Vec::new();
    let mut offset: u64 = end as u64 + first_offset;
    let mut time: u64 = earliest;
    let mut index: usize = 0;
    let ghost whole = sidx_entries(d@, q as int, count as nat, 0, offset as int, time as int);
    while index < count
        invariant
            d@.len() <= isize::MAX,
            index <= count,
            count <= 65535,
            q <= d@.len() + 32,
            sidx_spec(d@, p as int, end as int) == match whole {
                Outcome::Done(fs) => Outcome::Done((timescale, fs)),
                Outcome::Failed(e) => Outcome::Failed(e),
                Outcome::Panics => Outcome::<(u32, Seq<Fragment>)>::Panics,
            },
            match sidx_entries(d@, q as int, (count - index) as nat, index as int, offset as int, time as int) {
                Outcome::Done(rest) => whole == Outcome::Done(fragments@ + rest),
                Outcome::Failed(e) => whole == Outcome::<Seq<Fragment>>::Failed(e),
                Outcome::Panics => whole is Panics,
            },
        decreases count - index,
    {
        let raw = u32_at(d, q)?;
        let size = raw & 0x7FFF_FFFF;
        let duration = u32_at(d, q + 4)? as u64;
        if offset > u64::MAX - size as u64 || time > u64::MAX - duration {
            return Err(Stop::Panic);
        }
        let f = Fragment { index, offset, size, start_ticks: time, duration_ticks: duration };
        proof {
            let rest = sidx_entries(d@, q + 12, (count - index - 1) as nat, index + 1, offset + size, time + duration);
            if let Outcome::Done(r) = rest {
                assert(fragments@.push(f) + r =~= fragments@ + (seq![f] + r));
            }
        }
        fragments.push(f);
        offset = offset + size as u64;
        time = time + duration;
        index = index + 1;
        q = q + 12;
    }
    assert(fragments@ + Seq::<Fragment>::empty() =~= fragments@);
    Ok((timescale, fragments))
}

/// The byte at `o`, where the data holds it.
pub open spec fn byte_at(d: Seq<u8>, o: int) -> Option<u8> {
    if 0 <= o < d.len() { Some(d[o]) } else { None }
}

/// The size of an ES descriptor: up to four bytes of seven bits each, the high bit saying that
/// another follows; from `i`, with `k` bytes read so far and `size` the value so far.
pub open spec fn descriptor_size(d: Seq<u8>, i: int, k: nat, size: nat) -> Option<(nat, int)>
    decreases 4 - k,
{
    if k >= 4 {
        Some((size, i))
    } else {
        match byte_at(d, i) {
            None => None,
            Some(b) => {
                let s = size * 128 + (b & 0x7F) as nat;
                if b & 0x80 == 0 { Some((s, i + 1)) } else { descriptor_size(d, i + 1, k + 1, s) }
            },
        }
    }
}

/// An ES descriptor at `at`: its tag, size and where its content starts.
pub open spec fn descriptor(d: Seq<u8>, at: int) -> Option<(u8, nat, int)> {
    match byte_at(d, at) {
        None => None,
        Some(tag) => match descriptor_size(d, at + 1, 0, 0) {
            None => None,
            Some((size, content)) => Some((tag, size, content)),
        },
    }
}

/// A descriptor's content starts at most five bytes after it.
pub proof fn lemma_descriptor_size(d: Seq<u8>, i: int, k: nat, size: nat)
    requires
        k <= 4,
        size < pow128(k),
    ensures
        descriptor_size(d, i, k, size) matches Some((s, c)) ==> i <= c <= i + 4 - k && s < pow128(4),
    decreases 4 - k,
{
    if k < 4 {
        if let Some(b) = byte_at(d, i) {
            let s = size * 128 + (b & 0x7F) as nat;
            assert((b & 0x7F) < 128) by (bit_vector);
            assert(s < pow128((k + 1) as nat)) by (nonlinear_arith)
                requires
                    size < pow128(k),
                    s == size * 128 + (b & 0x7F) as nat,
                    (b & 0x7F) < 128,
                    pow128((k + 1) as nat) == 128 * pow128(k);
            if b & 0x80 != 0 {
                lemma_descriptor_size(d, i + 1, k + 1, s);
            }
            lemma_pow128_mono((k + 1) as nat, 4);
        }
    } else {
    }
}

pub open spec fn pow128(n: nat) -> nat
    decreases n,
{
    if n == 0 { 1 } else { 128 * pow128((n - 1) as nat) }
}

pub proof fn lemma_pow128_mono(a: nat, b: nat)
    requires
        a <= b,
    ensures
        pow128(a) <= pow128(b),
    decreases b - a,
{
    if a < b {
        lemma_pow128_mono(a, (b - 1) as nat);
    }
}

/// The `esds` box from `p` to `end`: ES → DecoderConfig → DecoderSpecificInfo (the
/// AudioSpecificConfig), and the average bitrate where it is given.
pub open spec fn esds_parse(d: Seq<u8>, p: int, end: int) -> Option<(Seq<u8>, nat)> {
    match descriptor(d, p) {
        None => None,
        Some((tag, _, content)) => if tag != 3 {
            None
        } else {
            let q0 = content + 2;
            match byte_at(d, q0) {
                None => None,
                Some(flags) => {
                    let q1 = q0 + 1 + if flags & 0x80 != 0 { 2int } else { 0int };
                    let q2: Option<int> = if flags & 0x40 != 0 {
                        match byte_at(d, q1) {
                            Some(n) => Some(q1 + 1 + n),
                            None => None,
                        }
                    } else {
                        Some(q1)
                    };
                    match q2 {
                        None => None,
                        Some(q2) => {
                            let q3 = q2 + if flags & 0x20 != 0 { 2int } else { 0int };
                            match descriptor(d, q3) {
                                None => None,
                                Some((tag2, _, config)) => if tag2 != 4 {
                                    None
                                } else {
                                    match num_at(d, config + 9, 4) {
                                        None => None,
                                        Some(average) => match descriptor(d, config + 13) {
                                            None => None,
                                            Some((tag3, size, info)) => if tag3 != 5 || info + size > end || info + size > d.len() {
                                                None
                                            } else {
                                                Some((d.subrange(info, info + size), average))
                                            },
                                        },
                                    }
                                },
                            }
                        },
                    }
                },
            }
        },
    }
}

/// `esds`: the AudioSpecificConfig where it is there, and the bitrate (the given average, else
/// `bitrate`).
pub open spec fn esds_spec(d: Seq<u8>, p: int, end: int, bitrate: u32) -> (Option<Seq<u8>>, u32) {
    match esds_parse(d, p, end) {
        Some((asc, average)) => (Some(asc), if average > 0 { average as u32 } else { bitrate }),
        None => (None, bitrate),
    }
}

fn read_descriptor(d: &[u8], at: usize) -> (r: Option<(u8, usize, usize)>)
    requires
        d@.len() <= isize::MAX,
        at <= d@.len() + 1024,
    ensures
        match descriptor(d@, at as int) {
            Some((tag, size, content)) => r == Some((tag, size as usize, content as usize)) && at < content <= at + 5,
            None => r is None,
        },
        match descriptor(d@, at as int) {
            Some((_, size, _)) => size < 268435456,
            None => true,
        },
{
    if at >= d.len() {
        return None;
    }
    let tag = d[at];
    let mut size: usize = 0;
    let mut i: usize = at + 1;
    let mut k: usize = 0;
    proof {
        lemma_descriptor_size(d@, at + 1, 0, 0);
        reveal_with_fuel(pow128, 5);
    }
    while k < 4
        invariant
            d@.len() <= isize::MAX,
            at < d@.len(),
            tag == d@[at as int],
            k <= 4,
            i == at + 1 + k,
            size < pow128(k as nat),
            pow128(4) == 268435456,
            descriptor_size(d@, at + 1, 0, 0) == descriptor_size(d@, i as int, k as nat, size as nat),
        decreases 4 - k,
    {
        if i >= d.len() {
            return None;
        }
        let b = d[i];
        let ghost (i0, k0, s0) = (i as int, k as nat, size as nat);
        proof {
            lemma_descriptor_size(d@, i as int, k as nat, size as nat);
            lemma_pow128_mono(k as nat, 3);
            reveal_with_fuel(pow128, 5);
            assert((b & 0x7F) < 128) by (bit_vector);
        }
        size = size * 128 + (b & 0x7F) as usize;
        i = i + 1;
        k = k + 1;
        if b & 0x80 == 0 {
            proof {
                lemma_pow128_mono(k as nat, 4);
                assert(byte_at(d@, i0) == Some(b));
                assert(descriptor_size(d@, i0, k0, s0) == Some((size as nat, i as int)));
                assert(byte_at(d@, at as int) == Some(tag));
            }
            return Some((tag, size, i));
        }
    }
    proof {
        lemma_descriptor_size(d@, at + 1, 0, 0);
    }
    Some((tag, size, i))
}


fn esds_found(d: &[u8], p: usize, end: usize) -> (r: Option<(Vec<u8>, u32)>)
    requires
        d@.len() <= isize::MAX,
        p <= d@.len() + 64,
        end <= d@.len(),
    ensures
        match esds_parse(d@, p as int, end as int) {
            Some((asc, average)) => r matches Some((v, a)) && v@ == asc && a == average,
            None => r is None,
        },
{
    let (tag, _, content) = match read_descriptor(d, p) {
        Some(x) => x,
        None => return None,
    };
    if tag != 3 {
        return None;
    }
    assert(isize::MAX + 1000 < usize::MAX);
    let mut q = content + 2;
    if q >= d.len() {
        return None;
    }
    let flags = d[q];
    q = q + 1;
    if flags & 0x80 != 0 {
        q = q + 2;
    }
    if flags & 0x40 != 0 {
        if q >= d.len() {
            return None;
        }
        q = q + 1 + d[q] as usize;
    }
    if flags & 0x20 != 0 {
        q = q + 2;
    }
    let (tag, _, config) = match read_descriptor(d, q) {
        Some(x) => x,
        None => return None,
    };
    if tag != 4 {
        return None;
    }
    let average = match u32_at(d, config + 9) {
        Ok(a) => a,
        Err(_) => return None,
    };
    let (tag, size, info) = match read_descriptor(d, config + 13) {
        Some(x) => x,
        None => return None,
    };
    if tag != 5 || size > end || info > end - size {
        return None;
    }
    let mut asc: Vec<u8> = Vec::new();
    let mut k: usize = info;
    while k < info + size
        invariant
            info + size <= end <= d@.len(),
            info <= k <= info + size,
            asc@ == d@.subrange(info as int, k as int),
        decreases info + size - k,
    {
        asc.push(d[k]);
        assert(asc@ =~= d@.subrange(info as int, k + 1));
        k = k + 1;
    }
    Some((asc, average))
}

/// `esds`: the AudioSpecificConfig where it is there, and the bitrate.
fn parse_esds(d: &[u8], p: usize, end: usize, bitrate: u32) -> (r: (Option<Vec<u8>>, u32))
    requires
        d@.len() <= isize::MAX,
        p <= d@.len() + 64,
        end <= d@.len(),
    ensures
        r.1 == esds_spec(d@, p as int, end as int, bitrate).1,
        match esds_spec(d@, p as int, end as int, bitrate).0 {
            Some(asc) => r.0 matches Some(v) && v@ == asc,
            None => r.0 is None,
        },
{
    match esds_found(d, p, end) {
        Some((asc, average)) => (Some(asc), if average > 0 { average } else { bitrate }),
        None => (None, bitrate),
    }
}


/// The sampling rates that an AudioSpecificConfig's frequency index points at.
pub const SAMPLE_RATES: [u32; 13] = [96000, 88200, 64000, 48000, 44100, 32000, 24000, 22050, 16000, 12000, 11025, 8000, 7350];

/// The sound track from `moov`.
#[derive(Debug, PartialEq)]
pub struct AudioTrack {
    pub timescale: u32,
    pub audio_specific_config: Vec<u8>,
    pub object_type: u8,
    pub sample_rate: u32,
    pub channels: u32,
    pub average_bitrate: u32,
    pub default_sample_duration: u32,
    pub default_sample_size: u32,
    pub duration_ticks: u64,
}

/// A sound track as plain values.
pub struct TrackView {
    pub timescale: u32,
    pub audio_specific_config: Seq<u8>,
    pub object_type: u8,
    pub sample_rate: u32,
    pub channels: u32,
    pub average_bitrate: u32,
    pub default_sample_duration: u32,
    pub default_sample_size: u32,
    pub duration_ticks: u64,
}

impl AudioTrack {
    pub open spec fn view(&self) -> TrackView {
        TrackView {
            timescale: self.timescale,
            audio_specific_config: self.audio_specific_config@,
            object_type: self.object_type,
            sample_rate: self.sample_rate,
            channels: self.channels,
            average_bitrate: self.average_bitrate,
            default_sample_duration: self.default_sample_duration,
            default_sample_size: self.default_sample_size,
            duration_ticks: self.duration_ticks,
        }
    }
}

/// What the reading of `moov` has gathered so far.
pub struct MoovState {
    pub timescale: u32,
    pub default_duration: u32,
    pub default_size: u32,
    pub duration_ticks: u64,
    pub asc: Option<Seq<u8>>,
    pub channels: u32,
    pub sample_rate: u32,
    pub bitrate: u32,
}

/// Before anything is read: 1024-sample frames, stereo, 44.1 kHz, 128 kbit/s.
pub open spec fn moov_start() -> MoovState {
    MoovState {
        timescale: 0,
        default_duration: 1024,
        default_size: 0,
        duration_ticks: 0,
        asc: None,
        channels: 2,
        sample_rate: 44100,
        bitrate: 128_000,
    }
}

/// A sample entry of `stsd`: `mp4a` gives the channels, the rate and, from `esds`, the
/// AudioSpecificConfig and the bitrate.
pub open spec fn entry_step(d: Seq<u8>, st: MoovState, e: BoxRef) -> Outcome<MoovState> {
    if e.kind != MP4A {
        Outcome::Done(st)
    } else {
        let p = e.content + 8;
        match num_at(d, p + 8, 2) {
            None => Outcome::Failed("truncated"),
            Some(channels) => match num_at(d, p + 16, 4) {
                None => Outcome::Failed("truncated"),
                Some(rate) => {
                    let st1 = MoovState { channels: channels as u32, sample_rate: (rate as u32) >> 16u32, ..st };
                    match child_spec(d, p + 20, e.end as int, ESDS) {
                        Some(esds) => {
                            let (found, bitrate) = esds_spec(d, esds.content + 4, esds.end as int, st.bitrate);
                            Outcome::Done(MoovState { asc: found, bitrate, ..st1 })
                        },
                        None => Outcome::Done(st1),
                    }
                },
            },
        }
    }
}

/// The sample entries, in order.
pub open spec fn entries_fold(d: Seq<u8>, es: Seq<BoxRef>, st: MoovState) -> Outcome<MoovState>
    decreases es.len(),
{
    if es.len() == 0 {
        Outcome::Done(st)
    } else {
        match entry_step(d, st, es[0]) {
            Outcome::Done(st2) => entries_fold(d, es.drop_first(), st2),
            Outcome::Failed(e) => Outcome::Failed(e),
            Outcome::Panics => Outcome::Panics,
        }
    }
}

/// `mdhd`: the track's timescale and duration.
pub open spec fn mdhd_step(d: Seq<u8>, st: MoovState, mdhd: Option<BoxRef>) -> Outcome<MoovState> {
    match mdhd {
        None => Outcome::Done(st),
        Some(m) => if m.content >= d.len() {
            Outcome::Panics
        } else if d[m.content as int] == 1 {
            match num_at(d, m.content + 20, 4) {
                None => Outcome::Failed("truncated"),
                Some(ts) => match num_at(d, m.content + 24, 8) {
                    None => Outcome::Failed("truncated"),
                    Some(dt) => Outcome::Done(MoovState { timescale: ts as u32, duration_ticks: dt as u64, ..st }),
                },
            }
        } else {
            match num_at(d, m.content + 12, 4) {
                None => Outcome::Failed("truncated"),
                Some(ts) => match num_at(d, m.content + 16, 4) {
                    None => Outcome::Failed("truncated"),
                    Some(dt) => Outcome::Done(MoovState { timescale: ts as u32, duration_ticks: dt as u64, ..st }),
                },
            }
        },
    }
}

/// A `trak`: `mdia` → `mdhd`, and `mdia` → `minf` → `stbl` → `stsd` with its sample entries.
pub open spec fn trak_step(d: Seq<u8>, st: MoovState, b: BoxRef) -> Outcome<MoovState> {
    match child_spec(d, b.content as int, b.end as int, MDIA) {
        None => Outcome::Failed("no mdia"),
        Some(mdia) => match mdhd_step(d, st, child_spec(d, mdia.content as int, mdia.end as int, MDHD)) {
            Outcome::Done(st1) => match child_spec(d, mdia.content as int, mdia.end as int, MINF) {
                None => Outcome::Failed("no minf"),
                Some(minf) => match child_spec(d, minf.content as int, minf.end as int, STBL) {
                    None => Outcome::Failed("no stbl"),
                    Some(stbl) => match child_spec(d, stbl.content as int, stbl.end as int, STSD) {
                        None => Outcome::Failed("no stsd"),
                        Some(stsd) => match boxes_from(d, stsd.content + 8, stsd.end as int) {
                            Some(es) => entries_fold(d, es, st1),
                            None => Outcome::Panics,
                        },
                    },
                },
            },
            other => other,
        },
    }
}

/// A box of `moov`: `mvex` → `trex` gives the default sample duration and size; a `trak` the rest.
pub open spec fn moov_step(d: Seq<u8>, st: MoovState, b: BoxRef) -> Outcome<MoovState> {
    if b.kind == MVEX {
        match child_spec(d, b.content as int, b.end as int, TREX) {
            Some(trex) => match num_at(d, trex.content + 12, 4) {
                None => Outcome::Failed("truncated"),
                Some(dd) => match num_at(d, trex.content + 16, 4) {
                    None => Outcome::Failed("truncated"),
                    Some(ds) => Outcome::Done(MoovState { default_duration: dd as u32, default_size: ds as u32, ..st }),
                },
            },
            None => Outcome::Done(st),
        }
    } else if b.kind == TRAK {
        trak_step(d, st, b)
    } else {
        Outcome::Done(st)
    }
}

/// The boxes of `moov`, in order.
pub open spec fn moov_fold(d: Seq<u8>, bs: Seq<BoxRef>, st: MoovState) -> Outcome<MoovState>
    decreases bs.len(),
{
    if bs.len() == 0 {
        Outcome::Done(st)
    } else {
        match moov_step(d, st, bs[0]) {
            Outcome::Done(st2) => moov_fold(d, bs.drop_first(), st2),
            Outcome::Failed(e) => Outcome::Failed(e),
            Outcome::Panics => Outcome::Panics,
        }
    }
}

/// The sound track out of what `moov` gave: the AudioSpecificConfig (at least two bytes) gives
/// the object type, and where it says so the sampling rate and the channels.
pub open spec fn track_of(st: MoovState) -> Outcome<TrackView> {
    match st.asc {
        None => Outcome::Failed("no AudioSpecificConfig"),
        Some(asc) => if asc.len() < 2 {
            Outcome::Failed("no AudioSpecificConfig")
        } else {
            let frequency_index = ((asc[0] & 0x07u8) << 1u8) | (asc[1] >> 7u8);
            let channel_config = ((asc[1] >> 3u8) & 0x0Fu8) as u32;
            let channels = if channel_config > 0 { channel_config } else { st.channels };
            let sample_rate = if frequency_index < 13 { SAMPLE_RATES@[frequency_index as int] } else { st.sample_rate };
            Outcome::Done(TrackView {
                timescale: if st.timescale == 0 { sample_rate } else { st.timescale },
                audio_specific_config: asc,
                object_type: asc[0] >> 3u8,
                sample_rate,
                channels,
                average_bitrate: st.bitrate,
                default_sample_duration: st.default_duration,
                default_sample_size: st.default_size,
                duration_ticks: st.duration_ticks,
            })
        },
    }
}

/// `moov` from `start` to `end`: the sound track.
pub open spec fn moov_spec(d: Seq<u8>, start: int, end: int) -> Outcome<TrackView> {
    match boxes_from(d, start, end) {
        None => Outcome::Panics,
        Some(bs) => match moov_fold(d, bs, moov_start()) {
            Outcome::Done(st) => track_of(st),
            Outcome::Failed(e) => Outcome::Failed(e),
            Outcome::Panics => Outcome::Panics,
        },
    }
}

/// The reading of `moov` so far, in the running program.
struct MoovVars {
    timescale: u32,
    default_duration: u32,
    default_size: u32,
    duration_ticks: u64,
    asc: Option<Vec<u8>>,
    channels: u32,
    sample_rate: u32,
    bitrate: u32,
}

impl MoovVars {
    spec fn view(&self) -> MoovState {
        MoovState {
            timescale: self.timescale,
            default_duration: self.default_duration,
            default_size: self.default_size,
            duration_ticks: self.duration_ticks,
            asc: match self.asc {
                Some(a) => Some(a@),
                None => None,
            },
            channels: self.channels,
            sample_rate: self.sample_rate,
            bitrate: self.bitrate,
        }
    }
}

fn entry_step_exec(d: &[u8], st: &mut MoovVars, e: BoxRef) -> (r: Result<(), Stop>)
    requires
        d@.len() <= isize::MAX,
        e.content <= d@.len() + 16,
    ensures
        match r {
            Ok(_) => entry_step(d@, old(st).view(), e) == Outcome::Done(final(st).view()),
            Err(x) => stopped(entry_step(d@, old(st).view(), e), x),
        },
{
    if e.kind != MP4A {
        return Ok(());
    }
    let p = e.content + 8;
    let channels = u16_at(d, p + 8)?;
    let rate = u32_at(d, p + 16)?;
    st.channels = channels as u32;
    st.sample_rate = rate >> 16;
    match child(d, p + 20, e.end, ESDS) {
        Some(esds) => {
            let (found, bitrate) = parse_esds(d, esds.content + 4, esds.end, st.bitrate);
            st.asc = found;
            st.bitrate = bitrate;
        },
        None => {},
    }
    Ok(())
}


fn mdhd_exec(d: &[u8], st: &mut MoovVars, mdhd: Option<BoxRef>) -> (r: Result<(), Stop>)
    requires
        mdhd matches Some(m) ==> m.content <= d@.len(),
        d@.len() <= isize::MAX,
    ensures
        match r {
            Ok(_) => mdhd_step(d@, old(st).view(), mdhd) == Outcome::Done(final(st).view()),
            Err(x) => stopped(mdhd_step(d@, old(st).view(), mdhd), x),
        },
{
    match mdhd {
        None => Ok(()),
        Some(m) => {
            if m.content >= d.len() {
                return Err(Stop::Panic);
            }
            let version = d[m.content];
            if version == 1 {
                let ts = u32_at(d, m.content + 20)?;
                let dt = u64_at(d, m.content + 24)?;
                st.timescale = ts;
                st.duration_ticks = dt;
            } else {
                let ts = u32_at(d, m.content + 12)?;
                let dt = u32_at(d, m.content + 16)?;
                st.timescale = ts;
                st.duration_ticks = dt as u64;
            }
            Ok(())
        },
    }
}

fn trak_exec(d: &[u8], st: &mut MoovVars, b: BoxRef) -> (r: Result<(), Stop>)
    requires
        d@.len() <= isize::MAX,
    ensures
        match r {
            Ok(_) => trak_step(d@, old(st).view(), b) == Outcome::Done(final(st).view()),
            Err(x) => stopped(trak_step(d@, old(st).view(), b), x),
        },
{
    let mdia = match child(d, b.content, b.end, MDIA) {
        Some(x) => x,
        None => return Err(Stop::Format("no mdia")),
    };
    mdhd_exec(d, st, child(d, mdia.content, mdia.end, MDHD))?;
    let minf = match child(d, mdia.content, mdia.end, MINF) {
        Some(x) => x,
        None => return Err(Stop::Format("no minf")),
    };
    let stbl = match child(d, minf.content, minf.end, STBL) {
        Some(x) => x,
        None => return Err(Stop::Format("no stbl")),
    };
    let stsd = match child(d, stbl.content, stbl.end, STSD) {
        Some(x) => x,
        None => return Err(Stop::Format("no stsd")),
    };
    proof {
        lemma_boxes_within(d@, stsd.content + 8, stsd.end as int);
        lemma_boxes_shape(d@, stsd.content + 8, stsd.end as int);
    }
    let es = match boxes(d, stsd.content + 8, stsd.end) {
        Some(es) => es,
        None => return Err(Stop::Panic),
    };
    let ghost s1 = st.view();
    assert(trak_step(d@, old(st).view(), b) == entries_fold(d@, es@, s1));
    let mut k: usize = 0;
    assert(es@.skip(0) =~= es@);
    while k < es.len()
        invariant
            d@.len() <= isize::MAX,
            k <= es@.len(),
            forall|j: int| 0 <= j < es@.len() ==> (#[trigger] es@[j]).content <= stsd.end,
            stsd.end <= d@.len(),
            entries_fold(d@, es@, s1) == entries_fold(d@, es@.skip(k as int), st.view()),
            trak_step(d@, old(st).view(), b) == entries_fold(d@, es@, s1),
        decreases es.len() - k,
    {
        assert(es@.skip(k as int)[0] == es@[k as int]);
        assert(es@.skip(k as int).drop_first() =~= es@.skip(k + 1));
        entry_step_exec(d, st, es[k])?;
        k = k + 1;
    }
    Ok(())
}

fn moov_step_exec(d: &[u8], st: &mut MoovVars, b: BoxRef) -> (r: Result<(), Stop>)
    requires
        d@.len() <= isize::MAX,
    ensures
        match r {
            Ok(_) => moov_step(d@, old(st).view(), b) == Outcome::Done(final(st).view()),
            Err(x) => stopped(moov_step(d@, old(st).view(), b), x),
        },
{
    if b.kind == MVEX {
        match child(d, b.content, b.end, TREX) {
            Some(trex) => {
                let dd = u32_at(d, trex.content + 12)?;
                let ds = u32_at(d, trex.content + 16)?;
                st.default_duration = dd;
                st.default_size = ds;
            },
            None => {},
        }
        Ok(())
    } else if b.kind == TRAK {
        trak_exec(d, st, b)
    } else {
        Ok(())
    }
}

fn track_of_exec(st: MoovVars) -> (r: Result<AudioTrack, Stop>)
    ensures
        match r {
            Ok(a) => track_of(st.view()) == Outcome::Done(a.view()),
            Err(x) => stopped(track_of(st.view()), x),
        },
{
    let asc = match st.asc {
        Some(a) => a,
        None => return Err(Stop::Format("no AudioSpecificConfig")),
    };
    if asc.len() < 2 {
        return Err(Stop::Format("no AudioSpecificConfig"));
    }
    let object_type = asc[0] >> 3;
    let frequency_index = ((asc[0] & 0x07) << 1) | (asc[1] >> 7);
    let channel_config = ((asc[1] >> 3) & 0x0F) as u32;
    let channels = if channel_config > 0 { channel_config } else { st.channels };
    let sample_rate = if frequency_index < 13 { SAMPLE_RATES[frequency_index as usize] } else { st.sample_rate };
    Ok(AudioTrack {
        timescale: if st.timescale == 0 { sample_rate } else { st.timescale },
        audio_specific_config: asc,
        object_type,
        sample_rate,
        channels,
        average_bitrate: st.bitrate,
        default_sample_duration: st.default_duration,
        default_sample_size: st.default_size,
        duration_ticks: st.duration_ticks,
    })
}

fn parse_moov(d: &[u8], start: usize, end: usize) -> (r: Result<AudioTrack, Stop>)
    requires
        d@.len() <= isize::MAX,
        end <= d@.len(),
    ensures
        match r {
            Ok(a) => moov_spec(d@, start as int, end as int) == Outcome::Done(a.view()),
            Err(x) => stopped(moov_spec(d@, start as int, end as int), x),
        },
{
    proof {
        lemma_boxes_within(d@, start as int, end as int);
    }
    let bs = match boxes(d, start, end) {
        Some(bs) => bs,
        None => return Err(Stop::Panic),
    };
    let mut st = MoovVars {
        timescale: 0,
        default_duration: 1024,
        default_size: 0,
        duration_ticks: 0,
        asc: None,
        channels: 2,
        sample_rate: 44100,
        bitrate: 128_000,
    };
    assert(st.view() == moov_start());
    let mut k: usize = 0;
    assert(bs@.skip(0) =~= bs@);
    while k < bs.len()
        invariant
            d@.len() <= isize::MAX,
            k <= bs@.len(),
            boxes_from(d@, start as int, end as int) == Some(bs@),
            moov_fold(d@, bs@, moov_start()) == moov_fold(d@, bs@.skip(k as int), st.view()),
        decreases bs.len() - k,
    {
        assert(bs@.skip(k as int)[0] == bs@[k as int]);
        assert(bs@.skip(k as int).drop_first() =~= bs@.skip(k + 1));
        moov_step_exec(d, &mut st, bs[k])?;
        k = k + 1;
    }
    track_of_exec(st)
}


/// The start of a file: the track and the table of fragments.
#[derive(Debug, PartialEq)]
pub struct Index {
    pub track: AudioTrack,
    pub fragments: Vec<Fragment>,
    pub index_timescale: u32,
    /// Where the headers (`ftyp`, `moov`, `sidx`) end: the start of the first fragment.
    pub header_end: u64,
}

/// An index as plain values.
pub struct IndexView {
    pub track: TrackView,
    pub fragments: Seq<Fragment>,
    pub index_timescale: u32,
    pub header_end: u64,
}

impl Index {
    pub open spec fn view(&self) -> IndexView {
        IndexView {
            track: self.track.view(),
            fragments: self.fragments@,
            index_timescale: self.index_timescale,
            header_end: self.header_end,
        }
    }
}

/// The index out of the track and the table found, where both were found.
pub open spec fn index_finish(track: Option<TrackView>, frags: Option<(u32, Seq<Fragment>, int)>) -> Outcome<IndexView> {
    match track {
        None => Outcome::Failed("no moov"),
        Some(t) => match frags {
            None => Outcome::Failed("no sidx"),
            Some((ts, fs, end)) => Outcome::Done(IndexView { track: t, fragments: fs, index_timescale: ts, header_end: end as u64 }),
        },
    }
}

/// The headers from the box list `bs`: `moov` gives the track, `sidx` the table; the walk stops
/// at the first fragment (`moof`, `mdat`) or once both are there.
pub open spec fn index_walk(d: Seq<u8>, bs: Seq<BoxRef>, track: Option<TrackView>, frags: Option<(u32, Seq<Fragment>, int)>)
    -> Outcome<IndexView>
    decreases bs.len(),
{
    if bs.len() == 0 {
        index_finish(track, frags)
    } else {
        let b = bs[0];
        if b.kind == MOOF || b.kind == MDAT {
            index_finish(track, frags)
        } else if b.end > d.len() {
            Outcome::Failed("truncated")
        } else {
            let step: Outcome<(Option<TrackView>, Option<(u32, Seq<Fragment>, int)>)> = if b.kind == MOOV {
                match moov_spec(d, b.content as int, b.end as int) {
                    Outcome::Done(t) => Outcome::Done((Some(t), frags)),
                    Outcome::Failed(e) => Outcome::Failed(e),
                    Outcome::Panics => Outcome::Panics,
                }
            } else if b.kind == SIDX {
                match sidx_spec(d, b.content as int, b.end as int) {
                    Outcome::Done((ts, fs)) => Outcome::Done((track, Some((ts, fs, b.end as int)))),
                    Outcome::Failed(e) => Outcome::Failed(e),
                    Outcome::Panics => Outcome::Panics,
                }
            } else {
                Outcome::Done((track, frags))
            };
            match step {
                Outcome::Done((t2, f2)) => if t2 is Some && f2 is Some {
                    index_finish(t2, f2)
                } else {
                    index_walk(d, bs.drop_first(), t2, f2)
                },
                Outcome::Failed(e) => Outcome::Failed(e),
                Outcome::Panics => Outcome::Panics,
            }
        }
    }
}

/// The index of the file's start (`ftyp`, `moov`, `sidx`).
pub open spec fn index_spec(head: Seq<u8>) -> Outcome<IndexView> {
    match boxes_from(head, 0, head.len() as int) {
        None => Outcome::Panics,
        Some(bs) => index_walk(head, bs, None, None),
    }
}

fn clone_bytes(v: &Vec<u8>) -> (r: Vec<u8>)
    ensures
        r@ == v@,
{
    let mut r: Vec<u8> = Vec::new();
    let mut i: usize = 0;
    while i < v.len()
        invariant
            i <= v.len(),
            r@ == v@.take(i as int),
        decreases v.len() - i,
    {
        r.push(v[i]);
        assert(r@ =~= v@.take(i + 1));
        i = i + 1;
    }
    assert(v@.take(v.len() as int) =~= v@);
    r
}

spec fn opt_track_view(t: &Option<AudioTrack>) -> Option<TrackView> {
    match t {
        Some(a) => Some(a.view()),
        None => None,
    }
}

spec fn opt_frags_view(f: &Option<(u32, Vec<Fragment>, usize)>) -> Option<(u32, Seq<Fragment>, int)> {
    match f {
        Some((ts, fs, e)) => Some((*ts, fs@, *e as int)),
        None => None,
    }
}

fn index_exec(head: &[u8]) -> (r: Result<Index, Stop>)
    requires
        head@.len() <= isize::MAX,
    ensures
        match r {
            Ok(ix) => index_spec(head@) == Outcome::Done(ix.view()),
            Err(x) => stopped(index_spec(head@), x),
        },
{
    proof {
        lemma_boxes_within(head@, 0, head@.len() as int);
    }
    let bs = match boxes(head, 0, head.len()) {
        Some(bs) => bs,
        None => return Err(Stop::Panic),
    };
    let mut track: Option<AudioTrack> = None;
    let mut fragments: Option<(u32, Vec<Fragment>, usize)> = None;
    let mut k: usize = 0;
    let mut done = false;
    assert(bs@.skip(0) =~= bs@);
    while k < bs.len() && !done
        invariant
            head@.len() <= isize::MAX,
            k <= bs@.len(),
            boxes_from(head@, 0, head@.len() as int) == Some(bs@),
            index_walk(head@, bs@, None, None) == if done {
                index_finish(opt_track_view(&track), opt_frags_view(&fragments))
            } else {
                index_walk(head@, bs@.skip(k as int), opt_track_view(&track), opt_frags_view(&fragments))
            },
        decreases bs.len() - k, if done { 0int } else { 1int },
    {
        assert(bs@.skip(k as int)[0] == bs@[k as int]);
        assert(bs@.skip(k as int).drop_first() =~= bs@.skip(k + 1));
        let b = bs[k];
        if b.kind == MOOF || b.kind == MDAT {
            done = true;
        } else {
            if b.end > head.len() {
                return Err(Stop::Format("truncated"));
            }
            if b.kind == MOOV {
                track = Some(parse_moov(head, b.content, b.end)?);
            } else if b.kind == SIDX {
                let (ts, fs) = parse_sidx(head, b.content, b.end)?;
                fragments = Some((ts, fs, b.end));
            }
            k = k + 1;
            if track.is_some() && fragments.is_some() {
                done = true;
            }
        }
    }
    proof {
        if !done {
            assert(bs@.skip(k as int) =~= Seq::<BoxRef>::empty());
        }
    }
    let t = match track {
        Some(t) => t,
        None => return Err(Stop::Format("no moov")),
    };
    let (index_timescale, fs, end) = match fragments {
        Some(f) => f,
        None => return Err(Stop::Format("no sidx")),
    };
    Ok(Index { track: t, fragments: fs, index_timescale, header_end: end as u64 })
}

/// Reads the file's start (`ftyp`, `moov`, `sidx`). The error `truncated` asks to read more.
pub fn parse_index(head: &[u8]) -> (r: Result<Index, FormatError>)
    requires
        head@.len() <= isize::MAX,
        !(index_spec(head@) is Panics),
    ensures
        match index_spec(head@) {
            Outcome::Done(v) => r matches Ok(ix) && ix.view() == v,
            Outcome::Failed(e) => r == Err::<Index, FormatError>(FormatError(e)),
            Outcome::Panics => false,
        },
{
    match index_exec(head) {
        Ok(ix) => Ok(ix),
        Err(Stop::Format(e)) => Err(FormatError(e)),
        Err(Stop::Panic) => Err(FormatError("truncated")),
    }
}

/// `parse_index`, or `None` where the bytes would make it index past them or overflow.
pub fn try_parse_index(head: &[u8]) -> (r: Option<Result<Index, FormatError>>)
    requires
        head@.len() <= isize::MAX,
    ensures
        match index_spec(head@) {
            Outcome::Done(v) => r matches Some(Ok(ix)) && ix.view() == v,
            Outcome::Failed(e) => r == Some(Err::<Index, FormatError>(FormatError(e))),
            Outcome::Panics => r is None,
        },
{
    match index_exec(head) {
        Ok(ix) => Some(Ok(ix)),
        Err(Stop::Format(e)) => Some(Err(FormatError(e))),
        Err(Stop::Panic) => None,
    }
}


/// Where the time `ticks` falls: the first fragment that ends after it, else the last.
pub open spec fn fragment_of(fs: Seq<Fragment>, ticks: int, k: int) -> int
    decreases fs.len() - k,
{
    if k >= fs.len() || k < 0 {
        if fs.len() > 0 { fs.len() - 1 } else { 0 }
    } else if ticks < fs[k].start_ticks + fs[k].duration_ticks {
        k
    } else {
        fragment_of(fs, ticks, k + 1)
    }
}

impl Index {
    /// The length in milliseconds (rounded down): by the table of fragments where the index has
    /// a timescale, else by the track's own duration.
    pub open spec fn duration_ms_spec(&self) -> int {
        if self.fragments@.len() > 0 && self.index_timescale > 0 {
            let last = self.fragments@.last();
            (last.start_ticks + last.duration_ticks) * 1000 / (self.index_timescale as int)
        } else {
            self.track.duration_ticks * 1000 / (if self.track.timescale > 0 { self.track.timescale as int } else { 1 })
        }
    }

    /// The length, in milliseconds.
    pub fn duration(&self) -> (r: u128)
        ensures
            r == self.duration_ms_spec(),
    {
        if self.fragments.len() > 0 && self.index_timescale > 0 {
            let last = self.fragments[self.fragments.len() - 1];
            (last.start_ticks as u128 + last.duration_ticks as u128) * 1000 / self.index_timescale as u128
        } else {
            let ts: u128 = if self.track.timescale > 0 { self.track.timescale as u128 } else { 1 };
            self.track.duration_ticks as u128 * 1000 / ts
        }
    }

    /// The fragment in which the position `position_ms` (milliseconds) sounds.
    pub fn fragment_at(&self, position_ms: u64) -> (r: usize)
        ensures
            r == fragment_of(self.fragments@, position_ms as int * self.index_timescale as int / 1000, 0),
    {
        assert(position_ms as u128 * self.index_timescale as u128 <= u64::MAX as int * u32::MAX as int) by (nonlinear_arith);
        let ticks: u128 = position_ms as u128 * self.index_timescale as u128 / 1000;
        let mut k: usize = 0;
        while k < self.fragments.len()
            invariant
                k <= self.fragments@.len(),
                ticks == position_ms as int * self.index_timescale as int / 1000,
                fragment_of(self.fragments@, ticks as int, 0) == fragment_of(self.fragments@, ticks as int, k as int),
            decreases self.fragments.len() - k,
        {
            let f = self.fragments[k];
            if ticks < f.start_ticks as u128 + f.duration_ticks as u128 {
                return k;
            }
            k = k + 1;
        }
        if self.fragments.len() > 0 { self.fragments.len() - 1 } else { 0 }
    }

    /// The file's full length by the table of fragments.
    pub fn total_size(&self) -> (r: u64)
        requires
            self.fragments@.len() > 0 ==> self.fragments@.last().offset + self.fragments@.last().size <= u64::MAX,
        ensures
            r == if self.fragments@.len() > 0 {
                self.fragments@.last().offset + self.fragments@.last().size
            } else {
                self.header_end as int
            },
    {
        if self.fragments.len() > 0 {
            let f = self.fragments[self.fragments.len() - 1];
            f.offset + f.size as u64
        } else {
            self.header_end
        }
    }
}

/// The fragments that `sidx` lists follow each other: each starts where the one before ends,
/// in bytes and in time, and they are numbered in order.
pub proof fn law_sidx_fragments_are_contiguous(d: Seq<u8>, q: int, n: nat, index: int, offset: int, time: int)
    requires
        0 <= index <= usize::MAX,
        0 <= offset <= u64::MAX,
        0 <= time <= u64::MAX,
    ensures
        sidx_entries(d, q, n, index, offset, time) matches Outcome::Done(fs) ==> {
            &&& fs.len() == n
            &&& forall|k: int| 0 <= k < fs.len() ==> (#[trigger] fs[k]).index == index + k
            &&& (fs.len() > 0 ==> fs[0].offset == offset && fs[0].start_ticks == time)
            &&& forall|k: int| 0 < k < fs.len() ==> {
                &&& (#[trigger] fs[k]).offset == fs[k - 1].offset + fs[k - 1].size
                &&& fs[k].start_ticks == fs[k - 1].start_ticks + fs[k - 1].duration_ticks
            }
        },
    decreases n,
{
    if n > 0 {
        if let (Some(raw), Some(duration)) = (num_at(d, q, 4), num_at(d, q + 4, 4)) {
            let size = (raw as u32) & 0x7FFF_FFFFu32;
            if !(offset + size > u64::MAX || time + duration > u64::MAX || index + 1 > usize::MAX) {
                law_sidx_fragments_are_contiguous(d, q + 12, (n - 1) as nat, index + 1, offset + size, time + duration);
                if let Outcome::Done(fs) = sidx_entries(d, q, n, index, offset, time) {
                    let rest = sidx_entries(d, q + 12, (n - 1) as nat, index + 1, offset + size, time + duration)->Done_0;
                    assert forall|k: int| 0 <= k < fs.len() implies (#[trigger] fs[k]).index == index + k by {
                        if k > 0 {
                            assert(fs[k] == rest[k - 1]);
                        }
                    }
                    assert forall|k: int| 0 < k < fs.len() implies {
                        &&& (#[trigger] fs[k]).offset == fs[k - 1].offset + fs[k - 1].size
                        &&& fs[k].start_ticks == fs[k - 1].start_ticks + fs[k - 1].duration_ticks
                    } by {
                        assert(fs[k] == rest[k - 1]);
                        if k > 1 {
                            assert(fs[k - 1] == rest[k - 2]);
                            assert(rest[k - 1].offset == rest[k - 2].offset + rest[k - 2].size);
                        } else {
                            assert(rest[0].offset == offset + size);
                            assert(rest[0].start_ticks == time + duration);
                            assert(fs[0].offset == offset);
                            assert(fs[0].size == size);
                            assert(fs[0].start_ticks == time);
                            assert(fs[0].duration_ticks == duration);
                        }
                    }
                }
            }
        }
    }
}


/// An AAC frame: where it lies in the fragment's data, when and how long it sounds (in the
/// track's ticks).
#[derive(Clone, Copy, Debug, PartialEq, Eq)]
pub struct Sample {
    pub offset: usize,
    pub size: usize,
    pub time_ticks: u64,
    pub duration_ticks: u64,
}

/// The reading of a `traf` so far: default sample duration and size, the base offset, the time.
#[derive(Clone, Copy)]
pub struct TrafState {
    pub dd: u32,
    pub ds: u32,
    pub base: u64,
    pub time: u64,
}

/// A field of `n` bytes at `q` where `flag` is set, else `default`; and where the next field is.
pub open spec fn opt_field(d: Seq<u8>, q: int, flag: bool, n: nat, default: nat) -> Option<(nat, int)> {
    if flag {
        match num_at(d, q, n) {
            Some(v) => Some((v, q + n)),
            None => None,
        }
    } else {
        Some((default, q))
    }
}

/// The samples of a `trun` from `q`: `n` more, at `position` and `time`; and the time after them.
pub open spec fn trun_samples(d: Seq<u8>, q: int, n: nat, flags: u32, dd: u32, ds: u32, position: int, time: int)
    -> Outcome<(Seq<Sample>, int)>
    decreases n,
{
    if n == 0 {
        Outcome::Done((Seq::empty(), time))
    } else {
        match opt_field(d, q, flags & 0x100 != 0, 4, dd as nat) {
            None => Outcome::Failed("truncated"),
            Some((duration, q1)) => match opt_field(d, q1, flags & 0x200 != 0, 4, ds as nat) {
                None => Outcome::Failed("truncated"),
                Some((size, q2)) => {
                    let q3 = q2 + (if flags & 0x400 != 0 { 4int } else { 0int }) + (if flags & 0x800 != 0 { 4int } else { 0int });
                    if q3 > usize::MAX || position + size > usize::MAX {
                        Outcome::Panics
                    } else if position + size > d.len() {
                        Outcome::Failed("sample outside the fragment")
                    } else if time + duration > u64::MAX {
                        Outcome::Panics
                    } else {
                        let sample = Sample {
                            offset: position as usize,
                            size: size as usize,
                            time_ticks: time as u64,
                            duration_ticks: duration as u64,
                        };
                        match trun_samples(d, q3, (n - 1) as nat, flags, dd, ds, position + size, time + duration) {
                            Outcome::Done((rest, t)) => Outcome::Done((seq![sample] + rest, t)),
                            Outcome::Failed(e) => Outcome::Failed(e),
                            Outcome::Panics => Outcome::Panics,
                        }
                    }
                },
            },
        }
    }
}

/// A `trun` box: the data offset from the base, then its samples.
pub open spec fn trun_spec(d: Seq<u8>, b: BoxRef, st: TrafState) -> Outcome<(Seq<Sample>, TrafState)> {
    match num_at(d, b.content as int, 4) {
        None => Outcome::Failed("truncated"),
        Some(raw_flags) => match num_at(d, b.content + 4, 4) {
            None => Outcome::Failed("truncated"),
            Some(count) => {
                let flags = (raw_flags as u32) & 0xFF_FFFFu32;
                match opt_field(d, b.content + 8, flags & 0x01 != 0, 4, 0) {
                    None => Outcome::Failed("truncated"),
                    Some((raw_offset, q1)) => {
                        let data_offset: int = if flags & 0x01 != 0 { ((raw_offset as u32) as i32) as int } else { 0 };
                        let q2 = q1 + if flags & 0x04 != 0 { 4int } else { 0int };
                        let sum = (st.base as i64) as int + data_offset;
                        if sum < i64::MIN || sum > i64::MAX {
                            Outcome::Panics
                        } else if sum < 0 || sum > usize::MAX {
                            Outcome::Failed("bad data offset")
                        } else {
                            match trun_samples(d, q2, count, flags, st.dd, st.ds, sum, st.time as int) {
                                Outcome::Done((samples, t)) => Outcome::Done((samples, TrafState { time: t as u64, ..st })),
                                Outcome::Failed(e) => Outcome::Failed(e),
                                Outcome::Panics => Outcome::Panics,
                            }
                        }
                    },
                }
            },
        },
    }
}

/// A `tfhd` box: the base offset and the default sample duration and size where given.
pub open spec fn tfhd_spec(d: Seq<u8>, b: BoxRef, st: TrafState) -> Outcome<TrafState> {
    match num_at(d, b.content as int, 4) {
        None => Outcome::Failed("truncated"),
        Some(raw_flags) => {
            let flags = (raw_flags as u32) & 0xFF_FFFFu32;
            match opt_field(d, b.content + 8, flags & 0x01 != 0, 8, st.base as nat) {
                None => Outcome::Failed("truncated"),
                Some((base, q1)) => {
                    let q2 = q1 + if flags & 0x02 != 0 { 4int } else { 0int };
                    match opt_field(d, q2, flags & 0x08 != 0, 4, st.dd as nat) {
                        None => Outcome::Failed("truncated"),
                        Some((dd, q3)) => match opt_field(d, q3, flags & 0x10 != 0, 4, st.ds as nat) {
                            None => Outcome::Failed("truncated"),
                            Some((ds, _)) => Outcome::Done(TrafState { dd: dd as u32, ds: ds as u32, base: base as u64, ..st }),
                        },
                    }
                },
            }
        },
    }
}

/// A `tfdt` box: the decode time of the first sample.
pub open spec fn tfdt_spec(d: Seq<u8>, b: BoxRef, st: TrafState) -> Outcome<TrafState> {
    if b.content >= d.len() {
        Outcome::Panics
    } else if d[b.content as int] == 1 {
        match num_at(d, b.content + 4, 8) {
            None => Outcome::Failed("truncated"),
            Some(t) => Outcome::Done(TrafState { time: t as u64, ..st }),
        }
    } else {
        match num_at(d, b.content + 4, 4) {
            None => Outcome::Failed("truncated"),
            Some(t) => Outcome::Done(TrafState { time: t as u64, ..st }),
        }
    }
}

/// A box of a `traf`.
pub open spec fn traf_box(d: Seq<u8>, b: BoxRef, st: TrafState) -> Outcome<(Seq<Sample>, TrafState)> {
    if b.kind == TFHD {
        match tfhd_spec(d, b, st) {
            Outcome::Done(s2) => Outcome::Done((Seq::empty(), s2)),
            Outcome::Failed(e) => Outcome::Failed(e),
            Outcome::Panics => Outcome::Panics,
        }
    } else if b.kind == TFDT {
        match tfdt_spec(d, b, st) {
            Outcome::Done(s2) => Outcome::Done((Seq::empty(), s2)),
            Outcome::Failed(e) => Outcome::Failed(e),
            Outcome::Panics => Outcome::Panics,
        }
    } else if b.kind == TRUN {
        trun_spec(d, b, st)
    } else {
        Outcome::Done((Seq::empty(), st))
    }
}

/// The boxes of a `traf`, in order: the samples they give.
pub open spec fn traf_fold(d: Seq<u8>, bs: Seq<BoxRef>, st: TrafState) -> Outcome<Seq<Sample>>
    decreases bs.len(),
{
    if bs.len() == 0 {
        Outcome::Done(Seq::empty())
    } else {
        match traf_box(d, bs[0], st) {
            Outcome::Done((s1, st2)) => match traf_fold(d, bs.drop_first(), st2) {
                Outcome::Done(s2) => Outcome::Done(s1 + s2),
                other => other,
            },
            Outcome::Failed(e) => Outcome::Failed(e),
            Outcome::Panics => Outcome::Panics,
        }
    }
}

/// The samples of one `traf` of the `moof` that starts at `moof_start`.
pub open spec fn traf_spec(d: Seq<u8>, traf: BoxRef, moof_start: usize, track: TrackView) -> Outcome<Seq<Sample>> {
    match boxes_from(d, traf.content as int, traf.end as int) {
        None => Outcome::Panics,
        Some(bs) => traf_fold(d, bs, TrafState {
            dd: track.default_sample_duration,
            ds: track.default_sample_size,
            base: moof_start as u64,
            time: 0,
        }),
    }
}

/// The `traf` boxes among `bs`, in order: their samples.
pub open spec fn trafs_fold(d: Seq<u8>, bs: Seq<BoxRef>, moof_start: usize, track: TrackView) -> Outcome<Seq<Sample>>
    decreases bs.len(),
{
    if bs.len() == 0 {
        Outcome::Done(Seq::empty())
    } else {
        let first: Outcome<Seq<Sample>> = if bs[0].kind == TRAF { traf_spec(d, bs[0], moof_start, track) } else { Outcome::Done(Seq::empty()) };
        match first {
            Outcome::Done(s1) => match trafs_fold(d, bs.drop_first(), moof_start, track) {
                Outcome::Done(s2) => Outcome::Done(s1 + s2),
                other => other,
            },
            other => other,
        }
    }
}

/// The whole `moof` boxes among `bs` (within `available`), in order: their samples.
pub open spec fn moofs_fold(d: Seq<u8>, bs: Seq<BoxRef>, available: int, track: TrackView) -> Outcome<Seq<Sample>>
    decreases bs.len(),
{
    if bs.len() == 0 {
        Outcome::Done(Seq::empty())
    } else {
        let b = bs[0];
        let first: Outcome<Seq<Sample>> = if b.kind == MOOF && b.end <= available {
            match boxes_from(d, b.content as int, b.end as int) {
                None => Outcome::Panics,
                Some(trafs) => trafs_fold(d, trafs, b.start, track),
            }
        } else {
            Outcome::Done(Seq::empty())
        };
        match first {
            Outcome::Done(s1) => match moofs_fold(d, bs.drop_first(), available, track) {
                Outcome::Done(s2) => Outcome::Done(s1 + s2),
                other => other,
            },
            other => other,
        }
    }
}

/// The samples of a fragment whose first `available` bytes (of `data`, `moof` + `mdat`) are at
/// hand. `moof` must be there whole; the samples may lie past what is at hand: their sizes are
/// known from `trun`.
pub open spec fn fragment_spec(data: Seq<u8>, available: int, track: TrackView) -> Outcome<Seq<Sample>> {
    let a = if available < data.len() { available } else { data.len() as int };
    match boxes_from(data, 0, a) {
        None => Outcome::Panics,
        Some(bs) => moofs_fold(data, bs, a, track),
    }
}


/// `trun_samples` after its first sample: the rest, with that sample in front.
pub open spec fn after_first(o: Outcome<(Seq<Sample>, int)>, smp: Sample) -> Outcome<(Seq<Sample>, int)> {
    match o {
        Outcome::Done((rest, t)) => Outcome::Done((seq![smp] + rest, t)),
        Outcome::Failed(e) => Outcome::Failed(e),
        Outcome::Panics => Outcome::Panics,
    }
}

fn trun_one(d: &[u8], q: usize, n: u32, flags: u32, dd: u32, ds: u32, position: usize, time: u64) -> (r: Result<(Sample, usize), Stop>)
    requires
        d@.len() <= isize::MAX,
        n > 0,
    ensures
        match r {
            Ok((smp, q3)) => {
                &&& smp.offset == position
                &&& smp.time_ticks == time
                &&& position + smp.size <= d@.len()
                &&& time + smp.duration_ticks <= u64::MAX
                &&& trun_samples(d@, q as int, n as nat, flags, dd, ds, position as int, time as int) == after_first(
                    trun_samples(d@, q3 as int, (n - 1) as nat, flags, dd, ds, position + smp.size, time + smp.duration_ticks),
                    smp,
                )
            },
            Err(x) => stopped(trun_samples(d@, q as int, n as nat, flags, dd, ds, position as int, time as int), x),
        },
{
    let mut q = q;
    let mut duration = dd;
    let mut size = ds;
    if flags & 0x100 != 0 {
        duration = u32_at(d, q)?;
        q = q + 4;
    }
    if flags & 0x200 != 0 {
        size = u32_at(d, q)?;
        q = q + 4;
    }
    if flags & 0x400 != 0 {
        if q > usize::MAX - 4 {
            return Err(Stop::Panic);
        }
        q = q + 4;
    }
    if flags & 0x800 != 0 {
        if q > usize::MAX - 4 {
            return Err(Stop::Panic);
        }
        q = q + 4;
    }
    let sz = size as usize;
    if position > usize::MAX - sz {
        return Err(Stop::Panic);
    }
    if position + sz > d.len() {
        return Err(Stop::Format("sample outside the fragment"));
    }
    if time > u64::MAX - duration as u64 {
        return Err(Stop::Panic);
    }
    Ok((Sample { offset: position, size: sz, time_ticks: time, duration_ticks: duration as u64 }, q))
}

fn trun_exec(d: &[u8], b: BoxRef, st: TrafState) -> (r: Result<(Vec<Sample>, TrafState), Stop>)
    requires
        d@.len() <= isize::MAX,
        b.content <= d@.len() + 8,
    ensures
        match r {
            Ok((v, s2)) => trun_spec(d@, b, st) == Outcome::Done((v@, s2)),
            Err(x) => stopped(trun_spec(d@, b, st), x),
        },
{
    let raw_flags = u32_at(d, b.content)?;
    let count = u32_at(d, b.content + 4)?;
    let flags = raw_flags & 0xFF_FFFF;
    let mut q: usize = b.content + 8;
    let mut data_offset: i64 = 0;
    if flags & 0x01 != 0 {
        let raw = u32_at(d, q)?;
        data_offset = (raw as i32) as i64;
        q = q + 4;
    }
    if flags & 0x04 != 0 {
        q = q + 4;
    }
    let base = st.base as i64;
    if (data_offset > 0 && base > i64::MAX - data_offset) || (data_offset < 0 && base < i64::MIN - data_offset) {
        return Err(Stop::Panic);
    }
    let sum = base + data_offset;
    if sum < 0 || sum as u64 > usize::MAX as u64 {
        return Err(Stop::Format("bad data offset"));
    }
    let mut position: usize = sum as usize;
    let mut time: u64 = st.time;
    let mut samples: Vec<Sample> = Vec::new();
    let ghost whole = trun_samples(d@, q as int, count as nat, flags, st.dd, st.ds, position as int, time as int);
    assert(trun_spec(d@, b, st) == match whole {
        Outcome::Done((smp, t)) => Outcome::Done((smp, TrafState { time: t as u64, ..st })),
        Outcome::Failed(e) => Outcome::Failed(e),
        Outcome::Panics => Outcome::<(Seq<Sample>, TrafState)>::Panics,
    });
    let mut k: u32 = 0;
    while k < count
        invariant
            d@.len() <= isize::MAX,
            k <= count,
            trun_spec(d@, b, st) == match whole {
                Outcome::Done((smp, t)) => Outcome::Done((smp, TrafState { time: t as u64, ..st })),
                Outcome::Failed(e) => Outcome::Failed(e),
                Outcome::Panics => Outcome::<(Seq<Sample>, TrafState)>::Panics,
            },
            match trun_samples(d@, q as int, (count - k) as nat, flags, st.dd, st.ds, position as int, time as int) {
                Outcome::Done((rest, t)) => whole == Outcome::Done((samples@ + rest, t)),
                Outcome::Failed(e) => whole == Outcome::<(Seq<Sample>, int)>::Failed(e),
                Outcome::Panics => whole is Panics,
            },
        decreases count - k,
    {
        let (smp, q3) = match trun_one(d, q, count - k, flags, st.dd, st.ds, position, time) {
            Ok(x) => x,
            Err(x) => return Err(x),
        };
        proof {
            let rest = trun_samples(d@, q3 as int, (count - k - 1) as nat, flags, st.dd, st.ds, position + smp.size, time + smp.duration_ticks);
            if let Outcome::Done((r, t)) = rest {
                assert(samples@ + (seq![smp] + r) =~= samples@.push(smp) + r);
            }
        }
        samples.push(smp);
        position = position + smp.size;
        time = time + smp.duration_ticks;
        q = q3;
        k = k + 1;
    }
    assert(samples@ + Seq::<Sample>::empty() =~= samples@);
    Ok((samples, TrafState { time, ..st }))
}


fn tfhd_exec(d: &[u8], b: BoxRef, st: TrafState) -> (r: Result<TrafState, Stop>)
    requires
        d@.len() <= isize::MAX,
        b.content <= d@.len() + 8,
    ensures
        match r {
            Ok(s2) => tfhd_spec(d@, b, st) == Outcome::Done(s2),
            Err(x) => stopped(tfhd_spec(d@, b, st), x),
        },
{
    let flags = u32_at(d, b.content)? & 0xFF_FFFF;
    let mut q: usize = b.content + 8;
    let mut st = st;
    if flags & 0x01 != 0 {
        st.base = u64_at(d, q)?;
        q = q + 8;
    }
    if flags & 0x02 != 0 {
        q = q + 4;
    }
    if flags & 0x08 != 0 {
        st.dd = u32_at(d, q)?;
        q = q + 4;
    }
    if flags & 0x10 != 0 {
        st.ds = u32_at(d, q)?;
    }
    Ok(st)
}

fn tfdt_exec(d: &[u8], b: BoxRef, st: TrafState) -> (r: Result<TrafState, Stop>)
    requires
        d@.len() <= isize::MAX,
        b.content <= d@.len() + 8,
    ensures
        match r {
            Ok(s2) => tfdt_spec(d@, b, st) == Outcome::Done(s2),
            Err(x) => stopped(tfdt_spec(d@, b, st), x),
        },
{
    if b.content >= d.len() {
        return Err(Stop::Panic);
    }
    let time = if d[b.content] == 1 { u64_at(d, b.content + 4)? } else { u32_at(d, b.content + 4)? as u64 };
    Ok(TrafState { time, ..st })
}

fn traf_box_exec(d: &[u8], b: BoxRef, st: TrafState) -> (r: Result<(Vec<Sample>, TrafState), Stop>)
    requires
        d@.len() <= isize::MAX,
        b.content <= d@.len() + 8,
    ensures
        match r {
            Ok((v, s2)) => traf_box(d@, b, st) == Outcome::Done((v@, s2)),
            Err(x) => stopped(traf_box(d@, b, st), x),
        },
{
    if b.kind == TFHD {
        let s2 = tfhd_exec(d, b, st)?;
        Ok((Vec::new(), s2))
    } else if b.kind == TFDT {
        let s2 = tfdt_exec(d, b, st)?;
        Ok((Vec::new(), s2))
    } else if b.kind == TRUN {
        trun_exec(d, b, st)
    } else {
        Ok((Vec::new(), st))
    }
}

fn traf_exec(d: &[u8], traf: BoxRef, moof_start: usize, track: &AudioTrack) -> (r: Result<Vec<Sample>, Stop>)
    requires
        d@.len() <= isize::MAX,
    ensures
        match r {
            Ok(v) => traf_spec(d@, traf, moof_start, track.view()) == Outcome::Done(v@),
            Err(x) => stopped(traf_spec(d@, traf, moof_start, track.view()), x),
        },
{
    proof {
        assert(d@.len() == d.len());
        lemma_boxes_shape(d@, traf.content as int, traf.end as int);
    }
    let bs = match boxes(d, traf.content, traf.end) {
        Some(bs) => bs,
        None => return Err(Stop::Panic),
    };
    let ghost st0 = TrafState {
        dd: track.default_sample_duration,
        ds: track.default_sample_size,
        base: moof_start as u64,
        time: 0,
    };
    let mut st = TrafState {
        dd: track.default_sample_duration,
        ds: track.default_sample_size,
        base: moof_start as u64,
        time: 0,
    };
    let mut out: Vec<Sample> = Vec::new();
    let mut k: usize = 0;
    assert(bs@.skip(0) =~= bs@);
    while k < bs.len()
        invariant
            d@.len() <= isize::MAX,
            k <= bs@.len(),
            forall|j: int| 0 <= j < bs@.len() ==> (#[trigger] bs@[j]).content <= bs@[j].start + 16 && bs@[j].start + 8 <= d@.len(),
            traf_spec(d@, traf, moof_start, track.view()) == traf_fold(d@, bs@, st0),
            match traf_fold(d@, bs@.skip(k as int), st) {
                Outcome::Done(rest) => traf_fold(d@, bs@, st0) == Outcome::Done(out@ + rest),
                Outcome::Failed(e) => traf_fold(d@, bs@, st0) == Outcome::<Seq<Sample>>::Failed(e),
                Outcome::Panics => traf_fold(d@, bs@, st0) is Panics,
            },
        decreases bs.len() - k,
    {
        assert(bs@.skip(k as int)[0] == bs@[k as int]);
        assert(bs@.skip(k as int).drop_first() =~= bs@.skip(k + 1));
        let (mut v, s2) = traf_box_exec(d, bs[k], st)?;
        proof {
            let rest = traf_fold(d@, bs@.skip(k + 1), s2);
            if let Outcome::Done(r) = rest {
                assert(out@ + (v@ + r) =~= (out@ + v@) + r);
            }
        }
        out.append(&mut v);
        st = s2;
        k = k + 1;
    }
    assert(out@ + Seq::<Sample>::empty() =~= out@);
    Ok(out)
}

fn trafs_exec(d: &[u8], moof: BoxRef, track: &AudioTrack) -> (r: Result<Vec<Sample>, Stop>)
    requires
        d@.len() <= isize::MAX,
        moof.end <= d@.len(),
    ensures
        match boxes_from(d@, moof.content as int, moof.end as int) {
            Some(trafs) => match r {
                Ok(v) => trafs_fold(d@, trafs, moof.start, track.view()) == Outcome::Done(v@),
                Err(x) => stopped(trafs_fold(d@, trafs, moof.start, track.view()), x),
            },
            None => false,
        },
{
    proof {
        lemma_boxes_within(d@, moof.content as int, moof.end as int);
    }
    let bs = match boxes(d, moof.content, moof.end) {
        Some(bs) => bs,
        None => return Err(Stop::Panic),
    };
    let ghost whole = trafs_fold(d@, bs@, moof.start, track.view());
    let mut out: Vec<Sample> = Vec::new();
    let mut k: usize = 0;
    assert(bs@.skip(0) =~= bs@);
    while k < bs.len()
        invariant
            d@.len() <= isize::MAX,
            k <= bs@.len(),
            boxes_from(d@, moof.content as int, moof.end as int) == Some(bs@),
            whole == trafs_fold(d@, bs@, moof.start, track.view()),
            match trafs_fold(d@, bs@.skip(k as int), moof.start, track.view()) {
                Outcome::Done(rest) => whole == Outcome::Done(out@ + rest),
                Outcome::Failed(e) => whole == Outcome::<Seq<Sample>>::Failed(e),
                Outcome::Panics => whole is Panics,
            },
        decreases bs.len() - k,
    {
        assert(bs@.skip(k as int)[0] == bs@[k as int]);
        assert(bs@.skip(k as int).drop_first() =~= bs@.skip(k + 1));
        let mut v = if bs[k].kind == TRAF { traf_exec(d, bs[k], moof.start, track)? } else { Vec::new() };
        proof {
            let rest = trafs_fold(d@, bs@.skip(k + 1), moof.start, track.view());
            if let Outcome::Done(r) = rest {
                assert(out@ + (v@ + r) =~= (out@ + v@) + r);
            }
        }
        out.append(&mut v);
        k = k + 1;
    }
    assert(out@ + Seq::<Sample>::empty() =~= out@);
    Ok(out)
}

fn fragment_exec(data: &[u8], available: usize, track: &AudioTrack) -> (r: Result<Vec<Sample>, Stop>)
    requires
        data@.len() <= isize::MAX,
    ensures
        match r {
            Ok(v) => fragment_spec(data@, available as int, track.view()) == Outcome::Done(v@),
            Err(x) => stopped(fragment_spec(data@, available as int, track.view()), x),
        },
{
    let a = if available < data.len() { available } else { data.len() };
    proof {
        lemma_boxes_within(data@, 0, a as int);
    }
    let bs = match boxes(data, 0, a) {
        Some(bs) => bs,
        None => return Err(Stop::Panic),
    };
    let ghost whole = moofs_fold(data@, bs@, a as int, track.view());
    let mut out: Vec<Sample> = Vec::new();
    let mut k: usize = 0;
    assert(bs@.skip(0) =~= bs@);
    while k < bs.len()
        invariant
            data@.len() <= isize::MAX,
            k <= bs@.len(),
            a <= data@.len(),
            fragment_spec(data@, available as int, track.view()) == whole,
            whole == moofs_fold(data@, bs@, a as int, track.view()),
            match moofs_fold(data@, bs@.skip(k as int), a as int, track.view()) {
                Outcome::Done(rest) => whole == Outcome::Done(out@ + rest),
                Outcome::Failed(e) => whole == Outcome::<Seq<Sample>>::Failed(e),
                Outcome::Panics => whole is Panics,
            },
        decreases bs.len() - k,
    {
        assert(bs@.skip(k as int)[0] == bs@[k as int]);
        assert(bs@.skip(k as int).drop_first() =~= bs@.skip(k + 1));
        let b = bs[k];
        let mut v = if b.kind == MOOF && b.end <= a { trafs_exec(data, b, track)? } else { Vec::new() };
        proof {
            let rest = moofs_fold(data@, bs@.skip(k + 1), a as int, track.view());
            if let Outcome::Done(r) = rest {
                assert(out@ + (v@ + r) =~= (out@ + v@) + r);
            }
        }
        out.append(&mut v);
        k = k + 1;
    }
    assert(out@ + Seq::<Sample>::empty() =~= out@);
    Ok(out)
}

/// The samples of a fragment: `data` is the bytes of `moof` + `mdat` (as long as the whole
/// fragment), of which the first `available` are at hand. `moof` must be there whole; the samples
/// may lie past what is at hand: their sizes are known from `trun`.
pub fn parse_fragment(data: &[u8], available: usize, track: &AudioTrack) -> (r: Result<Vec<Sample>, FormatError>)
    requires
        data@.len() <= isize::MAX,
        !(fragment_spec(data@, available as int, track.view()) is Panics),
    ensures
        match fragment_spec(data@, available as int, track.view()) {
            Outcome::Done(v) => r matches Ok(s) && s@ == v,
            Outcome::Failed(e) => r == Err::<Vec<Sample>, FormatError>(FormatError(e)),
            Outcome::Panics => false,
        },
{
    match fragment_exec(data, available, track) {
        Ok(v) => Ok(v),
        Err(Stop::Format(e)) => Err(FormatError(e)),
        Err(Stop::Panic) => Err(FormatError("truncated")),
    }
}

/// `parse_fragment`, or `None` where the bytes would make it index past them or overflow.
pub fn try_parse_fragment(data: &[u8], available: usize, track: &AudioTrack) -> (r: Option<Result<Vec<Sample>, FormatError>>)
    requires
        data@.len() <= isize::MAX,
    ensures
        match fragment_spec(data@, available as int, track.view()) {
            Outcome::Done(v) => r matches Some(Ok(s)) && s@ == v,
            Outcome::Failed(e) => r == Some(Err::<Vec<Sample>, FormatError>(FormatError(e))),
            Outcome::Panics => r is None,
        },
{
    match fragment_exec(data, available, track) {
        Ok(v) => Some(Ok(v)),
        Err(Stop::Format(e)) => Some(Err(FormatError(e))),
        Err(Stop::Panic) => None,
    }
}


/// The samples of a `trun` follow each other: each starts where the one before ends, in the
/// data and in time.
pub proof fn law_trun_samples_are_contiguous(
    d: Seq<u8>,
    q: int,
    n: nat,
    flags: u32,
    dd: u32,
    ds: u32,
    position: int,
    time: int,
)
    requires
        0 <= position <= usize::MAX,
        0 <= time <= u64::MAX,
    ensures
        trun_samples(d, q, n, flags, dd, ds, position, time) matches Outcome::Done((ss, t)) ==> {
            &&& ss.len() == n
            &&& (ss.len() > 0 ==> ss[0].offset == position && ss[0].time_ticks == time)
            &&& forall|k: int| 0 < k < ss.len() ==> {
                &&& (#[trigger] ss[k]).offset == ss[k - 1].offset + ss[k - 1].size
                &&& ss[k].time_ticks == ss[k - 1].time_ticks + ss[k - 1].duration_ticks
            }
            &&& forall|k: int| 0 <= k < ss.len() ==> (#[trigger] ss[k]).offset + ss[k].size <= d.len()
        },
    decreases n,
{
    if n > 0 {
        if let Some((duration, q1)) = opt_field(d, q, flags & 0x100 != 0, 4, dd as nat) {
            if let Some((size, q2)) = opt_field(d, q1, flags & 0x200 != 0, 4, ds as nat) {
                let q3 = q2 + (if flags & 0x400 != 0 { 4int } else { 0int }) + (if flags & 0x800 != 0 { 4int } else { 0int });
                if !(q3 > usize::MAX || position + size > usize::MAX || position + size > d.len() || time + duration > u64::MAX) {
                    law_trun_samples_are_contiguous(d, q3, (n - 1) as nat, flags, dd, ds, position + size, time + duration);
                    if let Outcome::Done((ss, t)) = trun_samples(d, q, n, flags, dd, ds, position, time) {
                        let rest = trun_samples(d, q3, (n - 1) as nat, flags, dd, ds, position + size, time + duration)->Done_0.0;
                        assert(ss[0].offset == position && ss[0].size == size && ss[0].time_ticks == time
                            && ss[0].duration_ticks == duration);
                        assert forall|k: int| 0 < k < ss.len() implies {
                            &&& (#[trigger] ss[k]).offset == ss[k - 1].offset + ss[k - 1].size
                            &&& ss[k].time_ticks == ss[k - 1].time_ticks + ss[k - 1].duration_ticks
                        } by {
                            assert(ss[k] == rest[k - 1]);
                            if k > 1 {
                                assert(ss[k - 1] == rest[k - 2]);
                            }
                        }
                        assert forall|k: int| 0 <= k < ss.len() implies (#[trigger] ss[k]).offset + ss[k].size <= d.len() by {
                            if k > 0 {
                                assert(ss[k] == rest[k - 1]);
                            }
                        }
                    }
                }
            }
        }
    }
}

/// Without a whole `moof` among the boxes, there are no samples.
pub proof fn law_no_whole_moof_no_samples(d: Seq<u8>, bs: Seq<BoxRef>, available: int, track: TrackView)
    requires
        forall|k: int| 0 <= k < bs.len() ==> !((#[trigger] bs[k]).kind == MOOF && bs[k].end <= available),
    ensures
        moofs_fold(d, bs, available, track) == Outcome::<Seq<Sample>>::Done(Seq::empty()),
    decreases bs.len(),
{
    if bs.len() > 0 {
        assert(!(bs[0].kind == MOOF && bs[0].end <= available));
        assert forall|k: int| 0 <= k < bs.drop_first().len() implies !((#[trigger] bs.drop_first()[k]).kind == MOOF
            && bs.drop_first()[k].end <= available) by {
            assert(bs.drop_first()[k] == bs[k + 1]);
        }
        law_no_whole_moof_no_samples(d, bs.drop_first(), available, track);
        assert(Seq::<Sample>::empty() + Seq::<Sample>::empty() =~= Seq::<Sample>::empty());
    }
}


/// The samples of a `trun` run on in time and in bytes: the first starts at the time and the
/// offset it was given, each next one where the one before ends, and the time after them is where
/// the last ends.
pub proof fn law_trun_times(d: Seq<u8>, q: int, n: nat, flags: u32, dd: u32, ds: u32, position: int, time: int)
    requires
        0 <= time <= u64::MAX,
        0 <= position,
        trun_samples(d, q, n, flags, dd, ds, position, time) is Done,
    ensures
        ({
            let (s, t) = trun_samples(d, q, n, flags, dd, ds, position, time)->Done_0;
            &&& s.len() == n
            &&& s.len() == 0 ==> t == time
            &&& s.len() > 0 ==> s[0].time_ticks == time
            &&& s.len() > 0 ==> t == s.last().time_ticks + s.last().duration_ticks
            &&& forall|k: int| 0 <= k < s.len() - 1 ==> #[trigger] s[k + 1].time_ticks == s[k].time_ticks + s[k].duration_ticks
            &&& s.len() > 0 ==> s[0].offset == position
            &&& forall|k: int| 0 <= k < s.len() - 1 ==> #[trigger] s[k + 1].offset == s[k].offset + s[k].size
        }),
    decreases n,
{
    if n > 0 {
        let (duration, q1) = opt_field(d, q, flags & 0x100 != 0, 4, dd as nat)->0;
        let (size, q2) = opt_field(d, q1, flags & 0x200 != 0, 4, ds as nat)->0;
        let q3 = q2 + (if flags & 0x400 != 0 { 4int } else { 0int }) + (if flags & 0x800 != 0 { 4int } else { 0int });
        let sample = Sample { offset: position as usize, size: size as usize, time_ticks: time as u64, duration_ticks: duration as u64 };
        assert(time + duration <= u64::MAX);
        assert(position + size <= usize::MAX);
        assert(sample.time_ticks == time && sample.duration_ticks == duration);
        assert(sample.offset == position && sample.size == size);
        law_trun_times(d, q3, (n - 1) as nat, flags, dd, ds, position + size, time + duration);
        let (rest, t) = trun_samples(d, q3, (n - 1) as nat, flags, dd, ds, position + size, time + duration)->Done_0;
        let s = seq![sample] + rest;
        assert(trun_samples(d, q, n, flags, dd, ds, position, time)->Done_0 == (s, t));
        assert(s[0] == sample);
        assert(s.len() == rest.len() + 1);
        assert forall|k: int| 0 <= k < s.len() - 1 implies #[trigger] s[k + 1].time_ticks == s[k].time_ticks + s[k].duration_ticks by {
            if k > 0 {
                assert(s[k] == rest[k - 1]);
                assert(s[k + 1] == rest[k]);
                let k1 = k - 1;
                assert(rest[k1 + 1].time_ticks == rest[k1].time_ticks + rest[k1].duration_ticks);
            } else {
                assert(rest.len() > 0);
                assert(s[1] == rest[0]);
                assert(rest[0].time_ticks == time + duration);
            }
        }
        assert forall|k: int| 0 <= k < s.len() - 1 implies #[trigger] s[k + 1].offset == s[k].offset + s[k].size by {
            if k > 0 {
                assert(s[k] == rest[k - 1]);
                assert(s[k + 1] == rest[k]);
                let k1 = k - 1;
                assert(rest[k1 + 1].offset == rest[k1].offset + rest[k1].size);
            } else {
                assert(s[1] == rest[0]);
                assert(rest[0].offset == position + size);
            }
        }
        if rest.len() > 0 {
            assert(s.last() == rest.last());
        }
    }
}

/// A `trun` starts its samples at the time of the reading so far; with no sample it leaves it.
proof fn lemma_trun_start(d: Seq<u8>, b: BoxRef, st: TrafState)
    requires
        trun_spec(d, b, st) is Done,
    ensures
        trun_spec(d, b, st)->Done_0.0.len() > 0 ==> trun_spec(d, b, st)->Done_0.0[0].time_ticks == st.time,
        trun_spec(d, b, st)->Done_0.0.len() == 0 ==> trun_spec(d, b, st)->Done_0.1.time == st.time,
{
    let raw_flags = num_at(d, b.content as int, 4)->0;
    let count = num_at(d, b.content + 4, 4)->0;
    let flags = (raw_flags as u32) & 0xFF_FFFFu32;
    let (raw_offset, q1) = opt_field(d, b.content + 8, flags & 0x01 != 0, 4, 0)->0;
    let data_offset: int = if flags & 0x01 != 0 { ((raw_offset as u32) as i32) as int } else { 0 };
    let q2 = q1 + if flags & 0x04 != 0 { 4int } else { 0int };
    let sum = (st.base as i64) as int + data_offset;
    assert(sum >= 0);
    law_trun_times(d, q2, count, flags, st.dd, st.ds, sum, st.time as int);
}

/// Without a `tfdt`, the first sample of the boxes starts at the time of the reading so far.
proof fn lemma_first_time_kept(d: Seq<u8>, bs: Seq<BoxRef>, st: TrafState)
    requires
        forall|k: int| 0 <= k < bs.len() ==> (#[trigger] bs[k]).kind != TFDT,
        traf_fold(d, bs, st) is Done,
    ensures
        traf_fold(d, bs, st)->Done_0.len() > 0 ==> traf_fold(d, bs, st)->Done_0[0].time_ticks == st.time,
    decreases bs.len(),
{
    if bs.len() > 0 {
        let b = bs[0];
        assert(b.kind != TFDT);
        let (s1, st2) = traf_box(d, b, st)->Done_0;
        if b.kind == TRUN && b.kind != TFHD {
            lemma_trun_start(d, b, st);
        }
        assert(s1.len() == 0 ==> st2.time == st.time);
        assert forall|k: int| 0 <= k < bs.drop_first().len() implies (#[trigger] bs.drop_first()[k]).kind != TFDT by {
            assert(bs.drop_first()[k] == bs[k + 1]);
        }
        lemma_first_time_kept(d, bs.drop_first(), st2);
        if s1.len() > 0 {
            assert((s1 + traf_fold(d, bs.drop_first(), st2)->Done_0)[0] == s1[0]);
        } else {
            assert(s1 + traf_fold(d, bs.drop_first(), st2)->Done_0 =~= traf_fold(d, bs.drop_first(), st2)->Done_0);
        }
    }
}

/// The samples of a `traf` start at the time its `tfdt` gives: where the box at `i` is a `tfdt`
/// holding `t` (version 1: eight bytes after the version and flags, else four), no `trun` comes
/// before it and no other `tfdt` after it, the first sample has `time_ticks == t`.
pub proof fn law_tfdt_sets_the_start(d: Seq<u8>, bs: Seq<BoxRef>, st: TrafState, i: int, t: nat)
    requires
        0 <= i < bs.len(),
        bs[i].kind == TFDT,
        bs[i].content < d.len(),
        d[bs[i].content as int] == 1 ==> num_at(d, bs[i].content + 4, 8) == Some(t),
        d[bs[i].content as int] != 1 ==> num_at(d, bs[i].content + 4, 4) == Some(t),
        forall|k: int| 0 <= k < i ==> (#[trigger] bs[k]).kind != TRUN,
        forall|k: int| i < k < bs.len() ==> (#[trigger] bs[k]).kind != TFDT,
        traf_fold(d, bs, st) is Done,
        traf_fold(d, bs, st)->Done_0.len() > 0,
    ensures
        traf_fold(d, bs, st)->Done_0[0].time_ticks == t,
    decreases i,
{
    let b = bs[0];
    let (s1, st2) = traf_box(d, b, st)->Done_0;
    let rest = bs.drop_first();
    if i == 0 {
        assert(b.kind == TFDT && b.kind != TFHD);
        reveal_with_fuel(pow256, 9);
        if d[b.content as int] == 1 {
            lemma_be_bound(d, b.content + 4, 8);
        } else {
            lemma_be_bound(d, b.content + 4, 4);
        }
        assert(t < 18446744073709551616);
        assert(st2.time == t);
        assert(s1.len() == 0);
        assert forall|k: int| 0 <= k < rest.len() implies (#[trigger] rest[k]).kind != TFDT by {
            assert(rest[k] == bs[k + 1]);
        }
        lemma_first_time_kept(d, rest, st2);
        assert(s1 + traf_fold(d, rest, st2)->Done_0 =~= traf_fold(d, rest, st2)->Done_0);
    } else {
        assert(b.kind != TRUN);
        assert(s1.len() == 0);
        assert(s1 + traf_fold(d, rest, st2)->Done_0 =~= traf_fold(d, rest, st2)->Done_0);
        assert(rest[i - 1] == bs[i]);
        assert forall|k: int| 0 <= k < i - 1 implies (#[trigger] rest[k]).kind != TRUN by {
            assert(rest[k] == bs[k + 1]);
        }
        assert forall|k: int| i - 1 < k < rest.len() implies (#[trigger] rest[k]).kind != TFDT by {
            assert(rest[k] == bs[k + 1]);
        }
        law_tfdt_sets_the_start(d, rest, st2, i - 1, t);
    }
}


proof fn lemma_fragment_of_from(fs: Seq<Fragment>, ticks: int, k: int)
    requires
        fs.len() > 0,
        0 <= k <= fs.len(),
        forall|j: int| 0 <= j < k ==> ticks >= (#[trigger] fs[j]).start_ticks + fs[j].duration_ticks,
    ensures
        0 <= fragment_of(fs, ticks, k) < fs.len(),
        forall|j: int| 0 <= j < fragment_of(fs, ticks, k) ==> ticks >= (#[trigger] fs[j]).start_ticks + fs[j].duration_ticks,
        ticks < fs[fragment_of(fs, ticks, k)].start_ticks + fs[fragment_of(fs, ticks, k)].duration_ticks
            || fragment_of(fs, ticks, k) == fs.len() - 1,
    decreases fs.len() - k,
{
    if k < fs.len() && !(ticks < fs[k].start_ticks + fs[k].duration_ticks) {
        lemma_fragment_of_from(fs, ticks, k + 1);
    }
}

/// The fragment for a time is the first that ends after it (the last where none does): every
/// fragment before it ends at or before that time.
pub proof fn law_fragment_for_time(fs: Seq<Fragment>, ticks: int)
    requires
        fs.len() > 0,
    ensures
        0 <= fragment_of(fs, ticks, 0) < fs.len(),
        forall|j: int| 0 <= j < fragment_of(fs, ticks, 0) ==> ticks >= (#[trigger] fs[j]).start_ticks + fs[j].duration_ticks,
        ticks < fs[fragment_of(fs, ticks, 0)].start_ticks + fs[fragment_of(fs, ticks, 0)].duration_ticks
            || fragment_of(fs, ticks, 0) == fs.len() - 1,
{
    lemma_fragment_of_from(fs, ticks, 0);
}

} // verus!
