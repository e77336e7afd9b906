//! A track's sound fragment by fragment: the start of the file in one request of 64 KiB (`moov`,
//! `sidx` and the first seconds of the first fragment), the rest one fragment (about 10 s of
//! sound) at a time, the next two ahead while the sound plays. What is decided between the reads
//! stands here; the reads themselves are the app's.
use vstd::prelude::*;
use crate::chars::{chars_of, extend_str, lit, string_of};
use crate::playback::fmp4::{
    fragment_spec, index_spec, parse_fragment, parse_index, AudioTrack, FormatError, Index, IndexView, Outcome, Sample,
};
use crate::playback::resolver::{StreamError, StreamErrorKind};

verus! {

/// The first read of a track: 64 KiB.
pub const HEAD_BYTES: usize = 65536;

/// The most the start of a file is read to find its index: 4 MiB.
pub const MAX_HEAD: usize = 4194304;

/// A fragment: all its bytes (or only its start) and its frames.
pub struct FragmentData {
    pub bytes: Vec<u8>,
    pub available: usize,
    pub samples: Vec<Sample>,
}

/// What to do with the start of a file read so far.
pub enum HeadStep {
    /// The index is read.
    Ready(Index),
    /// The index goes on past what was read: read `len` more bytes from `offset`.
    ReadMore { offset: u64, len: usize },
    /// The stream is not one this player reads.
    Fail(StreamError),
}

/// "Unsupported stream: " and the reason.
pub open spec fn unsupported(reason: Seq<char>) -> Seq<char> {
    "Unsupported stream: "@ + reason
}

fn unsupported_error(reason: &str) -> (e: StreamError)
    ensures
        e.kind == StreamErrorKind::Extractor,
        e.message@ == unsupported(reason@),
        e.country is None,
        e.open_countries is None,
{
    let mut v = lit("Unsupported stream: ");
    extend_str(&mut v, reason);
    StreamError::new(StreamErrorKind::Extractor, string_of(&v).as_str())
}

/// The error when the file ends before its index does.
pub fn truncated_index() -> (e: StreamError)
    ensures
        e.kind == StreamErrorKind::Extractor,
        e.message@ == unsupported("truncated index"@),
        e.country is None,
        e.open_countries is None,
{
    unsupported_error("truncated index")
}

/// The start of a file read so far: its index; or, where it is cut short and under 4 MiB, a read
/// of as much again (at least 256 KiB) after it; or the reason it is not a stream this player
/// reads.
pub fn head_step(head: &[u8]) -> (r: HeadStep)
    requires
        head@.len() <= isize::MAX,
        !(index_spec(head@) is Panics),
    ensures
        match index_spec(head@) {
            Outcome::Done(v) => r matches HeadStep::Ready(ix) && ix.view() == v,
            Outcome::Failed(e) => if e@ == "truncated"@ && head@.len() < MAX_HEAD {
                r == (HeadStep::ReadMore {
                    offset: head@.len() as u64,
                    len: if head@.len() > 262144 { head@.len() as usize } else { 262144usize },
                })
            } else {
                r matches HeadStep::Fail(err) && err.kind == StreamErrorKind::Extractor && err.message@ == unsupported(
                    e@,
                ) && err.country is None && err.open_countries is None
            },
            Outcome::Panics => false,
        },
{
    match parse_index(head) {
        Ok(ix) => HeadStep::Ready(ix),
        Err(FormatError(e)) => {
            let truncated = crate::chars::chars_eq(&chars_of(e), &lit("truncated"));
            if truncated && head.len() < MAX_HEAD {
                let len: usize = if head.len() > 262144 { head.len() } else { 262144 };
                HeadStep::ReadMore { offset: head.len() as u64, len }
            } else {
                HeadStep::Fail(unsupported_error(e))
            }
        },
    }
}

/// How much of a fragment at `offset` of `size` bytes the head holds: `None` where the head ends
/// before the fragment starts.
pub open spec fn in_head(head_len: int, offset: int, size: int) -> Option<int> {
    if head_len < offset {
        None
    } else if head_len - offset < size {
        Some(head_len - offset)
    } else {
        Some(size)
    }
}

/// A fragment's bytes before it is read further: what the head holds of it, then zeros up to its
/// size.
pub open spec fn head_bytes(head: Seq<u8>, offset: int, size: int, held: int) -> Seq<u8> {
    head_part(head, offset, held) + Seq::new((size - held) as nat, |i: int| 0u8)
}

/// The `held` bytes of the head from `offset`.
pub open spec fn head_part(head: Seq<u8>, offset: int, held: int) -> Seq<u8> {
    if held > 0 { head.subrange(offset, offset + held) } else { Seq::empty() }
}

/// Whether reading a fragment's start out of the head would stop on a cut-short box.
pub open spec fn head_fragment_panics(index: IndexView, head: Seq<u8>, number: int) -> bool {
    if 0 <= number < index.fragments.len() {
        let f = index.fragments[number];
        match in_head(head.len() as int, f.offset as int, f.size as int) {
            Some(held) => held > 0 && f.offset <= usize::MAX && fragment_spec(
                head_bytes(head, f.offset as int, f.size as int, held),
                held,
                index.track,
            ) is Panics,
            None => false,
        }
    } else {
        false
    }
}

/// The start of fragment `number` where the head already holds it and it has frames: its bytes
/// (the rest zeros), how many are there, and its frames; then the frames can be played at once.
pub open spec fn from_head_spec(index: IndexView, head: Seq<u8>, number: int) -> Option<(Seq<u8>, int, Seq<Sample>)> {
    if 0 <= number < index.fragments.len() {
        let f = index.fragments[number];
        if f.offset > usize::MAX {
            None
        } else {
            match in_head(head.len() as int, f.offset as int, f.size as int) {
                Some(held) => if held == 0 {
                    None
                } else {
                    let bytes = head_bytes(head, f.offset as int, f.size as int, held);
                    match fragment_spec(bytes, held, index.track) {
                        Outcome::Done(samples) => if samples.len() == 0 {
                            None
                        } else {
                            Some((bytes, held, samples))
                        },
                        _ => None,
                    }
                },
                None => None,
            }
        }
    } else {
        None
    }
}

/// The start of fragment `number` where the head already holds it and it has frames.
pub fn fragment_from_head(index: &Index, head: &[u8], number: usize) -> (r: Option<FragmentData>)
    requires
        !head_fragment_panics(index.view(), head@, number as int),
        number < index.fragments@.len() ==> index.fragments@[number as int].size <= isize::MAX,
    ensures
        match from_head_spec(index.view(), head@, number as int) {
            Some((bytes, held, samples)) => r matches Some(d) && d.bytes@ == bytes && d.available == held
                && d.samples@ == samples,
            None => r is None,
        },
{
    if number >= index.fragments.len() {
        return None;
    }
    let f = index.fragments[number];
    if f.offset > usize::MAX as u64 {
        return None;
    }
    let offset = f.offset as usize;
    let size = f.size as usize;
    if head.len() < offset {
        return None;
    }
    let held: usize = if head.len() - offset < size { head.len() - offset } else { size };
    if held == 0 {
        return None;
    }
    let mut bytes: Vec<u8> = Vec::new();
    let mut i: usize = 0;
    let hl = head.len();
    while i < held
        invariant
            i <= held,
            hl == head@.len(),
            offset + held <= head@.len(),
            bytes@ == head@.subrange(offset as int, offset + i),
        decreases held - i,
    {
        bytes.push(head[offset + i]);
        assert(bytes@ =~= head@.subrange(offset as int, offset + i + 1));
        i = i + 1;
    }
    while i < size
        invariant
            held <= i <= size,
            offset + held <= head@.len(),
            bytes@ == head_part(head@, offset as int, held as int) + Seq::new((i - held) as nat, |k: int| 0u8),
        decreases size - i,
    {
        bytes.push(0u8);
        assert(bytes@ =~= head_part(head@, offset as int, held as int) + Seq::new((i + 1 - held) as nat, |k: int| 0u8));
        i = i + 1;
    }
    proof {
        assert(bytes@ =~= head_bytes(head@, f.offset as int, f.size as int, held as int));
        assert(bytes@.len() == size);
        assert(size <= u32::MAX);
    }
    let samples = match parse_fragment(bytes.as_slice(), held, &index.track) {
        Ok(s) => s,
        Err(_) => return None,
    };
    if samples.len() == 0 {
        return None;
    }
    Some(FragmentData { bytes, available: held, samples })
}

/// The fragments kept in memory while fragment `number` is wanted: two before it to three after
/// it; the others are dropped, so memory holds three or four fragments, not the whole track.
pub fn keeps_fragment(k: usize, number: usize) -> (b: bool)
    requires
        k + 2 <= usize::MAX,
        number + 3 <= usize::MAX,
    ensures
        b == (k + 2 >= number && k <= number + 3),
{
    k + 2 >= number && k <= number + 3
}


/// A fragment about to be loaded: its bytes with what the head holds of it at the front, how
/// many those are, and where in the file the rest starts.
pub struct FragmentLoad {
    pub bytes: Vec<u8>,
    pub have: usize,
    pub offset: u64,
}

/// The start of loading fragment `number`: its size in zeros with what the head holds of it at
/// the front; an error where there is no such fragment.
pub fn load_start(index: &Index, head: &[u8], number: usize) -> (r: Result<FragmentLoad, StreamError>)
    requires
        number < index.fragments@.len() ==> index.fragments@[number as int].offset <= usize::MAX,
    ensures
        number >= index.fragments@.len() ==> (r matches Err(e) && e.kind == StreamErrorKind::Extractor && e.message@
            == "no such fragment"@),
        number < index.fragments@.len() ==> (r matches Ok(l) && {
            let f = index.fragments@[number as int];
            let held = match in_head(head@.len() as int, f.offset as int, f.size as int) {
                Some(h) => h,
                None => 0,
            };
            &&& l.have == held
            &&& l.offset == f.offset
            &&& l.bytes@ == head_bytes(head@, f.offset as int, f.size as int, held)
        }),
{
    if number >= index.fragments.len() {
        return Err(StreamError::new(StreamErrorKind::Extractor, "no such fragment"));
    }
    let f = index.fragments[number];
    let offset = f.offset as usize;
    let size = f.size as usize;
    let held: usize = if head.len() < offset {
        0
    } else if head.len() - offset < size {
        head.len() - offset
    } else {
        size
    };
    let mut bytes: Vec<u8> = Vec::new();
    let mut i: usize = 0;
    let hl = head.len();
    while i < held
        invariant
            i <= held,
            hl == head@.len(),
            held > 0 ==> offset + held <= head@.len(),
            bytes@ == head_part(head@, offset as int, i as int),
        decreases held - i,
    {
        bytes.push(head[offset + i]);
        assert(bytes@ =~= head_part(head@, offset as int, i + 1));
        i = i + 1;
    }
    while i < size
        invariant
            held <= i <= size,
            bytes@ == head_part(head@, offset as int, held as int) + Seq::new((i - held) as nat, |k: int| 0u8),
        decreases size - i,
    {
        bytes.push(0u8);
        assert(bytes@ =~= head_part(head@, offset as int, held as int) + Seq::new((i + 1 - held) as nat, |k: int| 0u8));
        i = i + 1;
    }
    assert(bytes@ =~= head_bytes(head@, f.offset as int, f.size as int, held as int));
    Ok(FragmentLoad { bytes, have: held, offset: f.offset })
}

/// A chunk read from the network, put after what the fragment already has.
pub fn absorb(load: &mut FragmentLoad, chunk: &[u8])
    requires
        old(load).have + chunk@.len() <= old(load).bytes@.len(),
    ensures
        final(load).have == old(load).have + chunk@.len(),
        final(load).offset == old(load).offset,
        final(load).bytes@ == old(load).bytes@.subrange(0, old(load).have as int) + chunk@
            + old(load).bytes@.subrange(old(load).have + chunk@.len(), old(load).bytes@.len() as int),
{
    let ghost start = load.bytes@;
    let ghost have = load.have;
    let ghost offset = load.offset;
    let n = load.bytes.len();
    let mut k: usize = 0;
    while k < chunk.len()
        invariant
            k <= chunk@.len(),
            n == start.len(),
            load.offset == offset,
            have + chunk@.len() <= start.len(),
            load.have == have,
            load.bytes@.len() == start.len(),
            load.bytes@ == start.subrange(0, have as int) + chunk@.take(k as int) + start.subrange(have + k, start.len() as int),
        decreases chunk.len() - k,
    {
        let at = load.have + k;
        load.bytes.set(at, chunk[k]);
        assert(load.bytes@ =~= start.subrange(0, have as int) + chunk@.take(k + 1) + start.subrange(
            have + k + 1,
            start.len() as int,
        ));
        k = k + 1;
    }
    assert(chunk@.take(chunk@.len() as int) =~= chunk@);
    load.have = load.have + chunk.len();
}

/// A loaded fragment read: its frames, or why the stream is not one this player reads.
pub fn finish_load(load: FragmentLoad, track: &AudioTrack) -> (r: Result<FragmentData, StreamError>)
    requires
        load.bytes@.len() <= isize::MAX,
        !(fragment_spec(load.bytes@, load.have as int, track.view()) is Panics),
    ensures
        match fragment_spec(load.bytes@, load.have as int, track.view()) {
            Outcome::Done(v) => r matches Ok(d) && d.bytes@ == load.bytes@ && d.available == load.have && d.samples@
                == v,
            Outcome::Failed(e) => r matches Err(err) && err.kind == StreamErrorKind::Extractor && err.message@
                == unsupported(e@),
            Outcome::Panics => false,
        },
{
    match parse_fragment(load.bytes.as_slice(), load.have, track) {
        Ok(samples) => Ok(FragmentData { bytes: load.bytes, available: load.have, samples }),
        Err(FormatError(e)) => Err(unsupported_error(e)),
    }
}

} // verus!
