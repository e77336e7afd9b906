//! Covers: the name of a cover's file in the disk cache, and the covers kept in memory (the last
//! 300 addresses, the oldest leaving first). Fetching and decoding the pictures is the app's.
use vstd::prelude::*;
use sha2::{Digest, Sha256};
use crate::chars::{chars_of, extend_str, string_of};

verus! {

/// Covers kept in memory.
pub const MEMORY: usize = 300;

/// The SHA-256 digest of the UTF-8 bytes of a text.
pub uninterp spec fn sha256_of_text(text: Seq<char>) -> Seq<u8>;

/// `Sha256::digest` of the text's UTF-8 bytes (sha2): the result is that digest, 32 bytes long
/// as the output type of SHA-256 fixes it.
#[verifier::external_body]
fn sha256_text(text: &str) -> (r: Vec<u8>)
    ensures
        r@ == sha256_of_text(text@),
        r@.len() == 32,
{
    Sha256::digest(text.as_bytes()).to_vec()
}

/// A digit of lower-case hexadecimal.
pub open spec fn hex_digit(d: int) -> char {
    if d < 10 {
        (48 + d) as char
    } else {
        (87 + d) as char
    }
}

/// Lower-case hexadecimal, two digits a byte, the high one first.
pub open spec fn hex_of(bytes: Seq<u8>) -> Seq<char>
    decreases bytes.len(),
{
    if bytes.len() == 0 {
        Seq::empty()
    } else {
        hex_of(bytes.drop_last()).push(hex_digit(bytes.last() as int / 16)).push(hex_digit(bytes.last() as int % 16))
    }
}

/// `hex::encode` (hex): each byte as two lower-case hexadecimal digits, the high one first.
#[verifier::external_body]
fn hex_encode(bytes: &[u8]) -> (r: String)
    ensures
        r@ == hex_of(bytes@),
{
    hex::encode(bytes)
}

/// The name of a cover's file in the disk cache: the first half of the SHA-256 digest of its
/// address, in hexadecimal, and ".img".
pub fn cache_file_name(url: &str) -> (r: String)
    ensures
        r@ == hex_of(sha256_of_text(url@).take(16)) + ".img"@,
{
    let digest = sha256_text(url);
    let head = vstd::slice::slice_subrange(digest.as_slice(), 0, 16);
    let mut v = chars_of(hex_encode(head).as_str());
    extend_str(&mut v, ".img");
    string_of(&v)
}

/// Whether two addresses are the same text.
fn same_url(a: &String, b: &str) -> (r: bool)
    ensures
        r == (a@ == b@),
{
    crate::chars::chars_eq(&chars_of(a.as_str()), &chars_of(b))
}

/// The covers kept in memory, oldest first: at most `MEMORY`, each address once.
pub struct ImageMemory<T> {
    urls: Vec<String>,
    values: Vec<T>,
}

impl<T> ImageMemory<T> {
    /// The addresses kept, oldest first.
    pub closed spec fn urls_view(&self) -> Seq<Seq<char>> {
        self.urls@.map_values(|u: String| u@)
    }

    /// What is kept for each address, in the order of `urls_view`.
    pub closed spec fn values_view(&self) -> Seq<T> {
        self.values@
    }

    /// At most `MEMORY` entries, one value for each address, no address twice.
    pub closed spec fn wf(&self) -> bool {
        &&& self.urls@.len() == self.values@.len()
        &&& self.urls@.len() <= MEMORY
        &&& forall|i: int, j: int|
            0 <= i < j < self.urls@.len() ==> (#[trigger] self.urls@[i])@ != (#[trigger] self.urls@[j])@
    }

    pub proof fn lemma_wf(&self)
        requires
            self.wf(),
        ensures
            self.urls_view().len() == self.values_view().len(),
            self.urls_view().len() <= MEMORY,
            forall|i: int, j: int|
                0 <= i < j < self.urls_view().len() ==> self.urls_view()[i] != self.urls_view()[j],
    {
        assert forall|i: int, j: int| 0 <= i < j < self.urls_view().len() implies self.urls_view()[i]
            != self.urls_view()[j] by {
            assert(self.urls_view()[i] == self.urls@[i]@);
            assert(self.urls_view()[j] == self.urls@[j]@);
        }
    }

    pub fn new() -> (m: Self)
        ensures
            m.wf(),
            m.urls_view() == Seq::<Seq<char>>::empty(),
    {
        let m = ImageMemory { urls: Vec::new(), values: Vec::new() };
        assert(m.urls_view() =~= Seq::<Seq<char>>::empty());
        m
    }

    /// Where the address is kept.
    fn position(&self, url: &str) -> (r: Option<usize>)
        ensures
            match r {
                Some(i) => i < self.urls@.len() && self.urls@[i as int]@ == url@,
                None => forall|i: int| 0 <= i < self.urls@.len() ==> (#[trigger] self.urls@[i])@ != url@,
            },
    {
        let mut i: usize = 0;
        while i < self.urls.len()
            invariant
                i <= self.urls@.len(),
                forall|k: int| 0 <= k < i ==> (#[trigger] self.urls@[k])@ != url@,
            decreases self.urls@.len() - i,
        {
            if same_url(&self.urls[i], url) {
                return Some(i);
            }
            i = i + 1;
        }
        None
    }

    /// The cover kept for the address.
    pub fn cached(&self, url: &str) -> (r: Option<&T>)
        requires
            self.wf(),
        ensures
            match r {
                Some(v) => exists|i: int|
                    0 <= i < self.urls_view().len() && self.urls_view()[i] == url@ && self.values_view()[i] == *v,
                None => !self.urls_view().contains(url@),
            },
    {
        match self.position(url) {
            Some(i) => {
                assert(self.urls_view()[i as int] == url@);
                Some(&self.values[i])
            },
            None => {
                assert forall|i: int| 0 <= i < self.urls_view().len() implies self.urls_view()[i] != url@ by {
                    assert(self.urls_view()[i] == self.urls@[i]@);
                }
                None
            },
        }
    }

    /// Keeps a cover: a known address gets the new value in its place; a new one comes last, and
    /// the oldest leaves when there are more than `MEMORY`.
    pub fn remember(&mut self, url: &str, value: T)
        requires
            old(self).wf(),
        ensures
            final(self).wf(),
            final(self).urls_view().contains(url@),
            final(self).values_view()[final(self).urls_view().index_of(url@)] == value,
            old(self).urls_view().contains(url@) ==> {
                &&& final(self).urls_view() == old(self).urls_view()
                &&& final(self).values_view() == old(self).values_view().update(
                    old(self).urls_view().index_of(url@),
                    value,
                )
            },
            !old(self).urls_view().contains(url@) && old(self).urls_view().len() < MEMORY ==> {
                &&& final(self).urls_view() == old(self).urls_view().push(url@)
                &&& final(self).values_view() == old(self).values_view().push(value)
            },
            !old(self).urls_view().contains(url@) && old(self).urls_view().len() == MEMORY ==> {
                &&& final(self).urls_view() == old(self).urls_view().push(url@).drop_first()
                &&& final(self).values_view() == old(self).values_view().push(value).drop_first()
            },
    {
        proof {
            self.lemma_wf();
        }
        let ghost u0 = self.urls_view();
        let ghost v0 = self.values_view();
        match self.position(url) {
            Some(i) => {
                proof {
                    assert(u0[i as int] == url@);
                    assert(u0.contains(url@));
                    let c = u0.index_of(url@);
                    assert(0 <= c < u0.len() && u0[c] == url@);
                    assert(c == i);
                }
                self.values.set(i, value);
                proof {
                    self.lemma_wf();
                    assert(self.urls_view() == u0);
                }
            },
            None => {
                assert forall|i: int| 0 <= i < u0.len() implies u0[i] != url@ by {
                    assert(u0[i] == self.urls@[i]@);
                }
                let s = string_of(&chars_of(url));
                self.urls.push(s);
                self.values.push(value);
                assert(self.urls_view() =~= u0.push(url@));
                if self.urls.len() > MEMORY {
                    self.urls.remove(0);
                    self.values.remove(0);
                    assert(self.urls_view() =~= u0.push(url@).drop_first());
                    assert(self.values_view() =~= v0.push(value).drop_first());
                }
                proof {
                    self.lemma_wf();
                    let n = self.urls_view().len() - 1;
                    assert(self.urls_view()[n] == url@);
                    let c = self.urls_view().index_of(url@);
                    assert(c == n);
                }
            },
        }
    }
}

} // verus!
