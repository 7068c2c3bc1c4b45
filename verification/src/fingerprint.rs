//! Content fingerprints, and the streaming computation that produces them.

use crate::hasher::{absorbed, hasher_finalize, hasher_new, hasher_update, sha256, Hasher};
use crate::hex::{hex_string, lemma_hex_string_injective, to_hex};
use vstd::prelude::*;
use vstd::slice::slice_subrange;
use vstd::std_specs::cmp::PartialEqSpecImpl;

verus! {

/// The number of bytes handed to the digest at a time.
pub const CHUNK_SIZE: usize = 4096;

/// What the fingerprint of `content` is: its SHA-256 digest.
pub open spec fn fingerprint_of(content: Seq<u8>) -> Seq<u8> {
    sha256(content)
}

/// The first eight bytes of a fingerprint as one number, least significant
/// byte first.
pub open spec fn prefix_of(fp: Seq<u8>) -> int {
    fp[0] + fp[1] * 0x100 + fp[2] * 0x1_0000 + fp[3] * 0x100_0000 + fp[4] * 0x1_0000_0000 + fp[5]
        * 0x100_0000_0000 + fp[6] * 0x1_0000_0000_0000 + fp[7] * 0x100_0000_0000_0000
}

/// The fingerprint of one file's content: 32 bytes.
#[derive(Clone, Copy, Debug, Hash)]
pub struct Fingerprint {
    digest: [u8; 32],
}

impl View for Fingerprint {
    type V = Seq<u8>;

    closed spec fn view(&self) -> Seq<u8> {
        self.digest@
    }
}

impl PartialEq for Fingerprint {
    fn eq(&self, other: &Self) -> (same: bool) {
        let mut i: usize = 0;
        while i < 32
            invariant
                i <= 32,
                forall|k: int| 0 <= k < i ==> self.digest@[k] == other.digest@[k],
            decreases 32 - i,
        {
            if self.digest[i] != other.digest[i] {
                return false;
            }
            i += 1;
        }
        assert(self.digest@ =~= other.digest@);
        true
    }
}

impl Eq for Fingerprint {

}

impl PartialEqSpecImpl for Fingerprint {
    open spec fn obeys_eq_spec() -> bool {
        true
    }

    open spec fn eq_spec(&self, other: &Self) -> bool {
        self@ == other@
    }
}

impl Fingerprint {
    /// The fingerprint that consists of the given bytes.
    pub fn from_bytes(digest: [u8; 32]) -> (fp: Fingerprint)
        ensures
            fp@ == digest@,
    {
        Fingerprint { digest }
    }

    /// The bytes of the fingerprint.
    pub fn to_bytes(&self) -> (digest: [u8; 32])
        ensures
            digest@ == self@,
    {
        self.digest
    }

    /// The first eight bytes as one number: a short key under which to file
    /// the fingerprint. Different fingerprints may share it.
    pub fn prefix(&self) -> (p: u64)
        ensures
            p == prefix_of(self@),
    {
        let d = &self.digest;
        let low: u64 = d[0] as u64 + d[1] as u64 * 0x100 + d[2] as u64 * 0x1_0000 + d[3] as u64
            * 0x100_0000;
        let high: u64 = d[4] as u64 + d[5] as u64 * 0x100 + d[6] as u64 * 0x1_0000 + d[7] as u64
            * 0x100_0000;
        low + high * 0x1_0000_0000
    }

    /// The fingerprint as 64 lower-case hexadecimal digits.
    pub fn to_hex(&self) -> (text: String)
        ensures
            text@ == hex_string(self@),
            text@.len() == 64,
    {
        to_hex(self.digest.as_slice())
    }

    /// A fingerprint has 32 bytes, and two are the same value exactly when
    /// their bytes agree.
    pub proof fn lemma_view(self, other: Fingerprint)
        ensures
            self@.len() == 32,
            self@ == other@ <==> self == other,
    {
        if self@ == other@ {
            assert(self.digest =~= other.digest);
        }
    }
}

/// A fingerprint computation in progress. Content is fed piece by piece, so
/// that no more than one piece need be held at a time.
pub struct Fingerprinter {
    hasher: Hasher,
}

impl Fingerprinter {
    /// All that has been fed so far, in order.
    pub closed spec fn content(&self) -> Seq<u8> {
        absorbed(self.hasher)
    }

    /// Starts a computation, with nothing fed.
    pub fn new() -> (f: Fingerprinter)
        ensures
            f.content() == Seq::<u8>::empty(),
    {
        Fingerprinter { hasher: hasher_new() }
    }

    /// Feeds one piece of content.
    pub fn update(&mut self, chunk: &[u8])
        ensures
            final(self).content() == old(self).content() + chunk@,
    {
        hasher_update(&mut self.hasher, chunk);
    }

    /// Takes the outcome of one read into `buffer`, of which the first
    /// `bytes_read` bytes were filled. Says whether to read on: a read of
    /// nothing marks the end of the content.
    pub fn feed(&mut self, buffer: &[u8], bytes_read: usize) -> (more: bool)
        requires
            bytes_read <= buffer@.len(),
        ensures
            more == (bytes_read > 0),
            final(self).content() == old(self).content() + buffer@.subrange(0, bytes_read as int),
    {
        if bytes_read == 0 {
            false
        } else {
            self.update(slice_subrange(buffer, 0, bytes_read));
            true
        }
    }

    /// Ends the computation and gives the fingerprint of all that was fed.
    pub fn finish(self) -> (fp: Fingerprint)
        ensures
            fp@ == fingerprint_of(self.content()),
    {
        Fingerprint { digest: hasher_finalize(self.hasher) }
    }
}

/// The fingerprint of `content`, computed over pieces of at most
/// `CHUNK_SIZE` bytes.
pub fn fingerprint(content: &[u8]) -> (fp: Fingerprint)
    ensures
        fp@ == fingerprint_of(content@),
{
    let mut f = Fingerprinter::new();
    let mut start: usize = 0;
    while start < content.len()
        invariant
            start <= content@.len(),
            f.content() == content@.subrange(0, start as int),
        decreases content@.len() - start,
    {
        let end: usize = if content.len() - start > CHUNK_SIZE {
            start + CHUNK_SIZE
        } else {
            content.len()
        };
        f.update(slice_subrange(content, start, end));
        start = end;
    }
    assert(content@.subrange(0, start as int) =~= content@);
    f.finish()
}

/// The SHA-256 digest of `content` as 64 lower-case hexadecimal digits.
pub fn compute_sha_256(content: &[u8]) -> (text: String)
    ensures
        text@ == hex_string(fingerprint_of(content@)),
        text@.len() == 64,
{
    fingerprint(content).to_hex()
}

/// Content that is byte for byte the same has the same fingerprint and the
/// same rendering of it, whoever computed it and whenever.
pub proof fn lemma_same_content_same_fingerprint(first: Fingerprinter, second: Fingerprinter)
    requires
        first.content() == second.content(),
    ensures
        fingerprint_of(first.content()) == fingerprint_of(second.content()),
        hex_string(fingerprint_of(first.content())) == hex_string(
            fingerprint_of(second.content()),
        ),
{
}

/// Where the pieces are cut does not matter: feeding two pieces one after
/// the other leaves the content that feeding them joined leaves.
pub proof fn lemma_pieces_join(fed: Seq<u8>, head: Seq<u8>, tail: Seq<u8>)
    ensures
        (fed + head) + tail == fed + (head + tail),
        fingerprint_of((fed + head) + tail) == fingerprint_of(fed + (head + tail)),
{
    assert((fed + head) + tail =~= fed + (head + tail));
}

/// Two fingerprints render alike only if they are the same.
pub proof fn lemma_rendering_tells_apart(first: Fingerprint, second: Fingerprint)
    requires
        hex_string(first@) == hex_string(second@),
    ensures
        first == second,
{
    lemma_hex_string_injective(first@, second@);
    first.lemma_view(second);
}

} // verus!
