//! The SHA-256 implementation of the `sha2` crate, as this library sees it.

use sha2::Digest;
use vstd::prelude::*;

verus! {

/// A running SHA-256 computation: a `sha2::Sha256`, whose state Verus does
/// not look into.
#[verifier::external_body]
pub struct Hasher {
    inner: sha2::Sha256,
}

/// The bytes that a hasher has taken in since it was made, in order.
pub uninterp spec fn absorbed(h: Hasher) -> Seq<u8>;

/// The SHA-256 digest of a byte string, as `sha2` computes it.
pub uninterp spec fn sha256(data: Seq<u8>) -> Seq<u8>;

/// Makes a hasher, through `Digest::new`.
///
/// Taken on trust: a new hasher has taken in nothing.
#[verifier::external_body]
pub(crate) fn hasher_new() -> (h: Hasher)
    ensures
        absorbed(h) == Seq::<u8>::empty(),
{
    Hasher { inner: sha2::Sha256::new() }
}

/// Feeds `chunk` to the hasher, through `Digest::update`.
///
/// Taken on trust: the hasher has then taken in what it had before, followed
/// by the chunk, so that only the bytes fed count and not how they were cut.
#[verifier::external_body]
pub(crate) fn hasher_update(h: &mut Hasher, chunk: &[u8])
    ensures
        absorbed(*final(h)) == absorbed(*old(h)) + chunk@,
{
    h.inner.update(chunk);
}

/// Ends the computation, through `Digest::finalize`.
///
/// Taken on trust: the 32 bytes that come out are the SHA-256 digest of all
/// that the hasher has taken in, and depend on nothing else.
#[verifier::external_body]
pub(crate) fn hasher_finalize(h: Hasher) -> (digest: [u8; 32])
    ensures
        digest@ == sha256(absorbed(h)),
{
    h.inner.finalize().into()
}

} // verus!
