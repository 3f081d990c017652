//! SHA-256 measurement of what is loaded.

use sha2::{Digest, Sha256};
use vstd::prelude::*;

verus! {

/// The longest message in bytes: its length in bits has 64 bits.
pub const MAX_MESSAGE: u64 = 0x1fff_ffff_ffff_ffff;

/// The hasher of `sha2`, of which nothing is seen but what the functions below
/// say.
#[verifier::external_type_specification]
#[verifier::external_body]
pub struct ExSha256(sha2::Sha256);

/// The bytes that a hasher has taken in so far.
pub uninterp spec fn absorbed(h: Sha256) -> Seq<u8>;

/// The SHA-256 digest of a message, as `sha2` computes it.
pub uninterp spec fn sha256(message: Seq<u8>) -> Seq<u8>;

/// Calls `Sha256::new`: a new hasher has taken in nothing.
#[verifier::external_body]
pub(crate) fn new_hasher() -> (h: Sha256)
    ensures
        absorbed(h) == Seq::<u8>::empty(),
{
    Sha256::new()
}

/// Calls `Sha256::update`: the hasher takes in the bytes of `data` behind what
/// it took in before.
#[verifier::external_body]
pub(crate) fn update(h: &mut Sha256, data: &[u8])
    requires
        absorbed(*old(h)).len() + data@.len() <= MAX_MESSAGE,
    ensures
        absorbed(*final(h)) == absorbed(*old(h)) + data@,
{
    h.update(data);
}

/// Calls `Sha256::finalize`: the digest of what the hasher took in.
#[verifier::external_body]
pub(crate) fn finalize(h: Sha256) -> (digest: [u8; 32])
    requires
        absorbed(h).len() <= MAX_MESSAGE,
    ensures
        digest@ == sha256(absorbed(h)),
{
    h.finalize().into()
}

} // verus!
