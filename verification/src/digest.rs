//! SHA-1 digests.
use sha1::Sha1;
use vstd::prelude::*;

verus! {

/// The most bytes that one digest is taken of: their number of bits still fits
/// in 64 bits.
pub const MAX_DIGEST_INPUT: u64 = 0x1fff_ffff_ffff_ffff;

/// The SHA-1 digest of `data`.
pub uninterp spec fn sha1_of(data: Seq<u8>) -> Seq<u8>;

/// `sha1::Sha1`: `digest().bytes()` after one `update` with `data`. It counts
/// the bits of its input in a `u64`, so longer input is left out.
#[verifier::external_body]
pub(crate) fn sha1_digest(data: &[u8]) -> (digest: [u8; 20])
    requires
        data@.len() <= MAX_DIGEST_INPUT,
    ensures
        digest@ == sha1_of(data@),
{
    let mut hasher = Sha1::new();
    hasher.update(data);
    hasher.digest().bytes()
}

} // verus!
