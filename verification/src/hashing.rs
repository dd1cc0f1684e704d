//! SHA-256, as computed by `ring`.

use vstd::prelude::*;

verus! {

/// The largest input, in bytes, whose length in bits still fits the 64-bit
/// counter of the hash.
pub const MAX_HASH_INPUT: u64 = 0x1fff_ffff_ffff_ffff;

/// The SHA-256 digest of a byte string.
pub uninterp spec fn sha256(data: Seq<u8>) -> Seq<u8>;

/// Hashes `data` with `ring::digest::digest` and the `SHA256` algorithm.
///
/// Trusted: the result is the SHA-256 digest of the input, a function of the
/// input bytes alone, and it is 32 bytes long. `ring` gives up on inputs
/// whose bit length overflows 64 bits; those are excluded.
#[verifier::external_body]
pub(crate) fn sha256_digest(data: &[u8]) -> (digest: Vec<u8>)
    requires
        data@.len() <= MAX_HASH_INPUT,
    ensures
        digest@ == sha256(data@),
        digest@.len() == 32,
{
    ring::digest::digest(&ring::digest::SHA256, data).as_ref().to_vec()
}

} // verus!
