//! The two hash functions that identifiers and block hashes are built on.

use sha2::Digest;
use vstd::prelude::*;

verus! {

/// The BLAKE3 hash of `input`: 32 bytes.
pub uninterp spec fn blake3_digest(input: Seq<u8>) -> Seq<u8>;

/// The SHA-256 hash of `input`: 32 bytes.
pub uninterp spec fn sha256_digest(input: Seq<u8>) -> Seq<u8>;

/// Calls `blake3::hash` and copies the 32 bytes out of the `Hash` it
/// returns. The hash is taken to be a function of the input bytes alone.
#[verifier::external_body]
pub(crate) fn blake3_hash(input: &[u8]) -> (out: [u8; 32])
    ensures
        out@ == blake3_digest(input@),
{
    *blake3::hash(input).as_bytes()
}

/// Calls `sha2::Sha256::digest`, which hashes the whole input at once, and
/// copies the 32 bytes out. The hash is taken to be a function of the input
/// bytes alone.
#[verifier::external_body]
pub(crate) fn sha256(input: &[u8]) -> (out: [u8; 32])
    ensures
        out@ == sha256_digest(input@),
{
    sha2::Sha256::digest(input).into()
}

} // verus!
