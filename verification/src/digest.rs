//! SHA-256 digests, computed by `ring`.
use vstd::prelude::*;

verus! {

/// Name for what `ring::digest::digest(&ring::digest::SHA256, data)` returns.
pub uninterp spec fn sha256(data: Seq<u8>) -> Seq<u8>;

/// Inputs `ring` hashes without panicking: SHA-256 takes at most 2^64 - 1 bits.
pub open spec fn sha256_input_ok(data: Seq<u8>) -> bool {
    data.len() < 0x2000_0000_0000_0000
}

/// `ring::digest::digest` with `SHA256`, as bytes. Trusted: the result is
/// named `sha256`; ring documents SHA-256 per FIPS 180-4, whose digest is
/// 32 bytes. ring panics on inputs longer than 2^64 - 1 bits.
#[verifier::external_body]
pub fn sha256_digest(data: &[u8]) -> (r: Vec<u8>)
    requires
        sha256_input_ok(data@),
    ensures
        r@ == sha256(data@),
        r@.len() == 32,
{
    ring::digest::digest(&ring::digest::SHA256, data).as_ref().to_vec()
}

} // verus!
