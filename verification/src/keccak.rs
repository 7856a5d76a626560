//! The Keccak-256 digest, taken from the `sha3` crate.
use vstd::prelude::*;
use sha3::Digest;

verus! {

pub uninterp spec fn keccak256(input: Seq<u8>) -> Seq<u8>;

/// Relies on sha3::Keccak256: the digest is 32 bytes and depends on the
/// input bytes alone.
#[verifier::external_body]
pub fn keccak256_of(input: &[u8]) -> (r: Vec<u8>)
    ensures
        r@ == keccak256(input@),
        r@.len() == 32,
{
    sha3::Keccak256::digest(input).to_vec()
}

} // verus!
