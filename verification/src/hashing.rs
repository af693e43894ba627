use vstd::prelude::*;
use sha2::{Digest, Sha256};

verus! {

/// The 32-byte digest that the SHA-256 hash function assigns to a byte
/// sequence.  The function itself is left unspecified; everything the library
/// proves about identifiers holds for whatever function the hash computes.
pub uninterp spec fn sha256_of(b: Seq<u8>) -> Seq<u8>;

/// Relies on sha2's Sha256: a deterministic, pure function of the input bytes
/// alone, producing a 256-bit (32-byte) digest.
#[verifier::external_body]
fn sha256(data: &[u8]) -> (r: [u8; 32])
    ensures
        r@ == sha256_of(data@),
{
    let mut hasher = Sha256::new();
    hasher.update(data);
    hasher.finalize().into()
}

/// Two rounds of SHA-256 over the same data, the digest form that content
/// identifiers are derived from.
pub fn double_sha256(data: &[u8]) -> (r: [u8; 32])
    ensures
        r@ == sha256_of(sha256_of(data@)),
{
    let first = sha256(data);
    sha256(first.as_slice())
}

} // verus!
