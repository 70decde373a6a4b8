//! SHA-256 and RIPEMD-160, relied on as external primitives. Each digest is
//! a pure function of its input bytes, so the results are given names that
//! the rest of the crate's contracts are written over.

use vstd::prelude::*;
use sha2::Digest;

verus! {

/// The SHA-256 digest of `data`. Pinned down only by the facts stated in the
/// contracts of the trusted wrappers below.
pub uninterp spec fn sha256_of(data: Seq<u8>) -> Seq<u8>;

/// The RIPEMD-160 digest of `data`.
pub uninterp spec fn ripemd160_of(data: Seq<u8>) -> Seq<u8>;

/// Relies on sha2::Sha256: one 32-byte digest, a function of the input alone.
#[verifier::external_body]
pub fn sha256(value: &[u8]) -> (r: Vec<u8>)
    ensures
        r@ == sha256_of(value@),
        r@.len() == 32,
{
    sha2::Sha256::digest(value).to_vec()
}

/// Relies on ripemd::Ripemd160: one 20-byte digest, a function of the input
/// alone.
#[verifier::external_body]
pub fn ripemd160(value: &[u8]) -> (r: Vec<u8>)
    ensures
        r@ == ripemd160_of(value@),
        r@.len() == 20,
{
    ripemd::Ripemd160::digest(value).to_vec()
}

} // verus!
