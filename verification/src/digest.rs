//! Cryptographic digests.

use sha2::Digest;
use vstd::prelude::*;

verus! {

/// The SHA-256 digest of a byte string.
pub uninterp spec fn sha256_digest(bytes: Seq<u8>) -> Seq<u8>;

/// `sha2::Sha256` over one byte string: `new`, `update` and `finalize`. The
/// contract names the digest, a function of the bytes alone, and says that it
/// has thirty-two bytes.
#[verifier::external_body]
pub(crate) fn sha256(bytes: &[u8]) -> (r: Vec<u8>)
    ensures
        r@ == sha256_digest(bytes@),
        r@.len() == 32,
{
    let mut hash = sha2::Sha256::new();
    hash.update(bytes);
    hash.finalize().to_vec()
}

} // verus!
