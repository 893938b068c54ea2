//! The digest by which a hidden schedule is committed to.

use vstd::prelude::*;
use sha2::Digest;
use crate::CryptoHash;

verus! {

/// The SHA-256 digest of a byte string.
///
/// The digest is computed by the `sha2` crate; nothing is stated of it here
/// but that it is a function of the bytes.
pub uninterp spec fn sha256_digest(bytes: Seq<u8>) -> Seq<u8>;

/// Calls `sha2::Sha256::digest` on the bytes and returns its 32-byte output.
///
/// Trusted: the result is the digest that `sha256_digest` names. The call
/// hashes exactly the bytes given and returns a fixed-size array.
#[verifier::external_body]
pub(crate) fn sha256(bytes: &Vec<u8>) -> (digest: CryptoHash)
    ensures
        digest@ == sha256_digest(bytes@),
{
    sha2::Sha256::digest(bytes).into()
}

/// Whether two digests are the same, byte for byte.
pub fn hash_eq(a: &CryptoHash, b: &CryptoHash) -> (same: bool)
    ensures
        same == (a@ == b@),
{
    let mut i: usize = 0;
    while i < 32
        invariant
            i <= 32,
            forall|k: int| 0 <= k < i ==> a@[k] == b@[k],
        decreases 32 - i,
    {
        if a[i] != b[i] {
            return false;
        }
        i += 1;
    }
    assert(a@ =~= b@);
    true
}

} // verus!
