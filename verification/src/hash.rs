use sha2::Digest;
use sha2::Sha256;
use vstd::prelude::*;

verus! {

/// The SHA-256 digest of a byte sequence.  What the digest's bytes are is not
/// stated here; [`sha256_digest`] names its result with this function, and
/// everything downstream speaks of the digest only through this name.
pub uninterp spec fn sha256_of(data: Seq<u8>) -> Seq<u8>;

/// Relies on `sha2::Sha256` through the `Digest::digest` convenience: the
/// SHA-256 digest is a pure function of the input bytes alone, and is always
/// 32 bytes long (`OutputSize = U32`).
#[verifier::external_body]
pub(crate) fn sha256_digest(data: &[u8]) -> (r: Vec<u8>)
    ensures
        r@ == sha256_of(data@),
        r@.len() == 32,
{
    Sha256::digest(data).to_vec()
}

} // verus!
