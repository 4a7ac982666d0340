//! SHA-256 digests, as the builder commitment of a payload and the message
//! a DA proposal signature covers.
use sha2::Digest;
use sha2::Sha256;

use vstd::prelude::*;

verus! {

/// The SHA-256 digest of `data`.
pub uninterp spec fn sha256(data: Seq<u8>) -> Seq<u8>;

/// `sha2::Sha256::digest`: the 32-byte SHA-256 digest of `data`. The
/// contract names the digest and says no more of it than that it is a
/// function of the bytes hashed.
#[verifier::external_body]
pub(crate) fn sha256_digest(data: &[u8]) -> (r: [u8; 32])
    ensures
        r@ == sha256(data@),
{
    Sha256::digest(data).into()
}

} // verus!
