//! SHA-1, the content hash of the protocol.

use sha1::{Digest, Sha1};
use vstd::prelude::*;

verus! {

/// The SHA-1 digest of a byte string.
pub uninterp spec fn sha1(data: Seq<u8>) -> Seq<u8>;

/// Computes the SHA-1 digest of `data` with `sha1::Sha1::digest`.
///
/// Trusted: the result is the digest of exactly the bytes given, and it is
/// twenty bytes long, the output size that the `sha1` crate declares.
#[verifier::external_body]
pub(crate) fn sha1_digest(data: &[u8]) -> (digest: Vec<u8>)
    ensures
        digest@ == sha1(data@),
        digest@.len() == 20,
{
    Sha1::digest(data).to_vec()
}

} // verus!
