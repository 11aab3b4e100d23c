//! SHA-256 digests, computed by the `sha2` crate.

use vstd::prelude::*;

verus! {

/// The SHA-256 digest of a byte string. Writing the compression function out
/// would state nothing checkable here; the name stands for the digest as a
/// pure function of the input bytes, which is all the contracts rely on.
pub uninterp spec fn sha256_of(input: Seq<u8>) -> Seq<u8>;

/// Relies on `sha2::Sha256` through the `Digest` trait: the digest depends
/// on the input bytes alone and is 32 bytes long.
#[verifier::external_body]
pub(crate) fn sha256(input: &Vec<u8>) -> (r: Vec<u8>)
    ensures
        r@ == sha256_of(input@),
        r@.len() == 32,
{
    let digest = <sha2::Sha256 as sha2::Digest>::digest(input.as_slice());
    digest.to_vec()
}

} // verus!
