//! Message digests, by way of the `ring` crate.

use vstd::prelude::*;

verus! {

/// The SHA-1 digest of `data`.
pub uninterp spec fn sha1(data: Seq<u8>) -> Seq<u8>;

/// Calls `ring::digest::digest` with `SHA1_FOR_LEGACY_USE_ONLY`. The
/// contract claims that the result is a function of the input, named
/// [`sha1`], and that it is twenty bytes long, as every SHA-1 digest is. The
/// outside function gives up on inputs of 2^61 bytes and more, whose length
/// in bits no digest can hold.
#[verifier::external_body]
pub(crate) fn sha1_digest(data: &[u8]) -> (r: Vec<u8>)
    requires
        data@.len() < 0x2000_0000_0000_0000,
    ensures
        r@ == sha1(data@),
        r@.len() == 20,
{
    ring::digest::digest(&ring::digest::SHA1_FOR_LEGACY_USE_ONLY, data).as_ref().to_vec()
}

} // verus!
