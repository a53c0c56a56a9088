//! SHA-1 digests, computed by the `sha1` crate, in the lower-case hex form
//! the mod providers publish.

use vstd::prelude::*;
use crate::text::{hex_lower, hex_string, lemma_hex_lower_len};

verus! {

/// The SHA-1 digest of `data`, as the `sha1` crate computes it.
pub uninterp spec fn sha1_digest(data: Seq<u8>) -> Seq<u8>;

/// Calls `sha1::Sha1::digest` (the one-shot API of the `Digest` trait) on
/// `data`. Claimed: the result is the digest of `data`, a function of the
/// bytes alone, and it is 20 bytes long (the output size `U20` of the crate's
/// `Sha1Core`).
#[verifier::external_body]
fn sha1_bytes(data: &[u8]) -> (res: Vec<u8>)
    ensures
        res@ == sha1_digest(data@),
        res@.len() == 20,
{
    <sha1::Sha1 as sha1::Digest>::digest(data).to_vec()
}

/// The SHA-1 digest of `data` in lower-case hex: 40 characters.
pub fn sha1_hex(data: &[u8]) -> (res: String)
    ensures
        res@ == hex_lower(sha1_digest(data@)),
        res@.len() == 40,
{
    let digest = sha1_bytes(data);
    let res = hex_string(digest.as_slice());
    proof {
        lemma_hex_lower_len(digest@);
    }
    res
}

} // verus!
