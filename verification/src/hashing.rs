//! The one trusted primitive: a cryptographic hash from an outside
//! crate. Its output is given a name, [`digest_of`]; everything the
//! protocol states about commitments, challenges and proof-of-work is
//! phrased over that name, and the Merkle and transcript layers above
//! it are verified.

use vstd::prelude::*;

verus! {

/// The digest that the hash function assigns to a byte string. The
/// function is deterministic, so the digest depends on the bytes alone.
pub uninterp spec fn digest_of(bytes: Seq<u8>) -> Seq<u8>;

/// Relies on blake3::hash: a 32-byte digest that is a function of the
/// input bytes alone.
#[verifier::external_body]
pub(crate) fn hash_bytes(bytes: &Vec<u8>) -> (r: Vec<u8>)
    ensures
        r@ == digest_of(bytes@),
        r@.len() == 32,
{
    blake3::hash(bytes.as_slice()).as_bytes().to_vec()
}

} // verus!
