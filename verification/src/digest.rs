//! Fingerprints of byte strings, computed with BLAKE3.

use vstd::prelude::*;
use crate::model::ObjectId;

verus! {

/// The 32-byte BLAKE3 digest of a byte string.
pub uninterp spec fn blake3_digest(data: Seq<u8>) -> Seq<u8>;

/// `blake3::hash`: the result is the digest of `data`, a function of the
/// bytes alone. Nothing else is claimed of it.
#[verifier::external_body]
fn blake3_hash(data: &[u8]) -> (id: ObjectId)
    ensures
        id@ == blake3_digest(data@),
{
    ObjectId(*blake3::hash(data).as_bytes())
}

/// The fingerprint of a byte string.
pub fn fingerprint(data: &[u8]) -> (id: ObjectId)
    ensures
        id@ == blake3_digest(data@),
{
    blake3_hash(data)
}

/// Whether `data` has the fingerprint `expected`.
pub fn has_fingerprint(data: &[u8], expected: &ObjectId) -> (matches: bool)
    ensures
        matches == (blake3_digest(data@) == expected@),
{
    let actual = blake3_hash(data);
    actual == *expected
}

} // verus!
