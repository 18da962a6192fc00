use vstd::prelude::*;

verus! {

/// The 32-byte double SHA-256 digest ("hash256") of a byte string.
pub uninterp spec fn sha256d(m: Seq<u8>) -> Seq<u8>;

/// Relies on dd_merkle_tree's `HashingAlgorithm::Sha256d.double_hash(m, 32)`:
/// SHA-256 applied twice, the full 32 bytes kept.
#[verifier::external_body]
pub(crate) fn double_hash(m: &[u8]) -> (r: Vec<u8>)
    ensures
        r@ == sha256d(m@),
        r@.len() == 32,
{
    dd_merkle_tree::HashingAlgorithm::Sha256d.double_hash(m, 32)
}

} // verus!
