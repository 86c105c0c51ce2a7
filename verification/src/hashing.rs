//! The hash primitive: one-shot SHA-256, named at the specification level so
//! that contracts can speak of the digest of a byte stream.

use vstd::prelude::*;

verus! {

/// The 32-byte SHA-256 digest of a byte sequence. The function is left
/// uninterpreted: contracts relate executable results to it by name.
pub uninterp spec fn sha256_of(bytes: Seq<u8>) -> Seq<u8>;

/// Relies on `bitcoin::hashes::sha256::Hash::hash`: the one-shot SHA-256 of
/// the given bytes. The 32-byte result depends on the input bytes alone.
#[verifier::external_body]
pub(crate) fn sha256(bytes: &Vec<u8>) -> (r: Vec<u8>)
    ensures
        r@ == sha256_of(bytes@),
        r@.len() == 32,
{
    let h = <bitcoin::hashes::sha256::Hash as bitcoin::hashes::Hash>::hash(bytes.as_slice());
    <bitcoin::hashes::sha256::Hash as bitcoin::hashes::Hash>::to_byte_array(h).to_vec()
}

} // verus!
