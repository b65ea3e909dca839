//! The digests used to summarize a signer's public key on the wire.
//!
//! The digests themselves come from outside crates; here they are only
//! named, and the library's contracts speak of the names.

use vstd::prelude::*;

verus! {

/// The 32-byte digest that SHA-256 assigns to a byte sequence.
pub uninterp spec fn sha256_of(data: Seq<u8>) -> Seq<u8>;

/// The 20-byte digest that RIPEMD-160 assigns to a byte sequence.
pub uninterp spec fn ripemd160_of(data: Seq<u8>) -> Seq<u8>;

/// The hash a public key is recorded under in a spending condition:
/// RIPEMD-160 of SHA-256 of the key bytes.
pub open spec fn hash160_of(data: Seq<u8>) -> Seq<u8> {
    ripemd160_of(sha256_of(data))
}

/// Relies on sha2's `Sha256::digest`: a 32-byte digest that depends on
/// the input bytes alone.
#[verifier::external_body]
pub(crate) fn sha256(data: &Vec<u8>) -> (r: Vec<u8>)
    ensures
        r@ == sha256_of(data@),
        r@.len() == 32,
{
    <sha2::Sha256 as sha2::Digest>::digest(data.as_slice()).to_vec()
}

/// Relies on ripemd's `Ripemd160::digest`: a 20-byte digest that
/// depends on the input bytes alone.
#[verifier::external_body]
pub(crate) fn ripemd160(data: &Vec<u8>) -> (r: Vec<u8>)
    ensures
        r@ == ripemd160_of(data@),
        r@.len() == 20,
{
    <ripemd::Ripemd160 as ripemd::Digest>::digest(data.as_slice()).to_vec()
}

} // verus!
