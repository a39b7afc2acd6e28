//! Digests used by the deterministic bitcoin commitment layer, obtained from
//! the `bitcoin` crate's hash implementations.

use vstd::prelude::*;
use bitcoin::hashes::Hash as _;
use bitcoin::hashes::HashEngine as _;

verus! {

/// The RIPEMD160-of-SHA256 digest of a byte string.
pub uninterp spec fn hash160_of(data: Seq<u8>) -> Seq<u8>;

/// The SHA256 digest of a byte string.
pub uninterp spec fn sha256_of(data: Seq<u8>) -> Seq<u8>;

/// The HMAC-SHA256 authentication code for a key and a message.
pub uninterp spec fn hmac_sha256_of(key: Seq<u8>, data: Seq<u8>) -> Seq<u8>;

/// Relies on `bitcoin::hashes::hash160::Hash::hash`: the 20-byte
/// RIPEMD160(SHA256(data)) digest, a function of the input bytes alone.
#[verifier::external_body]
pub(crate) fn hash160(data: &Vec<u8>) -> (r: Vec<u8>)
    ensures
        r@ == hash160_of(data@),
        r@.len() == 20,
{
    bitcoin::hashes::hash160::Hash::hash(data).to_byte_array().to_vec()
}

/// Relies on `bitcoin::hashes::sha256::Hash::hash`: the 32-byte SHA256 digest,
/// a function of the input bytes alone.
#[verifier::external_body]
pub(crate) fn sha256(data: &Vec<u8>) -> (r: Vec<u8>)
    ensures
        r@ == sha256_of(data@),
        r@.len() == 32,
{
    bitcoin::hashes::sha256::Hash::hash(data).to_byte_array().to_vec()
}

/// Relies on `bitcoin::hashes::hmac`: the 32-byte HMAC-SHA256 code, a function
/// of the key and message bytes alone.
#[verifier::external_body]
pub(crate) fn hmac_sha256(key: &Vec<u8>, data: &Vec<u8>) -> (r: Vec<u8>)
    ensures
        r@ == hmac_sha256_of(key@, data@),
        r@.len() == 32,
{
    let mut engine = bitcoin::hashes::HmacEngine::<bitcoin::hashes::sha256::Hash>::new(key);
    engine.input(data);
    bitcoin::hashes::Hmac::<bitcoin::hashes::sha256::Hash>::from_engine(engine)
        .to_byte_array()
        .to_vec()
}

} // verus!
