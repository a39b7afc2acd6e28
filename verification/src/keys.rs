//! Secp256k1 public keys, modelled by their canonical 33-byte compressed
//! encoding, with the elliptic-curve operations of the `bitcoin` crate behind
//! trusted wrappers.

use vstd::prelude::*;
use bitcoin::secp256k1;

verus! {

/// The result of parsing a public-key encoding and re-serializing it in the
/// uncompressed form: `Some(uncompressed bytes)` for a valid encoding of a
/// curve point, `None` otherwise.
pub uninterp spec fn pk_decode(b: Seq<u8>) -> Option<Seq<u8>>;

/// The result of adding `t * G` to the curve point encoded by `k`, serialized
/// in compressed form; `None` when `k` is not a valid key encoding, `t` is not
/// a valid scalar, or the sum is the point at infinity.
pub uninterp spec fn pk_tweak_add(k: Seq<u8>, t: Seq<u8>) -> Option<Seq<u8>>;

/// A public key holds a valid compressed encoding exactly when parsing it
/// yields an uncompressed serialization.
pub open spec fn pk_valid(k: Seq<u8>) -> bool {
    pk_decode(k) is Some
}

/// The uncompressed (65-byte) encoding of the key whose compressed encoding
/// is `k`.
pub open spec fn pk_uncompressed(k: Seq<u8>) -> Seq<u8> {
    pk_decode(k)->0
}

/// Relies on `secp256k1::PublicKey::from_slice` and
/// `PublicKey::serialize_uncompressed`: both are functions of the input bytes
/// alone; parsing fails exactly on byte strings that do not encode a curve
/// point, and the uncompressed serialization is 65 bytes long.
#[verifier::external_body]
fn pk_decompress(b: &Vec<u8>) -> (r: Option<Vec<u8>>)
    ensures
        match r {
            Some(u) => pk_decode(b@) == Some(u@) && u@.len() == 65,
            None => pk_decode(b@) is None,
        },
{
    match secp256k1::PublicKey::from_slice(b) {
        Ok(pk) => Some(pk.serialize_uncompressed().to_vec()),
        Err(_) => None,
    }
}

/// Relies on `secp256k1::PublicKey::add_exp_tweak`, with
/// `Scalar::from_be_bytes` and `PublicKey::from_slice`/`serialize` around it:
/// adding `t * G` to the point encoded by `k` is a function of the two byte
/// strings alone; it fails on an invalid key encoding, an out-of-range
/// scalar, or a sum at infinity, and a compressed serialization is 33 bytes.
#[verifier::external_body]
pub(crate) fn ec_tweak_add(k: &Vec<u8>, t: &Vec<u8>) -> (r: Option<Vec<u8>>)
    requires
        t@.len() == 32,
    ensures
        match r {
            Some(c) => pk_tweak_add(k@, t@) == Some(c@) && c@.len() == 33,
            None => pk_tweak_add(k@, t@) is None,
        },
{
    let secp = secp256k1::Secp256k1::verification_only();
    let key = match secp256k1::PublicKey::from_slice(k) {
        Ok(x) => x,
        Err(_) => return None,
    };
    let mut raw = [0u8; 32];
    raw.copy_from_slice(t);
    let scalar = match secp256k1::Scalar::from_be_bytes(raw) {
        Ok(x) => x,
        Err(_) => return None,
    };
    match key.add_exp_tweak(&secp, &scalar) {
        Ok(sum) => Some(sum.serialize().to_vec()),
        Err(_) => None,
    }
}

/// A secp256k1 public key, held as its 33-byte compressed encoding together
/// with the matching 65-byte uncompressed encoding.
pub struct Pubkey {
    compressed: Vec<u8>,
    uncompressed: Vec<u8>,
}

impl View for Pubkey {
    type V = Seq<u8>;

    /// A key is identified by its compressed encoding.
    closed spec fn view(&self) -> Seq<u8> {
        self.compressed@
    }
}

impl Pubkey {
    #[verifier::type_invariant]
    spec fn wf(self) -> bool {
        &&& self.compressed@.len() == 33
        &&& pk_decode(self.compressed@) == Some(self.uncompressed@)
        &&& self.uncompressed@.len() == 65
    }

    /// Accepts exactly the 33-byte compressed encodings of curve points.
    pub fn new(bytes: Vec<u8>) -> (r: Option<Pubkey>)
        ensures
            r is Some <==> (bytes@.len() == 33 && pk_valid(bytes@)),
            r is Some ==> r->0@ == bytes@,
    {
        if bytes.len() != 33 {
            return None;
        }
        match pk_decompress(&bytes) {
            Some(u) => Some(Pubkey { compressed: bytes, uncompressed: u }),
            None => None,
        }
    }

    /// The compressed (33-byte) encoding.
    pub fn serialize(&self) -> (r: Vec<u8>)
        ensures
            r@ == self@,
            self@.len() == 33,
    {
        proof {
            use_type_invariant(self);
        }
        copy_bytes(&self.compressed)
    }

    /// The uncompressed (65-byte) encoding of the same key.
    pub fn serialize_uncompressed(&self) -> (r: Vec<u8>)
        ensures
            r@ == pk_uncompressed(self@),
            r@.len() == 65,
            pk_valid(self@),
    {
        proof {
            use_type_invariant(self);
        }
        copy_bytes(&self.uncompressed)
    }

    /// A copy holding the same key.
    pub fn duplicate(&self) -> (r: Pubkey)
        ensures
            r@ == self@,
    {
        proof {
            use_type_invariant(self);
        }
        Pubkey {
            compressed: copy_bytes(&self.compressed),
            uncompressed: copy_bytes(&self.uncompressed),
        }
    }
}

/// An owned copy of a byte string.
pub(crate) fn copy_bytes(v: &Vec<u8>) -> (r: Vec<u8>)
    ensures
        r@ == v@,
{
    let r = v.clone();
    proof {
        assert(r@ =~= v@);
    }
    r
}

} // verus!
