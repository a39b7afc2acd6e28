//! Deterministic bitcoin commitments embedded into output scripts: the
//! commitment containers, the commit/verify dispatcher and the script
//! synthesizer.

use vstd::prelude::*;
use crate::hashes::{hash160, hash160_of, hmac_sha256, hmac_sha256_of, sha256, sha256_of};
use crate::keys::{copy_bytes, ec_tweak_add, pk_tweak_add, pk_uncompressed, Pubkey};
use crate::scripts::{
    bytes_eq, extend_bytes, op_return_script, p2pk_script, p2wpkh_script, p2wsh_script,
    LockScript, PubkeyScript,
};

verus! {

/// Failure of the public-key commitment primitive: the derived tweak was
/// rejected by the curve arithmetic.
#[derive(Clone, Copy, PartialEq, Eq, Structural, Debug)]
pub enum PubkeyError {
    InvalidTweak,
}

/// Errors of the commitment layer.
#[derive(Clone, Copy, PartialEq, Eq, Structural, Debug)]
pub enum Error {
    /// The public-key commitment primitive failed.
    Pubkey(PubkeyError),
    /// The container kind has no defined script synthesis yet.
    UnsupportedContainer,
}

impl From<PubkeyError> for Error {
    fn from(err: PubkeyError) -> (r: Self) {
        Error::Pubkey(err)
    }
}

impl vstd::std_specs::convert::FromSpecImpl<PubkeyError> for Error {
    open spec fn obeys_from_spec() -> bool {
        true
    }

    open spec fn from_spec(err: PubkeyError) -> Self {
        Error::Pubkey(err)
    }
}

/// Taproot commitment input: an internal key and the merkle root of the
/// script tree.
pub struct TaprootContainer {
    pub script_root: Vec<u8>,
    pub intermediate_key: Pubkey,
}

/// Where and how a commitment will be embedded.
#[non_exhaustive]
pub enum ScriptPubkeyContainer {
    /// Commit into the key itself; pay-to-pubkey script.
    PublicKey(Pubkey),
    /// Commit into the key; witness-pubkey-hash script.
    PubkeyHash(Pubkey),
    /// Commit into a lock script; witness-script-hash script.
    ScriptHash(LockScript),
    /// Commit through the taproot construction.
    TapRoot(TaprootContainer),
    /// Commit into the key; its hash rides in a data-carrier output.
    OpReturn(Pubkey),
    /// No key material: the script is used verbatim.
    OtherScript(PubkeyScript),
}

/// A public-key commitment: the original key and the tweaked key.
pub struct PubkeyCommitment {
    pub original: Pubkey,
    pub tweaked: Vec<u8>,
}

/// A lock-script commitment: the original script and its message digest.
pub struct LockscriptCommitment {
    pub original: LockScript,
    pub digest: Vec<u8>,
}

/// A taproot commitment: the original container fields and the tweaked key.
pub struct TaprootCommitment {
    pub original_root: Vec<u8>,
    pub original_key: Pubkey,
    pub tweaked: Vec<u8>,
}

/// The result of embedding: mirrors the container, except that the key-based
/// kinds fold into `PublicKey` and `OtherScript` folds into `LockScript`.
#[non_exhaustive]
pub enum ScriptPubkeyCommitment {
    PublicKey(PubkeyCommitment),
    LockScript(LockscriptCommitment),
    TapRoot(TaprootCommitment),
}

/// The tweaked key of the public-key commitment primitive: the original key,
/// shifted by the HMAC-SHA256 of the message under the key's own compressed
/// encoding.
pub open spec fn pk_commit(k: Seq<u8>, m: Seq<u8>) -> Option<Seq<u8>> {
    pk_tweak_add(k, hmac_sha256_of(k, m))
}

/// The digest of the lock-script commitment primitive: the HMAC-SHA256 of the
/// message under the script bytes.
pub open spec fn lockscript_digest(s: Seq<u8>, m: Seq<u8>) -> Seq<u8> {
    hmac_sha256_of(s, m)
}

/// The tweaked key of the taproot commitment primitive: the internal key,
/// shifted by the HMAC-SHA256 of the message under the internal key followed
/// by the script-tree root.
pub open spec fn taproot_commit(k: Seq<u8>, root: Seq<u8>, m: Seq<u8>) -> Option<Seq<u8>> {
    pk_tweak_add(k, hmac_sha256_of(k + root, m))
}

/// When embedding a message into a container succeeds: always for the script
/// kinds, and exactly when the curve arithmetic accepts the derived tweak for
/// the key-based kinds.
pub open spec fn commit_ok(c: ScriptPubkeyContainer, m: Seq<u8>) -> bool {
    match c {
        ScriptPubkeyContainer::PublicKey(k) => pk_commit(k@, m) is Some,
        ScriptPubkeyContainer::PubkeyHash(k) => pk_commit(k@, m) is Some,
        ScriptPubkeyContainer::ScriptHash(_) => true,
        ScriptPubkeyContainer::TapRoot(t) => taproot_commit(
            t.intermediate_key@,
            t.script_root@,
            m,
        ) is Some,
        ScriptPubkeyContainer::OpReturn(k) => pk_commit(k@, m) is Some,
        ScriptPubkeyContainer::OtherScript(_) => true,
    }
}

/// The commitment that embedding `m` into `c` produces: the container kind is
/// preserved, except that `PubkeyHash` and `OpReturn` fold into the
/// `PublicKey` commitment kind and `OtherScript` folds into `LockScript`.
pub open spec fn commitment_matches(
    c: ScriptPubkeyContainer,
    r: ScriptPubkeyCommitment,
    m: Seq<u8>,
) -> bool {
    match c {
        ScriptPubkeyContainer::PublicKey(k) => r matches ScriptPubkeyCommitment::PublicKey(pc)
            && pc.original@ == k@ && Some(pc.tweaked@) == pk_commit(k@, m),
        ScriptPubkeyContainer::PubkeyHash(k) => r matches ScriptPubkeyCommitment::PublicKey(pc)
            && pc.original@ == k@ && Some(pc.tweaked@) == pk_commit(k@, m),
        ScriptPubkeyContainer::ScriptHash(s) => r matches ScriptPubkeyCommitment::LockScript(lc)
            && lc.original@ == s@ && lc.digest@ == lockscript_digest(s@, m),
        ScriptPubkeyContainer::TapRoot(t) => r matches ScriptPubkeyCommitment::TapRoot(tc)
            && tc.original_key@ == t.intermediate_key@ && tc.original_root@ == t.script_root@
            && Some(tc.tweaked@) == taproot_commit(t.intermediate_key@, t.script_root@, m),
        ScriptPubkeyContainer::OpReturn(k) => r matches ScriptPubkeyCommitment::PublicKey(pc)
            && pc.original@ == k@ && Some(pc.tweaked@) == pk_commit(k@, m),
        ScriptPubkeyContainer::OtherScript(s) => r matches ScriptPubkeyCommitment::LockScript(lc)
            && lc.original@ == s@ && lc.digest@ == lockscript_digest(s@, m),
    }
}

/// Whether a commitment embeds (reveals) the message: recomputing the
/// primitive from the stored original yields the stored value.
pub open spec fn reveals(r: ScriptPubkeyCommitment, m: Seq<u8>) -> bool {
    match r {
        ScriptPubkeyCommitment::PublicKey(pc) => pk_commit(pc.original@, m) == Some(pc.tweaked@),
        ScriptPubkeyCommitment::LockScript(lc) => lc.digest@ == lockscript_digest(
            lc.original@,
            m,
        ),
        ScriptPubkeyCommitment::TapRoot(tc) => taproot_commit(
            tc.original_key@,
            tc.original_root@,
            m,
        ) == Some(tc.tweaked@),
    }
}

/// The abstract container a commitment reconstructs to. The reconstruction is
/// lossy and biased: every key-based commitment reconstructs to `PubkeyHash`,
/// and every script-based one to `ScriptHash`.
pub open spec fn reconstructs_to(r: ScriptPubkeyCommitment, c: ScriptPubkeyContainer) -> bool {
    match r {
        ScriptPubkeyCommitment::PublicKey(pc) => c matches ScriptPubkeyContainer::PubkeyHash(k)
            && k@ == pc.original@,
        ScriptPubkeyCommitment::LockScript(lc) => c matches ScriptPubkeyContainer::ScriptHash(s)
            && s@ == lc.original@,
        ScriptPubkeyCommitment::TapRoot(tc) => c matches ScriptPubkeyContainer::TapRoot(t)
            && t.intermediate_key@ == tc.original_key@ && t.script_root@ == tc.original_root@,
    }
}

impl ScriptPubkeyCommitment {
    /// Embeds a message into the cryptographic material a container
    /// describes. Succeeds for every container except a key-based one whose
    /// derived tweak the curve rejects; never returns a partial result.
    pub fn commit_to(container: ScriptPubkeyContainer, msg: &Vec<u8>) -> (r: Result<
        ScriptPubkeyCommitment,
        Error,
    >)
        ensures
            r is Ok <==> commit_ok(container, msg@),
            r is Ok ==> commitment_matches(container, r->Ok_0, msg@),
            r is Err ==> r->Err_0 == Error::Pubkey(PubkeyError::InvalidTweak),
    {
        match container {
            ScriptPubkeyContainer::PublicKey(key) => Self::pk_commitment(key, msg),
            ScriptPubkeyContainer::PubkeyHash(key) => Self::pk_commitment(key, msg),
            ScriptPubkeyContainer::ScriptHash(script) => {
                let digest = hmac_sha256(&script.0, msg);
                Ok(ScriptPubkeyCommitment::LockScript(LockscriptCommitment {
                    original: script,
                    digest,
                }))
            },
            ScriptPubkeyContainer::TapRoot(t) => {
                let key_ser = t.intermediate_key.serialize();
                let mut hmac_key = copy_bytes(&key_ser);
                extend_bytes(&mut hmac_key, &t.script_root);
                let tweak = hmac_sha256(&hmac_key, msg);
                match ec_tweak_add(&key_ser, &tweak) {
                    Some(tweaked) => Ok(ScriptPubkeyCommitment::TapRoot(TaprootCommitment {
                        original_root: t.script_root,
                        original_key: t.intermediate_key,
                        tweaked,
                    })),
                    None => Err(Error::Pubkey(PubkeyError::InvalidTweak)),
                }
            },
            ScriptPubkeyContainer::OpReturn(key) => Self::pk_commitment(key, msg),
            ScriptPubkeyContainer::OtherScript(script) => {
                let digest = hmac_sha256(&script.0, msg);
                Ok(ScriptPubkeyCommitment::LockScript(LockscriptCommitment {
                    original: LockScript(script.0),
                    digest,
                }))
            },
        }
    }

    /// The public-key commitment primitive shared by the three key-based
    /// container kinds.
    fn pk_commitment(key: Pubkey, msg: &Vec<u8>) -> (r: Result<ScriptPubkeyCommitment, Error>)
        ensures
            r is Ok <==> pk_commit(key@, msg@) is Some,
            r is Ok ==> (r->Ok_0 matches ScriptPubkeyCommitment::PublicKey(pc) && pc.original@
                == key@ && Some(pc.tweaked@) == pk_commit(key@, msg@)),
            r is Err ==> r->Err_0 == Error::Pubkey(PubkeyError::InvalidTweak),
    {
        let key_ser = key.serialize();
        let tweak = hmac_sha256(&key_ser, msg);
        match ec_tweak_add(&key_ser, &tweak) {
            Some(tweaked) => Ok(ScriptPubkeyCommitment::PublicKey(PubkeyCommitment {
                original: key,
                tweaked,
            })),
            None => Err(Error::Pubkey(PubkeyError::InvalidTweak)),
        }
    }

    /// Verifies that this commitment embeds `msg`: recomputes the primitive
    /// from the stored original material and compares. Never fails: any
    /// mismatch or internal inconsistency yields `false`.
    pub fn reveal_verify(&self, msg: &Vec<u8>) -> (r: bool)
        ensures
            r == reveals(*self, msg@),
    {
        match self {
            ScriptPubkeyCommitment::PublicKey(pc) => {
                let key_ser = pc.original.serialize();
                let tweak = hmac_sha256(&key_ser, msg);
                match ec_tweak_add(&key_ser, &tweak) {
                    Some(tweaked) => bytes_eq(&tweaked, &pc.tweaked),
                    None => false,
                }
            },
            ScriptPubkeyCommitment::LockScript(lc) => {
                let digest = hmac_sha256(&lc.original.0, msg);
                bytes_eq(&digest, &lc.digest)
            },
            ScriptPubkeyCommitment::TapRoot(tc) => {
                let key_ser = tc.original_key.serialize();
                let mut hmac_key = copy_bytes(&key_ser);
                extend_bytes(&mut hmac_key, &tc.original_root);
                let tweak = hmac_sha256(&hmac_key, msg);
                match ec_tweak_add(&key_ser, &tweak) {
                    Some(tweaked) => bytes_eq(&tweaked, &tc.tweaked),
                    None => false,
                }
            },
        }
    }

    /// Reconstructs the abstract container this commitment was built from.
    /// The reconstruction is lossy: `PublicKey`, `PubkeyHash` and `OpReturn`
    /// containers all come back as `PubkeyHash`, and `OtherScript` comes back
    /// as `ScriptHash`.
    pub fn get_original_container(&self) -> (r: ScriptPubkeyContainer)
        ensures
            reconstructs_to(*self, r),
    {
        match self {
            ScriptPubkeyCommitment::PublicKey(pc) => ScriptPubkeyContainer::PubkeyHash(
                pc.original.duplicate(),
            ),
            ScriptPubkeyCommitment::LockScript(lc) => ScriptPubkeyContainer::ScriptHash(
                LockScript(copy_bytes(&lc.original.0)),
            ),
            ScriptPubkeyCommitment::TapRoot(tc) => ScriptPubkeyContainer::TapRoot(
                TaprootContainer {
                    script_root: copy_bytes(&tc.original_root),
                    intermediate_key: tc.original_key.duplicate(),
                },
            ),
        }
    }
}

/// The script bytes a container synthesizes to, for every kind that has a
/// defined synthesis (every kind but `TapRoot`). The key-based kinds always
/// use the uncompressed encoding of the key.
pub open spec fn synth_spec(c: ScriptPubkeyContainer) -> Seq<u8> {
    match c {
        ScriptPubkeyContainer::PublicKey(k) => p2pk_script(pk_uncompressed(k@)),
        ScriptPubkeyContainer::PubkeyHash(k) => p2wpkh_script(hash160_of(pk_uncompressed(k@))),
        ScriptPubkeyContainer::ScriptHash(s) => p2wsh_script(sha256_of(s@)),
        ScriptPubkeyContainer::TapRoot(_) => Seq::empty(),
        ScriptPubkeyContainer::OpReturn(k) => op_return_script(hash160_of(pk_uncompressed(k@))),
        ScriptPubkeyContainer::OtherScript(s) => s@,
    }
}

/// Builds the literal output script for a container. Fails exactly on
/// `TapRoot`, whose synthesis is not yet defined, with an explicit
/// unsupported-container error; never falls through to a wrong script.
pub fn synthesize(container: &ScriptPubkeyContainer) -> (r: Result<PubkeyScript, Error>)
    ensures
        r is Ok <==> !(container is TapRoot),
        r is Ok ==> r->Ok_0@ == synth_spec(*container),
        r is Err ==> r->Err_0 == Error::UnsupportedContainer,
{
    match container {
        ScriptPubkeyContainer::PublicKey(key) => {
            let uncomp = key.serialize_uncompressed();
            let mut script: Vec<u8> = Vec::new();
            script.push(0x41);
            extend_bytes(&mut script, &uncomp);
            script.push(0xac);
            proof {
                assert(script@ =~= p2pk_script(pk_uncompressed(key@)));
            }
            Ok(PubkeyScript(script))
        },
        ScriptPubkeyContainer::PubkeyHash(key) => {
            let uncomp = key.serialize_uncompressed();
            let keyhash = hash160(&uncomp);
            let mut script: Vec<u8> = Vec::new();
            script.push(0x00);
            script.push(0x14);
            extend_bytes(&mut script, &keyhash);
            proof {
                assert(script@ =~= p2wpkh_script(hash160_of(pk_uncompressed(key@))));
            }
            Ok(PubkeyScript(script))
        },
        ScriptPubkeyContainer::ScriptHash(s) => {
            let scripthash = sha256(&s.0);
            let mut script: Vec<u8> = Vec::new();
            script.push(0x00);
            script.push(0x20);
            extend_bytes(&mut script, &scripthash);
            proof {
                assert(script@ =~= p2wsh_script(sha256_of(s@)));
            }
            Ok(PubkeyScript(script))
        },
        ScriptPubkeyContainer::TapRoot(_) => Err(Error::UnsupportedContainer),
        ScriptPubkeyContainer::OpReturn(key) => {
            let uncomp = key.serialize_uncompressed();
            let keyhash = hash160(&uncomp);
            let mut script: Vec<u8> = Vec::new();
            script.push(0x6a);
            script.push(0x14);
            extend_bytes(&mut script, &keyhash);
            proof {
                assert(script@ =~= op_return_script(hash160_of(pk_uncompressed(key@))));
            }
            Ok(PubkeyScript(script))
        },
        ScriptPubkeyContainer::OtherScript(s) => Ok(PubkeyScript(copy_bytes(&s.0))),
    }
}

/// Law: verification succeeds on the message a commitment was built from.
/// For every container kind except `TapRoot`, a commitment that `commit_to`
/// produced for message `m` reveal-verifies against `m`.
pub proof fn lemma_commit_then_reveal(
    c: ScriptPubkeyContainer,
    r: ScriptPubkeyCommitment,
    m: Seq<u8>,
)
    requires
        !(c is TapRoot),
        commitment_matches(c, r, m),
    ensures
        reveals(r, m),
{
}

/// Law: reconstruction of the original container is lossy and biased. A
/// commitment built from `PubkeyHash(k)` or from `OpReturn(k)` reconstructs
/// to `PubkeyHash(k)` in both cases.
pub proof fn lemma_lossy_reconstruction(
    k: Pubkey,
    c: ScriptPubkeyContainer,
    r: ScriptPubkeyCommitment,
    rec: ScriptPubkeyContainer,
    m: Seq<u8>,
)
    requires
        c == ScriptPubkeyContainer::PubkeyHash(k) || c == ScriptPubkeyContainer::OpReturn(k),
        commitment_matches(c, r, m),
        reconstructs_to(r, rec),
    ensures
        rec matches ScriptPubkeyContainer::PubkeyHash(kr) && kr@ == k@,
{
}

/// Law: the synthesizer always forces the uncompressed key encoding. The
/// scripts for the three key-based container kinds are exactly the scripts
/// built from the explicit uncompressed encoding of the key.
pub proof fn lemma_uncompressed_encoding_forced(k: Pubkey)
    ensures
        synth_spec(ScriptPubkeyContainer::PublicKey(k)) == p2pk_script(pk_uncompressed(k@)),
        synth_spec(ScriptPubkeyContainer::PubkeyHash(k)) == p2wpkh_script(
            hash160_of(pk_uncompressed(k@)),
        ),
        synth_spec(ScriptPubkeyContainer::OpReturn(k)) == op_return_script(
            hash160_of(pk_uncompressed(k@)),
        ),
{
}

/// Law: the payload of a data-carrier script is the witness-pubkey-hash of
/// the uncompressed key encoding, not the raw key bytes: after the OP_RETURN
/// and push opcodes comes exactly `hash160` of the uncompressed encoding.
pub proof fn lemma_op_return_payload(k: Pubkey)
    ensures
        synth_spec(ScriptPubkeyContainer::OpReturn(k)).skip(2) == hash160_of(
            pk_uncompressed(k@),
        ),
        synth_spec(ScriptPubkeyContainer::OpReturn(k)).take(2) == seq![0x6au8, 0x14u8],
{
    assert(synth_spec(ScriptPubkeyContainer::OpReturn(k)).skip(2) =~= hash160_of(
        pk_uncompressed(k@),
    ));
    assert(synth_spec(ScriptPubkeyContainer::OpReturn(k)).take(2) =~= seq![0x6au8, 0x14u8]);
}

} // verus!
