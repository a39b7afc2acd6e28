use bitcoin::hashes::Hash as _;
use bitcoin::secp256k1::{PublicKey, Secp256k1, SecretKey};
use lnpbp::dbc::{
    synthesize, Error, ScriptPubkeyCommitment, ScriptPubkeyContainer, TaprootContainer,
};
use lnpbp::keys::Pubkey;
use lnpbp::scripts::{LockScript, PubkeyScript};

fn test_key(seed: u8) -> (Pubkey, Vec<u8>, Vec<u8>) {
    let sk = SecretKey::from_slice(&[seed; 32]).expect("valid secret key");
    let pk = PublicKey::from_secret_key(&Secp256k1::new(), &sk);
    let compressed = pk.serialize().to_vec();
    let uncompressed = pk.serialize_uncompressed().to_vec();
    let key = Pubkey::new(compressed.clone()).expect("valid public key");
    (key, compressed, uncompressed)
}

#[test]
fn pubkey_new_rejects_invalid_bytes() {
    assert!(Pubkey::new(vec![0u8; 33]).is_none());
    assert!(Pubkey::new(vec![2u8; 10]).is_none());
    let (_, compressed, _) = test_key(1);
    assert!(Pubkey::new(compressed).is_some());
}

#[test]
fn commit_then_reveal_all_supported_variants() {
    let msg = b"attack at dawn".to_vec();
    let (k1, _, _) = test_key(1);
    let (k2, _, _) = test_key(2);
    let (k3, _, _) = test_key(3);
    let containers = vec![
        ScriptPubkeyContainer::PublicKey(k1),
        ScriptPubkeyContainer::PubkeyHash(k2),
        ScriptPubkeyContainer::OpReturn(k3),
        ScriptPubkeyContainer::ScriptHash(LockScript(vec![0x51, 0x52, 0x93])),
        ScriptPubkeyContainer::OtherScript(PubkeyScript(vec![0x00, 0x14, 7, 7, 7])),
    ];
    for container in containers {
        let commitment = ScriptPubkeyCommitment::commit_to(container, &msg).expect("commit");
        assert!(commitment.reveal_verify(&msg));
    }
}

#[test]
fn commit_then_reveal_taproot() {
    let msg = b"taproot commitment".to_vec();
    let (k, _, _) = test_key(4);
    let container = ScriptPubkeyContainer::TapRoot(TaprootContainer {
        script_root: vec![0xab; 32],
        intermediate_key: k,
    });
    let commitment = ScriptPubkeyCommitment::commit_to(container, &msg).expect("commit");
    assert!(commitment.reveal_verify(&msg));
}

#[test]
fn reveal_rejects_other_message() {
    let m1 = b"message one".to_vec();
    let m2 = b"message two".to_vec();
    let (k, _, _) = test_key(5);
    let commitment =
        ScriptPubkeyCommitment::commit_to(ScriptPubkeyContainer::PublicKey(k), &m1)
            .expect("commit");
    assert!(commitment.reveal_verify(&m1));
    assert!(!commitment.reveal_verify(&m2));

    let script_commitment = ScriptPubkeyCommitment::commit_to(
        ScriptPubkeyContainer::ScriptHash(LockScript(vec![0x51])),
        &m1,
    )
    .expect("commit");
    assert!(!script_commitment.reveal_verify(&m2));
}

#[test]
fn commitment_tweaks_the_key() {
    let msg = b"tweak me".to_vec();
    let (k, compressed, _) = test_key(6);
    let commitment =
        ScriptPubkeyCommitment::commit_to(ScriptPubkeyContainer::PublicKey(k), &msg)
            .expect("commit");
    match commitment {
        ScriptPubkeyCommitment::PublicKey(pc) => {
            assert_eq!(pc.original.serialize(), compressed);
            assert_ne!(pc.tweaked, compressed);
            assert_eq!(pc.tweaked.len(), 33);
        }
        _ => panic!("wrong commitment kind"),
    }
}

#[test]
fn synthesize_forces_uncompressed_key() {
    let (k1, compressed, uncompressed) = test_key(7);
    let script = synthesize(&ScriptPubkeyContainer::PublicKey(k1)).expect("p2pk");
    let mut expected = vec![0x41];
    expected.extend_from_slice(&uncompressed);
    expected.push(0xac);
    assert_eq!(script.0, expected);
    assert!(!script.0.windows(compressed.len()).any(|w| w == &compressed[..]));

    let (k2, _, _) = test_key(7);
    let wpkh = bitcoin::hashes::hash160::Hash::hash(&uncompressed);
    let script = synthesize(&ScriptPubkeyContainer::PubkeyHash(k2)).expect("p2wpkh");
    let mut expected = vec![0x00, 0x14];
    expected.extend_from_slice(wpkh.as_byte_array());
    assert_eq!(script.0, expected);
}

#[test]
fn synthesize_script_hash() {
    let lock = vec![0x51, 0x21, 0x07];
    let script =
        synthesize(&ScriptPubkeyContainer::ScriptHash(LockScript(lock.clone()))).expect("p2wsh");
    let digest = bitcoin::hashes::sha256::Hash::hash(&lock);
    let mut expected = vec![0x00, 0x20];
    expected.extend_from_slice(digest.as_byte_array());
    assert_eq!(script.0, expected);
}

#[test]
fn synthesize_other_script_verbatim() {
    let raw = vec![0x6a, 0x01, 0xff];
    let script =
        synthesize(&ScriptPubkeyContainer::OtherScript(PubkeyScript(raw.clone()))).expect("other");
    assert_eq!(script.0, raw);
}

#[test]
fn op_return_payload_is_key_hash_not_key() {
    let (k, compressed, uncompressed) = test_key(8);
    let script = synthesize(&ScriptPubkeyContainer::OpReturn(k)).expect("op_return");
    let wpkh = bitcoin::hashes::hash160::Hash::hash(&uncompressed);
    assert_eq!(script.0.len(), 22);
    assert_eq!(&script.0[..2], &[0x6a, 0x14]);
    assert_eq!(&script.0[2..], wpkh.as_byte_array());
    assert_ne!(&script.0[2..], &compressed[..20]);
    assert_ne!(&script.0[2..], &uncompressed[..20]);
}

#[test]
fn synthesize_taproot_is_unsupported() {
    let (k, _, _) = test_key(9);
    let container = ScriptPubkeyContainer::TapRoot(TaprootContainer {
        script_root: vec![0u8; 32],
        intermediate_key: k,
    });
    assert_eq!(synthesize(&container), Err(Error::UnsupportedContainer));
}

#[test]
fn reconstruction_is_lossy_and_biased() {
    let msg = b"reconstruct".to_vec();
    let (k1, compressed, _) = test_key(10);
    let (k2, _, _) = test_key(10);
    let from_hash =
        ScriptPubkeyCommitment::commit_to(ScriptPubkeyContainer::PubkeyHash(k1), &msg)
            .expect("commit");
    let from_op_return =
        ScriptPubkeyCommitment::commit_to(ScriptPubkeyContainer::OpReturn(k2), &msg)
            .expect("commit");
    for commitment in [from_hash, from_op_return] {
        match commitment.get_original_container() {
            ScriptPubkeyContainer::PubkeyHash(k) => assert_eq!(k.serialize(), compressed),
            _ => panic!("reconstruction must be PubkeyHash"),
        }
    }
}

#[test]
fn reconstruction_of_script_commitments() {
    let msg = b"reconstruct scripts".to_vec();
    let lock = vec![0x51, 0x52];
    let from_other = ScriptPubkeyCommitment::commit_to(
        ScriptPubkeyContainer::OtherScript(PubkeyScript(lock.clone())),
        &msg,
    )
    .expect("commit");
    match from_other.get_original_container() {
        ScriptPubkeyContainer::ScriptHash(s) => assert_eq!(s.0, lock),
        _ => panic!("reconstruction must be ScriptHash"),
    }
}
