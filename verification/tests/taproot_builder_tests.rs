use satoshi_suite::builder::{build_commit_transaction, build_reveal_transaction};
use satoshi_suite::envelope::InscriptionData;
use satoshi_suite::selection::UnspentOutput;
use satoshi_suite::taproot::create_taproot_info;
use satoshi_suite::txser::{serialize_transaction, TxOut, SEQUENCE_ENABLE_RBF_NO_LOCKTIME};
use satoshi_suite::WalletError;

use bitcoin::key::{Keypair, XOnlyPublicKey};
use bitcoin::secp256k1::Secp256k1;
use bitcoin::taproot::{ControlBlock, LeafVersion, TapLeafHash};

fn test_keypair() -> Keypair {
    let secp = Secp256k1::new();
    Keypair::from_seckey_slice(&secp, &[0x17; 32]).unwrap()
}

fn reveal_script() -> Vec<u8> {
    let mut env = InscriptionData::default();
    env.content_type = Some(b"text/plain".to_vec());
    env.body = Some(b"taproot test payload".to_vec());
    env.reveal_script_as_scriptbuf(Vec::new()).unwrap()
}

#[test]
fn taproot_commitment_structure_matches_the_bitcoin_library() {
    let secp = Secp256k1::new();
    let kp = test_keypair();
    let script = reveal_script();
    let (commitment, commit_spk) = create_taproot_info(&kp, &script).unwrap();

    let (xonly, _) = XOnlyPublicKey::from_keypair(&kp);
    assert_eq!(commitment.internal_key, xonly.serialize().to_vec());
    assert_eq!(commitment.leaf_script, script);

    // The merkle root of a single-leaf tree is the leaf hash.
    let leaf = TapLeafHash::from_script(
        bitcoin::Script::from_bytes(&script),
        LeafVersion::TapScript,
    );
    assert_eq!(commitment.merkle_root, bitcoin::hashes::Hash::to_byte_array(leaf).to_vec());

    // The commitment script is the p2tr script the library derives.
    let expected_spk = bitcoin::ScriptBuf::new_p2tr(
        &secp,
        xonly,
        Some(bitcoin::taproot::TapNodeHash::from(leaf)),
    );
    assert_eq!(commit_spk, expected_spk.into_bytes());
}

#[test]
fn control_block_validates_against_the_committed_root() {
    let secp = Secp256k1::new();
    let kp = test_keypair();
    let script = reveal_script();
    let (commitment, commit_spk) = create_taproot_info(&kp, &script).unwrap();

    let control = ControlBlock::decode(&commitment.control_block).unwrap();
    let output_key = XOnlyPublicKey::from_slice(&commit_spk[2..34]).unwrap();
    assert!(control.verify_taproot_commitment(
        &secp,
        output_key,
        bitcoin::Script::from_bytes(&script),
    ));
}

fn funding_utxo(amount: u64) -> UnspentOutput {
    UnspentOutput { txid: [0xcd; 32], vout: 3, amount, confirmations: 6 }
}

#[test]
fn commit_transaction_pays_postage_and_change() {
    let (tx, vout) = build_commit_transaction(
        &funding_utxo(100_000),
        10_000,
        500,
        vec![0x51, 0x20, 0x01],
        vec![0x00, 0x14, 0x02],
    )
    .unwrap();
    assert_eq!(vout, 0);
    assert_eq!(tx.input.len(), 1);
    assert_eq!(tx.input[0].prev_txid, vec![0xcd; 32]);
    assert_eq!(tx.input[0].prev_vout, 3);
    assert_eq!(tx.output.len(), 2);
    assert_eq!(tx.output[0].value, 10_000);
    assert_eq!(tx.output[0].script_pubkey, vec![0x51, 0x20, 0x01]);
    assert_eq!(tx.output[1].value, 89_500);
    assert_eq!(tx.output[1].script_pubkey, vec![0x00, 0x14, 0x02]);
}

#[test]
fn commit_fails_when_funding_is_short() {
    // amount + fee exceeds the funding output: never a wrapped value.
    let r = build_commit_transaction(
        &funding_utxo(10_000),
        10_000,
        1,
        vec![0x51],
        vec![0x00],
    );
    assert_eq!(r.err(), Some(WalletError::InsufficientFunds));
    let r = build_commit_transaction(
        &funding_utxo(10_000),
        u64::MAX,
        1,
        vec![0x51],
        vec![0x00],
    );
    assert_eq!(r.err(), Some(WalletError::InsufficientFunds));
    // Exactly equal is fine and leaves zero change.
    let (tx, _) = build_commit_transaction(
        &funding_utxo(10_000),
        9_999,
        1,
        vec![0x51],
        vec![0x00],
    )
    .unwrap();
    assert_eq!(tx.output[1].value, 0);
}

#[test]
fn reveal_witness_has_signature_script_and_control_block_in_order() {
    let kp = test_keypair();
    let script = reveal_script();
    let (commitment, commit_spk) = create_taproot_info(&kp, &script).unwrap();
    let tx = build_reveal_transaction(
        &kp,
        &commitment,
        &commit_spk,
        &vec![0x11; 32],
        0,
        10_000,
        500,
        SEQUENCE_ENABLE_RBF_NO_LOCKTIME,
        vec![TxOut { value: 9_500, script_pubkey: vec![0x00, 0x14, 0x09] }],
    )
    .unwrap();
    let witness = &tx.input[0].witness;
    assert_eq!(witness.len(), 3);
    assert_eq!(witness[0].len(), 64);
    assert_eq!(witness[1], script);
    assert_eq!(witness[2], commitment.control_block);
    assert_eq!(tx.output.len(), 1);
    assert_eq!(tx.output[0].value, 9_500);
}

#[test]
fn reveal_signature_verifies_against_the_internal_key() {
    let secp = Secp256k1::new();
    let kp = test_keypair();
    let script = reveal_script();
    let (commitment, commit_spk) = create_taproot_info(&kp, &script).unwrap();
    let tx = build_reveal_transaction(
        &kp,
        &commitment,
        &commit_spk,
        &vec![0x77; 32],
        0,
        10_000,
        400,
        SEQUENCE_ENABLE_RBF_NO_LOCKTIME,
        vec![TxOut { value: 9_600, script_pubkey: vec![0x00, 0x14, 0x09] }],
    )
    .unwrap();

    // Recompute the script-path sighash with the bitcoin library and
    // check the witness signature against the untweaked internal key.
    let decoded: bitcoin::Transaction =
        bitcoin::consensus::deserialize(&serialize_transaction(&tx)).unwrap();
    let prevout = bitcoin::TxOut {
        value: bitcoin::Amount::from_sat(10_000),
        script_pubkey: bitcoin::ScriptBuf::from_bytes(commit_spk.clone()),
    };
    let mut cache = bitcoin::sighash::SighashCache::new(&decoded);
    let leaf = TapLeafHash::from_script(
        bitcoin::Script::from_bytes(&script),
        LeafVersion::TapScript,
    );
    let sighash = cache
        .taproot_script_spend_signature_hash(
            0,
            &bitcoin::sighash::Prevouts::All(&[prevout]),
            leaf,
            bitcoin::TapSighashType::Default,
        )
        .unwrap();
    let msg = bitcoin::secp256k1::Message::from_digest_slice(sighash.as_ref()).unwrap();
    let sig =
        bitcoin::secp256k1::schnorr::Signature::from_slice(&tx.input[0].witness[0]).unwrap();
    let (xonly, _) = XOnlyPublicKey::from_keypair(&kp);
    assert!(secp.verify_schnorr(&sig, &msg, &xonly).is_ok());
}

#[test]
fn reveal_fails_when_outputs_exceed_the_committed_amount() {
    let kp = test_keypair();
    let script = reveal_script();
    let (commitment, commit_spk) = create_taproot_info(&kp, &script).unwrap();
    let r = build_reveal_transaction(
        &kp,
        &commitment,
        &commit_spk,
        &vec![0x11; 32],
        0,
        10_000,
        501,
        SEQUENCE_ENABLE_RBF_NO_LOCKTIME,
        vec![TxOut { value: 9_500, script_pubkey: vec![0x00] }],
    );
    assert_eq!(r.err(), Some(WalletError::InsufficientAmount));
}
