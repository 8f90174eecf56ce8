use satoshi_suite::txser::{
    serialize_transaction, total_output_value, Transaction, TxIn, TxOut,
    SEQUENCE_ENABLE_RBF_NO_LOCKTIME,
};

use bitcoin::consensus::serialize as consensus_serialize;

fn model_tx(witness: Vec<Vec<u8>>) -> Transaction {
    Transaction {
        version: 2,
        lock_time: 0,
        input: vec![TxIn {
            prev_txid: vec![0xab; 32],
            prev_vout: 1,
            script_sig: vec![],
            sequence: SEQUENCE_ENABLE_RBF_NO_LOCKTIME,
            witness,
        }],
        output: vec![
            TxOut { value: 10_000, script_pubkey: vec![0x51, 0x20, 0x07] },
            TxOut { value: 2_345, script_pubkey: vec![0x00, 0x14] },
        ],
    }
}

fn bitcoin_tx(witness: Vec<Vec<u8>>) -> bitcoin::Transaction {
    let txid = <bitcoin::Txid as bitcoin::hashes::Hash>::from_byte_array([0xab; 32]);
    let mut w = bitcoin::Witness::new();
    for item in &witness {
        w.push(item);
    }
    bitcoin::Transaction {
        version: bitcoin::transaction::Version::TWO,
        lock_time: bitcoin::absolute::LockTime::ZERO,
        input: vec![bitcoin::TxIn {
            previous_output: bitcoin::OutPoint { txid, vout: 1 },
            script_sig: bitcoin::ScriptBuf::new(),
            sequence: bitcoin::Sequence(SEQUENCE_ENABLE_RBF_NO_LOCKTIME),
            witness: w,
        }],
        output: vec![
            bitcoin::TxOut {
                value: bitcoin::Amount::from_sat(10_000),
                script_pubkey: bitcoin::ScriptBuf::from_bytes(vec![0x51, 0x20, 0x07]),
            },
            bitcoin::TxOut {
                value: bitcoin::Amount::from_sat(2_345),
                script_pubkey: bitcoin::ScriptBuf::from_bytes(vec![0x00, 0x14]),
            },
        ],
    }
}

#[test]
fn legacy_serialization_matches_consensus_encoding() {
    let ours = serialize_transaction(&model_tx(vec![]));
    let theirs = consensus_serialize(&bitcoin_tx(vec![]));
    assert_eq!(ours, theirs);
}

#[test]
fn witness_serialization_matches_consensus_encoding() {
    let witness = vec![vec![0x01; 64], vec![0x02; 40], vec![]];
    let ours = serialize_transaction(&model_tx(witness.clone()));
    let theirs = consensus_serialize(&bitcoin_tx(witness));
    assert_eq!(ours, theirs);
}

#[test]
fn serialized_transaction_round_trips_through_consensus_decoding() {
    let witness = vec![vec![0x42; 64], vec![0x05, 0x06], vec![0xc0]];
    let ours = serialize_transaction(&model_tx(witness));
    let decoded: bitcoin::Transaction = bitcoin::consensus::deserialize(&ours).unwrap();
    assert_eq!(decoded.input.len(), 1);
    assert_eq!(decoded.output.len(), 2);
    assert_eq!(decoded.output[0].value.to_sat(), 10_000);
    assert_eq!(decoded.input[0].witness.len(), 3);
}

#[test]
fn output_totals_are_checked() {
    let outs = vec![
        TxOut { value: 7, script_pubkey: vec![] },
        TxOut { value: 35, script_pubkey: vec![] },
    ];
    assert_eq!(total_output_value(&outs), Some(42));
    let outs = vec![
        TxOut { value: u64::MAX, script_pubkey: vec![] },
        TxOut { value: 1, script_pubkey: vec![] },
    ];
    assert_eq!(total_output_value(&outs), None);
}
