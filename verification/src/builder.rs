//! The transaction builder for the commit/reveal pattern: a commit
//! transaction paying into the taproot commitment, and a reveal
//! transaction spending it via the script path.

use vstd::prelude::*;

use crate::errors::WalletError;
use crate::script::copy_range;
use crate::selection::UnspentOutput;
use crate::taproot::{
    TaprootCommitment, taproot_commitment_wf, tap_sighash, compute_taproot_sighash, schnorr_sign,
};
use crate::txser::{
    Transaction, TxIn, TxOut, SEQUENCE_ENABLE_RBF_NO_LOCKTIME, serialize_transaction, spec_ser_tx,
    sum_output_values, total_output_value,
};

verus! {

/// A transaction id (or any 32-byte hash) as a byte vector.
pub fn txid_to_vec(txid: &[u8; 32]) -> (r: Vec<u8>)
    ensures
        r@ == txid@,
{
    let mut out: Vec<u8> = Vec::new();
    let mut k: usize = 0;
    while k < 32
        invariant
            k <= 32,
            out@ == txid@.take(k as int),
        decreases 32 - k,
    {
        out.push(txid[k]);
        proof {
            assert(out@ =~= txid@.take(k + 1 as int));
        }
        k += 1;
    }
    proof {
        assert(txid@.take(32) =~= txid@);
    }
    out
}

/// Build the unsigned commit transaction: exactly one input spending the
/// selected funding output, a first output paying `postage` to the
/// commitment script, and a change output returning the rest. Fails with
/// `InsufficientFunds` exactly when `postage + fee_amount` exceeds the
/// funding output's amount; no output value is ever computed by wrapping.
/// Key-path signing of the funding input is delegated to the external
/// wallet collaborator. The returned index is the commitment output's
/// position.
pub fn build_commit_transaction(
    utxo: &UnspentOutput,
    postage: u64,
    fee_amount: u64,
    commit_script: Vec<u8>,
    change_script: Vec<u8>,
) -> (r: Result<(Transaction, u32), WalletError>)
    ensures
        r matches Ok(p) ==> ({
            &&& postage + fee_amount <= utxo.amount
            &&& p.1 == 0
            &&& p.0.version == 2
            &&& p.0.lock_time == 0
            &&& p.0.input@.len() == 1
            &&& p.0.input@[0].prev_txid@ == utxo.txid@
            &&& p.0.input@[0].prev_vout == utxo.vout
            &&& p.0.input@[0].script_sig@.len() == 0
            &&& p.0.input@[0].sequence == SEQUENCE_ENABLE_RBF_NO_LOCKTIME
            &&& p.0.input@[0].witness@.len() == 0
            &&& p.0.output@.len() == 2
            &&& p.0.output@[0].value == postage
            &&& p.0.output@[0].script_pubkey@ == commit_script@
            &&& p.0.output@[1].value == utxo.amount - postage - fee_amount
            &&& p.0.output@[1].script_pubkey@ == change_script@
        }),
        r is Ok <==> postage + fee_amount <= utxo.amount,
        r is Err ==> r == Err::<(Transaction, u32), WalletError>(WalletError::InsufficientFunds),
{
    let total_needed = match postage.checked_add(fee_amount) {
        Some(n) => n,
        None => {
            return Err(WalletError::InsufficientFunds);
        },
    };
    if total_needed > utxo.amount {
        return Err(WalletError::InsufficientFunds);
    }
    let change_amount = utxo.amount - total_needed;
    let input = TxIn {
        prev_txid: txid_to_vec(&utxo.txid),
        prev_vout: utxo.vout,
        script_sig: Vec::new(),
        sequence: SEQUENCE_ENABLE_RBF_NO_LOCKTIME,
        witness: Vec::new(),
    };
    let mut inputs: Vec<TxIn> = Vec::new();
    inputs.push(input);
    let mut outputs: Vec<TxOut> = Vec::new();
    outputs.push(TxOut { value: postage, script_pubkey: commit_script });
    outputs.push(TxOut { value: change_amount, script_pubkey: change_script });
    let tx = Transaction { version: 2, lock_time: 0, input: inputs, output: outputs };
    Ok((tx, 0))
}

/// Build and sign the reveal transaction: one input spending the commit
/// output via the script path, the caller-supplied outputs, and a witness
/// of exactly [signature, leaf script, control block] in that order. The
/// signature hash is the default-type script-path sighash over the single
/// previous output, signed with the untweaked ephemeral key. Fails with
/// `InsufficientAmount` exactly when the outputs' total plus the fee
/// exceeds the committed amount, and otherwise only on a fatal
/// cryptographic library error.
pub fn build_reveal_transaction(
    key_pair: &bitcoin::key::Keypair,
    commitment: &TaprootCommitment,
    commit_spk: &Vec<u8>,
    commit_txid: &Vec<u8>,
    commit_vout: u32,
    postage: u64,
    fee_amount: u64,
    sequence: u32,
    reveal_outputs: Vec<TxOut>,
) -> (r: Result<Transaction, WalletError>)
    requires
        commit_txid@.len() == 32,
    ensures
        r matches Ok(tx) ==> ({
            &&& sum_output_values(reveal_outputs@) + fee_amount <= postage
            &&& tx.version == 2
            &&& tx.lock_time == 0
            &&& tx.input@.len() == 1
            &&& tx.input@[0].prev_txid@ == commit_txid@
            &&& tx.input@[0].prev_vout == commit_vout
            &&& tx.input@[0].script_sig@.len() == 0
            &&& tx.input@[0].sequence == sequence
            &&& tx.input@[0].witness@.len() == 3
            &&& tx.input@[0].witness@[0]@.len() == 64
            &&& tx.input@[0].witness@[1]@ == commitment.leaf_script@
            &&& tx.input@[0].witness@[2]@ == commitment.control_block@
            &&& tx.output@ == reveal_outputs@
        }),
        r == Err::<Transaction, WalletError>(WalletError::InsufficientAmount) <==> sum_output_values(
            reveal_outputs@,
        ) + fee_amount > postage,
        r is Err ==> (r == Err::<Transaction, WalletError>(WalletError::InsufficientAmount) || r
            == Err::<Transaction, WalletError>(WalletError::SigningFailed)),
{
    let ghost outs = reveal_outputs@;
    let total = match total_output_value(&reveal_outputs) {
        Some(t) => t,
        None => {
            return Err(WalletError::InsufficientAmount);
        },
    };
    let needed = match total.checked_add(fee_amount) {
        Some(n) => n,
        None => {
            return Err(WalletError::InsufficientAmount);
        },
    };
    if needed > postage {
        return Err(WalletError::InsufficientAmount);
    }
    // The unsigned transaction, serialized for the sighash computation.
    let unsigned_input = TxIn {
        prev_txid: copy_range(commit_txid, 0, commit_txid.len()),
        prev_vout: commit_vout,
        script_sig: Vec::new(),
        sequence,
        witness: Vec::new(),
    };
    let mut unsigned_inputs: Vec<TxIn> = Vec::new();
    unsigned_inputs.push(unsigned_input);
    let unsigned_tx = Transaction {
        version: 2,
        lock_time: 0,
        input: unsigned_inputs,
        output: reveal_outputs,
    };
    let tx_bytes = serialize_transaction(&unsigned_tx);
    let sighash = match compute_taproot_sighash(
        &tx_bytes,
        postage,
        commit_spk,
        &commitment.leaf_script,
    ) {
        Ok(h) => h,
        Err(_) => {
            return Err(WalletError::SigningFailed);
        },
    };
    let signature = match schnorr_sign(key_pair, &sighash) {
        Ok(s) => s,
        Err(_) => {
            return Err(WalletError::SigningFailed);
        },
    };
    // Witness: [signature, leaf script, control block], exactly in that
    // order, or downstream signature verification fails.
    let mut witness: Vec<Vec<u8>> = Vec::new();
    witness.push(signature);
    witness.push(copy_range(&commitment.leaf_script, 0, commitment.leaf_script.len()));
    witness.push(copy_range(&commitment.control_block, 0, commitment.control_block.len()));
    let Transaction { output: outputs_back, .. } = unsigned_tx;
    let signed_input = TxIn {
        prev_txid: copy_range(commit_txid, 0, commit_txid.len()),
        prev_vout: commit_vout,
        script_sig: Vec::new(),
        sequence,
        witness,
    };
    let mut signed_inputs: Vec<TxIn> = Vec::new();
    signed_inputs.push(signed_input);
    let tx = Transaction { version: 2, lock_time: 0, input: signed_inputs, output: outputs_back };
    proof {
        assert(tx.output@ == outs);
        assert(commit_txid@.subrange(0, 32) =~= commit_txid@);
        assert(commitment.leaf_script@.subrange(0, commitment.leaf_script@.len() as int)
            =~= commitment.leaf_script@);
        assert(commitment.control_block@.subrange(0, commitment.control_block@.len() as int)
            =~= commitment.control_block@);
    }
    Ok(tx)
}

} // verus!
