//! The protocol assemblers: the pure halves of the inscription and
//! etching flows.
//!
//! Each flow has two phases. The commit phase encodes the envelope,
//! commits to its reveal script under a fresh ephemeral key, selects a
//! funding output, and builds the unsigned commit transaction; the
//! external collaborator then key-path-signs and broadcasts it. Once the
//! signed commit transaction's id is known (and the required
//! confirmations reached), the reveal phase builds and script-path-signs
//! the reveal transaction spending the commit output.

use vstd::prelude::*;

use crate::builder::{build_commit_transaction, build_reveal_transaction};
use crate::envelope::{InscriptionData, content_type_ok, fields_fit, spec_encode_envelope, EnvModel};
use crate::errors::{UtilsError, WalletError};
use crate::runes::{COMMIT_CONFIRMATIONS, rune_commitment, encipher_etching, spec_le_trimmed,
    runestone_payload};
use crate::script::copy_range;
use crate::selection::{UnspentOutput, first_covering, select_single_utxo,
    lemma_first_covering_covers};
use crate::taproot::{TaprootCommitment, taproot_commitment_wf, create_taproot_info,
    generate_keypair};
use crate::txser::{Transaction, TxOut, SEQUENCE_ENABLE_RBF_NO_LOCKTIME, sum_output_values};

verus! {

/// The ids and total fee of a broadcast commit/reveal pair. The commit
/// transaction is broadcast first; the reveal spends its designated
/// output and must not be broadcast before the commit confirms.
#[derive(Debug, PartialEq, Eq)]
pub struct CommitRevealTxPair {
    pub commit_txid: Vec<u8>,
    pub reveal_txid: Vec<u8>,
    pub total_fees: u64,
}

/// The result of a completed inscription flow.
#[derive(Debug, PartialEq, Eq)]
pub struct InscriptionTransactions {
    pub base: CommitRevealTxPair,
}

/// The result of a completed etching flow.
#[derive(Debug, PartialEq, Eq)]
pub struct EtchingTransactions {
    pub base: CommitRevealTxPair,
    pub rune_id: u128,
}

/// The etching fields carried into the runestone.
#[derive(Clone, Copy, Debug, PartialEq, Eq, Structural)]
pub struct EtchingParams {
    pub rune_value: u128,
    pub divisibility: u8,
    pub premine: u128,
    pub spacers: u32,
    pub symbol: char,
    pub terms_amount: u128,
    pub terms_cap: u128,
    pub turbo: bool,
}

/// Everything the reveal phase needs from a finished commit phase: the
/// single-use key pair, the taproot commitment, the commitment output
/// script, the unsigned commit transaction, and the committed amount.
pub struct CommitPlan {
    pub key_pair: bitcoin::key::Keypair,
    pub commitment: TaprootCommitment,
    pub commit_spk: Vec<u8>,
    pub commit_tx: Transaction,
    pub commit_vout: u32,
    pub postage: u64,
}

/// The commit phase built a plan for this envelope model: the commitment
/// is to the encoded envelope, the unsigned commit transaction spends the
/// first funding output whose amount alone covers `postage + commit_fee`,
/// pays `postage` to the commitment script, and returns the rest to the
/// change script.
pub open spec fn commit_plan_ok(
    plan: CommitPlan,
    env: EnvModel,
    utxos: Seq<UnspentOutput>,
    postage: u64,
    commit_fee: u64,
    change_spk: Seq<u8>,
) -> bool {
    &&& taproot_commitment_wf(plan.commitment, spec_encode_envelope(env))
    &&& plan.commit_spk@.len() == 34
    &&& plan.commit_spk@[0] == 0x51
    &&& plan.commit_spk@[1] == 0x20
    &&& plan.commit_vout == 0
    &&& plan.postage == postage
    &&& first_covering(utxos, postage + commit_fee) is Some
    &&& {
        let u = first_covering(utxos, postage + commit_fee)->Some_0;
        &&& plan.commit_tx.version == 2
        &&& plan.commit_tx.lock_time == 0
        &&& plan.commit_tx.input@.len() == 1
        &&& plan.commit_tx.input@[0].prev_txid@ == u.txid@
        &&& plan.commit_tx.input@[0].prev_vout == u.vout
        &&& plan.commit_tx.input@[0].witness@.len() == 0
        &&& plan.commit_tx.output@.len() == 2
        &&& plan.commit_tx.output@[0].value == postage
        &&& plan.commit_tx.output@[0].script_pubkey@ == plan.commit_spk@
        &&& plan.commit_tx.output@[1].value == u.amount - postage - commit_fee
        &&& plan.commit_tx.output@[1].script_pubkey@ == change_spk
    }
}

/// Shared commit phase: encode the envelope, commit to the reveal script
/// under a fresh single-use key pair, select the first funding output
/// covering `postage + commit_fee` alone, and build the unsigned commit
/// transaction.
fn plan_commit(
    inscription: &InscriptionData,
    utxos: &Vec<UnspentOutput>,
    postage: u64,
    commit_fee: u64,
    change_spk: Vec<u8>,
) -> (r: Result<CommitPlan, WalletError>)
    ensures
        r matches Ok(plan) ==> content_type_ok(inscription@) && fields_fit(inscription@)
            && commit_plan_ok(plan, inscription@, utxos@, postage, commit_fee, change_spk@),
        r == Err::<CommitPlan, WalletError>(WalletError::InvalidContentType) <==> !content_type_ok(
            inscription@,
        ),
        r == Err::<CommitPlan, WalletError>(WalletError::FieldTooLarge) <==> (content_type_ok(
            inscription@,
        ) && !fields_fit(inscription@)),
        r == Err::<CommitPlan, WalletError>(WalletError::InsufficientUTXOs) ==> first_covering(
            utxos@,
            postage + commit_fee,
        ) is None,
        r == Err::<CommitPlan, WalletError>(WalletError::AmountOverflow) ==> postage + commit_fee
            > u64::MAX,
        r is Err ==> (r == Err::<CommitPlan, WalletError>(WalletError::InvalidContentType) || r
            == Err::<CommitPlan, WalletError>(WalletError::FieldTooLarge) || r == Err::<
            CommitPlan,
            WalletError,
        >(WalletError::InsufficientUTXOs) || r == Err::<CommitPlan, WalletError>(
            WalletError::AmountOverflow,
        ) || r == Err::<CommitPlan, WalletError>(WalletError::SigningFailed)),
{
    let reveal_script = match inscription.reveal_script_as_scriptbuf(Vec::new()) {
        Ok(s) => s,
        Err(e) => {
            return Err(e);
        },
    };
    proof {
        assert(Seq::<u8>::empty() + spec_encode_envelope(inscription@) =~= spec_encode_envelope(
            inscription@,
        ));
    }
    let key_pair = generate_keypair();
    let (commitment, commit_spk) = match create_taproot_info(&key_pair, &reveal_script) {
        Ok(p) => p,
        Err(e) => {
            return Err(e);
        },
    };
    let selected = match select_single_utxo(utxos, postage, commit_fee) {
        Ok(sel) => sel,
        Err(UtilsError::AmountOverflow) => {
            return Err(WalletError::AmountOverflow);
        },
        Err(_) => {
            return Err(WalletError::InsufficientUTXOs);
        },
    };
    let funding = selected[0];
    let commit_spk_copy = copy_range(&commit_spk, 0, commit_spk.len());
    proof {
        assert(commit_spk@.subrange(0, commit_spk@.len() as int) =~= commit_spk@);
    }
    let (commit_tx, commit_vout) = match build_commit_transaction(
        &funding,
        postage,
        commit_fee,
        commit_spk_copy,
        change_spk,
    ) {
        Ok(p) => p,
        Err(e) => {
            // The selected output covers postage + fee by construction.
            proof {
                lemma_first_covering_covers(utxos@, postage + commit_fee);
                assert(false);
            }
            return Err(e);
        },
    };
    Ok(
        CommitPlan {
            key_pair,
            commitment,
            commit_spk,
            commit_tx,
            commit_vout,
            postage,
        },
    )
}

/// Inscription flow, commit phase: encode the file envelope and build the
/// unsigned commit transaction funding its reveal. The collaborator then
/// signs and broadcasts the commit transaction and, after the protocol's
/// confirmation depth, hands the commit id to the reveal phase.
pub fn inscribe_ordinal(
    inscription: &InscriptionData,
    utxos: &Vec<UnspentOutput>,
    postage: u64,
    commit_fee: u64,
    change_spk: Vec<u8>,
) -> (r: Result<CommitPlan, WalletError>)
    ensures
        r matches Ok(plan) ==> content_type_ok(inscription@) && fields_fit(inscription@)
            && commit_plan_ok(plan, inscription@, utxos@, postage, commit_fee, change_spk@),
        r == Err::<CommitPlan, WalletError>(WalletError::InvalidContentType) <==> !content_type_ok(
            inscription@,
        ),
        r == Err::<CommitPlan, WalletError>(WalletError::FieldTooLarge) <==> (content_type_ok(
            inscription@,
        ) && !fields_fit(inscription@)),
        r == Err::<CommitPlan, WalletError>(WalletError::InsufficientUTXOs) ==> first_covering(
            utxos@,
            postage + commit_fee,
        ) is None,
{
    plan_commit(inscription, utxos, postage, commit_fee, change_spk)
}

/// Inscription flow, reveal phase: given the broadcast commit
/// transaction's id, build and script-path-sign the reveal transaction
/// with a single change-back output of `postage - reveal_fee` (zero when
/// the fee exceeds the committed amount) to the recipient.
pub fn finalize_inscription_reveal(
    plan: &CommitPlan,
    commit_txid: &Vec<u8>,
    reveal_fee: u64,
    recipient_spk: Vec<u8>,
) -> (r: Result<Transaction, WalletError>)
    requires
        commit_txid@.len() == 32,
    ensures
        r matches Ok(tx) ==> ({
            &&& tx.input@.len() == 1
            &&& tx.input@[0].prev_txid@ == commit_txid@
            &&& tx.input@[0].prev_vout == plan.commit_vout
            &&& tx.input@[0].sequence == SEQUENCE_ENABLE_RBF_NO_LOCKTIME
            &&& tx.input@[0].witness@.len() == 3
            &&& tx.input@[0].witness@[0]@.len() == 64
            &&& tx.input@[0].witness@[1]@ == plan.commitment.leaf_script@
            &&& tx.input@[0].witness@[2]@ == plan.commitment.control_block@
            &&& tx.output@.len() == 1
            &&& tx.output@[0].value == (if plan.postage >= reveal_fee {
                plan.postage - reveal_fee
            } else {
                0
            })
            &&& tx.output@[0].script_pubkey@ == recipient_spk@
        }),
        reveal_fee <= plan.postage ==> (r is Ok || r == Err::<Transaction, WalletError>(
            WalletError::SigningFailed,
        )),
{
    let change_value = if plan.postage >= reveal_fee {
        plan.postage - reveal_fee
    } else {
        0
    };
    let mut reveal_outputs: Vec<TxOut> = Vec::new();
    reveal_outputs.push(TxOut { value: change_value, script_pubkey: recipient_spk });
    proof {
        assert(sum_output_values(reveal_outputs@) == reveal_outputs@[0].value + sum_output_values(
            reveal_outputs@.drop_first(),
        ));
        assert(reveal_outputs@.drop_first() =~= Seq::<TxOut>::empty());
        assert(sum_output_values(Seq::<TxOut>::empty()) == 0);
    }
    build_reveal_transaction(
        &plan.key_pair,
        &plan.commitment,
        &plan.commit_spk,
        commit_txid,
        plan.commit_vout,
        plan.postage,
        reveal_fee,
        SEQUENCE_ENABLE_RBF_NO_LOCKTIME,
        reveal_outputs,
    )
}

/// Etching flow, commit phase: embed the rune name's commitment in the
/// envelope's protocol tag and an empty pointer, then encode and fund as
/// the inscription flow does.
pub fn etch_rune(
    inscription: &InscriptionData,
    params: &EtchingParams,
    utxos: &Vec<UnspentOutput>,
    postage: u64,
    commit_fee: u64,
    change_spk: Vec<u8>,
) -> (r: Result<CommitPlan, WalletError>)
    ensures
        r matches Ok(plan) ==> ({
            let env = EnvModel {
                pointer: Some(Seq::<u8>::empty()),
                rune: Some(spec_le_trimmed(params.rune_value as nat)),
                ..inscription@
            };
            &&& content_type_ok(env)
            &&& fields_fit(env)
            &&& commit_plan_ok(plan, env, utxos@, postage, commit_fee, change_spk@)
        }),
        r == Err::<CommitPlan, WalletError>(WalletError::InsufficientUTXOs) ==> first_covering(
            utxos@,
            postage + commit_fee,
        ) is None,
{
    let mut work = inscription.clone();
    work.pointer = Some(Vec::new());
    work.rune = Some(rune_commitment(params.rune_value));
    proof {
        assert(work@ =~= EnvModel {
            pointer: Some(Seq::<u8>::empty()),
            rune: Some(spec_le_trimmed(params.rune_value as nat)),
            ..inscription@
        });
    }
    plan_commit(&work, utxos, postage, commit_fee, change_spk)
}

/// Etching flow, reveal phase: the reveal outputs are, in order, the
/// payment back to the recipient, an optional premine payout, and a
/// zero-value output carrying the enciphered runestone; the input's
/// sequence encodes the protocol's confirmation delay.
pub fn finalize_etching_reveal(
    plan: &CommitPlan,
    params: &EtchingParams,
    commit_txid: &Vec<u8>,
    reveal_fee: u64,
    premine_tx_amount: u64,
    recipient_spk: Vec<u8>,
) -> (r: Result<Transaction, WalletError>)
    requires
        commit_txid@.len() == 32,
    ensures
        r matches Ok(tx) ==> ({
            let with_premine = params.premine > 0;
            &&& plan.postage >= premine_tx_amount + reveal_fee
            &&& tx.input@.len() == 1
            &&& tx.input@[0].prev_txid@ == commit_txid@
            &&& tx.input@[0].prev_vout == plan.commit_vout
            &&& tx.input@[0].sequence == COMMIT_CONFIRMATIONS - 1
            &&& tx.input@[0].witness@.len() == 3
            &&& tx.input@[0].witness@[0]@.len() == 64
            &&& tx.input@[0].witness@[1]@ == plan.commitment.leaf_script@
            &&& tx.input@[0].witness@[2]@ == plan.commitment.control_block@
            &&& tx.output@.len() == (if with_premine {
                3int
            } else {
                2int
            })
            &&& tx.output@[0].value == plan.postage - premine_tx_amount - reveal_fee
            &&& tx.output@[0].script_pubkey@ == recipient_spk@
            &&& (with_premine ==> tx.output@[1].value == premine_tx_amount
                && tx.output@[1].script_pubkey@ == recipient_spk@)
            &&& tx.output@.last().value == 0
            &&& tx.output@.last().script_pubkey@ == runestone_payload(
                params.divisibility,
                params.premine,
                params.rune_value,
                params.spacers,
                params.symbol,
                params.terms_amount,
                params.terms_cap,
                params.turbo,
                if with_premine {
                    Some(1u32)
                } else {
                    None
                },
            )
        }),
        r == Err::<Transaction, WalletError>(WalletError::AmountUnderflow) <==> plan.postage
            < premine_tx_amount + reveal_fee,
{
    let deducted = match premine_tx_amount.checked_add(reveal_fee) {
        Some(d) => d,
        None => {
            return Err(WalletError::AmountUnderflow);
        },
    };
    if plan.postage < deducted {
        return Err(WalletError::AmountUnderflow);
    }
    let change_value = plan.postage - deducted;
    let with_premine = params.premine > 0;
    let recipient_copy = copy_range(&recipient_spk, 0, recipient_spk.len());
    let mut reveal_outputs: Vec<TxOut> = Vec::new();
    reveal_outputs.push(TxOut { value: change_value, script_pubkey: recipient_spk });
    if with_premine {
        reveal_outputs.push(TxOut { value: premine_tx_amount, script_pubkey: recipient_copy });
    }
    let runestone_script = encipher_etching(
        params.divisibility,
        params.premine,
        params.rune_value,
        params.spacers,
        params.symbol,
        params.terms_amount,
        params.terms_cap,
        params.turbo,
        if with_premine {
            Some(1u32)
        } else {
            None
        },
    );
    reveal_outputs.push(TxOut { value: 0, script_pubkey: runestone_script });
    proof {
        lemma_small_output_sums(reveal_outputs@);
    }
    let r = build_reveal_transaction(
        &plan.key_pair,
        &plan.commitment,
        &plan.commit_spk,
        commit_txid,
        plan.commit_vout,
        plan.postage,
        reveal_fee,
        (COMMIT_CONFIRMATIONS - 1) as u32,
        reveal_outputs,
    );
    match r {
        Ok(tx) => Ok(tx),
        Err(WalletError::InsufficientAmount) => {
            // The outputs sum to postage - reveal_fee, so the amount
            // check cannot fail here.
            proof {
                assert(false);
            }
            Err(WalletError::SigningFailed)
        },
        Err(e) => Err(e),
    }
}

proof fn lemma_small_output_sums(os: Seq<TxOut>)
    requires
        2 <= os.len() <= 3,
    ensures
        os.len() == 2 ==> sum_output_values(os) == os[0].value + os[1].value,
        os.len() == 3 ==> sum_output_values(os) == os[0].value + os[1].value + os[2].value,
{
    assert(os.drop_first()[0] == os[1]);
    assert(sum_output_values(os) == os[0].value + sum_output_values(os.drop_first()));
    assert(sum_output_values(os.drop_first()) == os[1].value + sum_output_values(
        os.drop_first().drop_first(),
    ));
    assert(sum_output_values(Seq::<TxOut>::empty()) == 0);
    if os.len() == 3 {
        assert(os.drop_first().drop_first()[0] == os[2]);
        assert(sum_output_values(os.drop_first().drop_first()) == os[2].value
            + sum_output_values(os.drop_first().drop_first().drop_first()));
        assert(os.drop_first().drop_first().drop_first() =~= Seq::<TxOut>::empty());
    } else {
        assert(os.drop_first().drop_first() =~= Seq::<TxOut>::empty());
    }
}

} // verus!
