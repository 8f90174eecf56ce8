use satoshi_suite::envelope::InscriptionData;
use satoshi_suite::flows::{
    etch_rune, finalize_etching_reveal, finalize_inscription_reveal, inscribe_ordinal,
    CommitRevealTxPair, EtchingParams, InscriptionTransactions, EtchingTransactions,
};
use satoshi_suite::runes::{rune_commitment, COMMIT_CONFIRMATIONS};
use satoshi_suite::selection::UnspentOutput;
use satoshi_suite::WalletError;

fn utxo(tag: u8, amount: u64) -> UnspentOutput {
    UnspentOutput { txid: [tag; 32], vout: 0, amount, confirmations: 6 }
}

fn inscription() -> InscriptionData {
    let mut env = InscriptionData::default();
    env.content_type = Some(b"text/plain".to_vec());
    env.body = Some(b"an inscribed file".to_vec());
    env
}

fn etching_params() -> EtchingParams {
    EtchingParams {
        rune_value: 0x1234_5678_9abc_def0,
        divisibility: 2,
        premine: 100_000,
        spacers: 0,
        symbol: '$',
        terms_amount: 10_000,
        terms_cap: 90,
        turbo: true,
    }
}

#[test]
fn inscription_flow_builds_commit_then_reveal() {
    let utxos = vec![utxo(1, 5_000), utxo(2, 50_000)];
    let plan = inscribe_ordinal(&inscription(), &utxos, 10_000, 2_000, vec![0x00, 0x14]).unwrap();
    // The first output able to fund postage + fee alone is the second.
    assert_eq!(plan.commit_tx.input[0].prev_txid, vec![2u8; 32]);
    assert_eq!(plan.commit_tx.output[0].value, 10_000);
    assert_eq!(plan.commit_tx.output[0].script_pubkey, plan.commit_spk);
    assert_eq!(plan.commit_tx.output[1].value, 38_000);
    assert_eq!(plan.commit_vout, 0);

    let reveal = finalize_inscription_reveal(&plan, &vec![0x99; 32], 1_500, vec![0x51, 0x02])
        .unwrap();
    assert_eq!(reveal.input[0].prev_txid, vec![0x99; 32]);
    assert_eq!(reveal.input[0].witness.len(), 3);
    assert_eq!(reveal.input[0].witness[1], plan.commitment.leaf_script);
    assert_eq!(reveal.output.len(), 1);
    assert_eq!(reveal.output[0].value, 8_500);
}

#[test]
fn inscription_flow_rejects_bad_content_type() {
    let mut env = inscription();
    env.content_type = Some(b"noslash".to_vec());
    let utxos = vec![utxo(1, 50_000)];
    let r = inscribe_ordinal(&env, &utxos, 10_000, 2_000, vec![0x00]);
    assert_eq!(r.err(), Some(WalletError::InvalidContentType));
}

#[test]
fn inscription_flow_needs_a_single_covering_output() {
    // No single output covers postage + fee, even though the total does.
    let utxos = vec![utxo(1, 7_000), utxo(2, 7_000)];
    let r = inscribe_ordinal(&inscription(), &utxos, 10_000, 2_000, vec![0x00]);
    assert_eq!(r.err(), Some(WalletError::InsufficientUTXOs));
}

#[test]
fn etching_flow_embeds_the_rune_commitment() {
    let params = etching_params();
    let utxos = vec![utxo(5, 100_000)];
    let plan = etch_rune(&inscription(), &params, &utxos, 20_000, 2_000, vec![0x00]).unwrap();

    // The committed reveal script decodes back to an envelope carrying
    // the rune commitment and an empty pointer.
    let env = satoshi_suite::envelope::decode_reveal_script(&plan.commitment.leaf_script)
        .unwrap();
    assert_eq!(env.rune.as_deref(), Some(&rune_commitment(params.rune_value)[..]));
    assert_eq!(env.pointer.as_deref(), Some(&[][..]));
    assert_eq!(env.body, inscription().body);
}

#[test]
fn rune_commitment_matches_the_ordinals_crate() {
    for v in [0u128, 1, 255, 256, 0xdead_beef, u128::MAX, 0x1234_5678_9abc_def0] {
        assert_eq!(rune_commitment(v), ordinals::Rune(v).commitment());
    }
}

#[test]
fn etching_reveal_carries_premine_and_runestone_outputs() {
    let params = etching_params();
    let utxos = vec![utxo(5, 100_000)];
    let plan = etch_rune(&inscription(), &params, &utxos, 20_000, 2_000, vec![0x00]).unwrap();
    let reveal = finalize_etching_reveal(
        &plan,
        &params,
        &vec![0x42; 32],
        1_000,
        5_000,
        vec![0x51, 0x09],
    )
    .unwrap();
    assert_eq!(reveal.input[0].sequence, (COMMIT_CONFIRMATIONS - 1) as u32);
    assert_eq!(reveal.output.len(), 3);
    assert_eq!(reveal.output[0].value, 14_000);
    assert_eq!(reveal.output[0].script_pubkey, vec![0x51, 0x09]);
    assert_eq!(reveal.output[1].value, 5_000);
    assert_eq!(reveal.output[2].value, 0);

    // The zero-value output carries exactly the runestone the ordinals
    // crate enciphers for this etching.
    let etching = ordinals::Etching {
        divisibility: Some(params.divisibility),
        premine: Some(params.premine),
        rune: Some(ordinals::Rune(params.rune_value)),
        spacers: Some(params.spacers),
        symbol: Some(params.symbol),
        terms: Some(ordinals::Terms {
            amount: Some(params.terms_amount),
            cap: Some(params.terms_cap),
            height: (None, None),
            offset: (None, None),
        }),
        turbo: params.turbo,
    };
    let runestone = ordinals::Runestone {
        edicts: Vec::new(),
        etching: Some(etching),
        mint: None,
        pointer: Some(1),
    };
    assert_eq!(reveal.output[2].script_pubkey, runestone.encipher().into_bytes());
}

#[test]
fn etching_reveal_without_premine_has_two_outputs() {
    let mut params = etching_params();
    params.premine = 0;
    let utxos = vec![utxo(5, 100_000)];
    let plan = etch_rune(&inscription(), &params, &utxos, 20_000, 2_000, vec![0x00]).unwrap();
    let reveal =
        finalize_etching_reveal(&plan, &params, &vec![0x42; 32], 1_000, 0, vec![0x51]).unwrap();
    assert_eq!(reveal.output.len(), 2);
    assert_eq!(reveal.output[0].value, 19_000);
    assert_eq!(reveal.output[1].value, 0);
}

#[test]
fn etching_reveal_underflow_is_reported() {
    let params = etching_params();
    let utxos = vec![utxo(5, 100_000)];
    let plan = etch_rune(&inscription(), &params, &utxos, 20_000, 2_000, vec![0x00]).unwrap();
    let r = finalize_etching_reveal(&plan, &params, &vec![0x42; 32], 15_000, 6_000, vec![0x51]);
    assert_eq!(r.err(), Some(WalletError::AmountUnderflow));
}

#[test]
fn completed_pair_records_ids_and_fees() {
    let pair = CommitRevealTxPair {
        commit_txid: vec![1; 32],
        reveal_txid: vec![2; 32],
        total_fees: 4_000,
    };
    let done = InscriptionTransactions { base: pair };
    assert_eq!(done.base.total_fees, 4_000);
    let pair = CommitRevealTxPair {
        commit_txid: vec![1; 32],
        reveal_txid: vec![2; 32],
        total_fees: 4_000,
    };
    let etched = EtchingTransactions { base: pair, rune_id: 7 };
    assert_eq!(etched.rune_id, 7);
}
