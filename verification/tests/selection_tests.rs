use satoshi_suite::selection::{
    select_utxos, select_utxos_branch_and_bound, select_utxos_fifo, select_utxos_largest_first,
    select_utxos_smallest_first, select_single_utxo, strat_handler, parse_utxo_strategy,
    UnspentOutput, UTXOStrategy,
};
use satoshi_suite::UtilsError;

fn utxo(tag: u8, amount: u64) -> UnspentOutput {
    UnspentOutput { txid: [tag; 32], vout: 0, amount, confirmations: 1 }
}

fn sample_set() -> Vec<UnspentOutput> {
    vec![utxo(1, 5000), utxo(2, 3000), utxo(3, 2000), utxo(4, 1000)]
}

fn amounts(sel: &[UnspentOutput]) -> Vec<u64> {
    sel.iter().map(|u| u.amount).collect()
}

#[test]
fn fifo_selects_in_input_order_until_threshold() {
    let sel = select_utxos_fifo(&sample_set(), 4000, 200).unwrap();
    assert_eq!(amounts(&sel), vec![5000]);
    // Change left over is 5000 - 4200 = 800.
    assert_eq!(sel.iter().map(|u| u.amount).sum::<u64>() - 4200, 800);
}

#[test]
fn fifo_accumulates_several_outputs() {
    let utxos = vec![utxo(1, 1000), utxo(2, 2000), utxo(3, 3000)];
    let sel = select_utxos_fifo(&utxos, 2500, 0).unwrap();
    assert_eq!(amounts(&sel), vec![1000, 2000]);
}

#[test]
fn smallest_first_maximizes_input_count() {
    let sel = select_utxos_smallest_first(&sample_set(), 4000, 200).unwrap();
    assert_eq!(amounts(&sel), vec![1000, 2000, 3000]);
    assert_eq!(sel.iter().map(|u| u.amount).sum::<u64>() - 4200, 1800);
}

#[test]
fn largest_first_minimizes_input_count() {
    let sel = select_utxos_largest_first(&sample_set(), 4000, 200).unwrap();
    assert_eq!(amounts(&sel), vec![5000]);
}

#[test]
fn branch_and_bound_change_no_worse_than_other_strategies() {
    let set = sample_set();
    let bnb = select_utxos_branch_and_bound(&set, 4000, 200).unwrap();
    let bnb_change = bnb.iter().map(|u| u.amount).sum::<u64>() - 4200;
    let fifo = select_utxos_fifo(&set, 4000, 200).unwrap();
    let fifo_change = fifo.iter().map(|u| u.amount).sum::<u64>() - 4200;
    let largest = select_utxos_largest_first(&set, 4000, 200).unwrap();
    let largest_change = largest.iter().map(|u| u.amount).sum::<u64>() - 4200;
    assert!(bnb_change <= fifo_change);
    assert!(bnb_change <= largest_change);
    assert_eq!(bnb_change, 800);
}

#[test]
fn branch_and_bound_finds_exact_match() {
    let utxos = vec![utxo(1, 5000), utxo(2, 3000), utxo(3, 1200)];
    let sel = select_utxos_branch_and_bound(&utxos, 4000, 200).unwrap();
    assert_eq!(sel.iter().map(|u| u.amount).sum::<u64>(), 4200);
    assert_eq!(amounts(&sel), vec![3000, 1200]);
}

#[test]
fn single_utxo_takes_first_sufficient_output() {
    let utxos = vec![utxo(1, 1000), utxo(2, 6000), utxo(3, 7000)];
    let sel = select_single_utxo(&utxos, 4000, 200).unwrap();
    assert_eq!(amounts(&sel), vec![6000]);
}

#[test]
fn single_utxo_fails_when_no_single_output_covers() {
    let utxos = vec![utxo(1, 1000), utxo(2, 2000)];
    assert_eq!(select_single_utxo(&utxos, 2500, 0), Err(UtilsError::InsufficientUTXOs));
}

#[test]
fn selection_fails_when_total_is_short() {
    let set = sample_set();
    // Total is 11000; demand more.
    assert_eq!(select_utxos_fifo(&set, 11000, 1), Err(UtilsError::InsufficientUTXOs));
    assert_eq!(select_utxos_largest_first(&set, 11000, 1), Err(UtilsError::InsufficientUTXOs));
    assert_eq!(select_utxos_smallest_first(&set, 11000, 1), Err(UtilsError::InsufficientUTXOs));
    assert_eq!(
        select_utxos_branch_and_bound(&set, 11000, 1),
        Err(UtilsError::InsufficientUTXOs)
    );
}

#[test]
fn selection_on_empty_candidates_fails() {
    let none: Vec<UnspentOutput> = Vec::new();
    assert_eq!(select_utxos(none, 0, 0), Err(UtilsError::InsufficientUTXOs));
}

#[test]
fn overflowing_requirement_is_reported() {
    let set = sample_set();
    assert_eq!(select_utxos_fifo(&set, u64::MAX, 1), Err(UtilsError::AmountOverflow));
    assert_eq!(
        select_utxos_branch_and_bound(&set, u64::MAX, 1),
        Err(UtilsError::AmountOverflow)
    );
}

#[test]
fn sort_is_stable_for_equal_amounts() {
    let utxos = vec![utxo(9, 3000), utxo(7, 3000), utxo(8, 3000)];
    let sel = select_utxos_smallest_first(&utxos, 8500, 0).unwrap();
    // All three are needed; equal amounts keep their input order.
    assert_eq!(sel.iter().map(|u| u.txid[0]).collect::<Vec<u8>>(), vec![9, 7, 8]);
    let sel = select_utxos_largest_first(&utxos, 8500, 0).unwrap();
    assert_eq!(sel.iter().map(|u| u.txid[0]).collect::<Vec<u8>>(), vec![9, 7, 8]);
}

#[test]
fn strat_handler_dispatches_each_strategy() {
    let set = sample_set();
    assert_eq!(
        amounts(&strat_handler(&set, 4000, 200, UTXOStrategy::Fifo).unwrap()),
        vec![5000]
    );
    assert_eq!(
        amounts(&strat_handler(&set, 4000, 200, UTXOStrategy::LargestFirst).unwrap()),
        vec![5000]
    );
    assert_eq!(
        amounts(&strat_handler(&set, 4000, 200, UTXOStrategy::SmallestFirst).unwrap()),
        vec![1000, 2000, 3000]
    );
    assert_eq!(
        strat_handler(&set, 4000, 200, UTXOStrategy::BranchAndBound)
            .unwrap()
            .iter()
            .map(|u| u.amount)
            .sum::<u64>(),
        5000
    );
    assert_eq!(
        amounts(&strat_handler(&set, 4000, 200, UTXOStrategy::SingleUTXO).unwrap()),
        vec![5000]
    );
}

#[test]
fn parse_utxo_strategy_names() {
    assert_eq!(parse_utxo_strategy("branch-and-bound"), Ok(UTXOStrategy::BranchAndBound));
    assert_eq!(parse_utxo_strategy("fifo"), Ok(UTXOStrategy::Fifo));
    assert_eq!(parse_utxo_strategy("largest-first"), Ok(UTXOStrategy::LargestFirst));
    assert_eq!(parse_utxo_strategy("smallest-first"), Ok(UTXOStrategy::SmallestFirst));
    assert_eq!(parse_utxo_strategy("single-utxo"), Ok(UTXOStrategy::SingleUTXO));
    assert!(parse_utxo_strategy("knapsack").is_err());
}
