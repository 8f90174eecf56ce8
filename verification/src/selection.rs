//! Coin selection: choosing unspent outputs to fund a target payment under
//! a fee budget.
//!
//! Every strategy is a pure function of the candidate list. A selection
//! succeeds only when the chosen outputs sum to at least `target + fee`;
//! all arithmetic is checked and an overflow is reported rather than
//! wrapped.

use vstd::prelude::*;

use crate::errors::UtilsError;

verus! {

/// An unspent transaction output: a spendable amount identified by the
/// transaction that created it and the output index within it. Amounts are
/// integer satoshis. Snapshots are immutable; selection only filters and
/// reorders them.
#[derive(Clone, Copy, Debug, PartialEq, Eq)]
pub struct UnspentOutput {
    pub txid: [u8; 32],
    pub vout: u32,
    pub amount: u64,
    pub confirmations: u32,
}

/// The caller-chosen, stateless selection strategy.
#[derive(Clone, Copy, Debug, PartialEq, Eq, Structural)]
pub enum UTXOStrategy {
    BranchAndBound,
    Fifo,
    LargestFirst,
    SmallestFirst,
    SingleUTXO,
}

/// The summed amount of a sequence of outputs.
pub open spec fn sum_amounts(s: Seq<UnspentOutput>) -> int
    decreases s.len(),
{
    if s.len() == 0 {
        0
    } else {
        s[0].amount + sum_amounts(s.drop_first())
    }
}

/// The accumulation rule shared by FIFO and the sorted strategies: consume
/// outputs in the given order and stop as soon as the running total reaches
/// `need`; the result is the shortest non-empty prefix whose sum reaches
/// `need`, or nothing when even the whole list falls short.
pub open spec fn fifo_select(s: Seq<UnspentOutput>, need: int) -> Option<Seq<UnspentOutput>>
    decreases s.len(),
{
    if s.len() == 0 {
        None
    } else if s[0].amount >= need {
        Some(seq![s[0]])
    } else {
        match fifo_select(s.drop_first(), need - s[0].amount) {
            None => None,
            Some(t) => Some(seq![s[0]] + t),
        }
    }
}

/// The first output whose amount alone reaches `need`, if any.
pub open spec fn first_covering(s: Seq<UnspentOutput>, need: int) -> Option<UnspentOutput>
    decreases s.len(),
{
    if s.len() == 0 {
        None
    } else if s[0].amount >= need {
        Some(s[0])
    } else {
        first_covering(s.drop_first(), need)
    }
}

/// The minimum total reachable by a subsequence of `s` whose sum is at
/// least `need`; `None` when no subsequence reaches `need`.
pub open spec fn best_sum(s: Seq<UnspentOutput>, need: int) -> Option<int>
    decreases s.len(),
{
    if s.len() == 0 {
        if need <= 0 {
            Some(0)
        } else {
            None
        }
    } else {
        let skip_best = best_sum(s.drop_first(), need);
        let take_best = best_sum(s.drop_first(), need - s[0].amount);
        match (skip_best, take_best) {
            (None, None) => None,
            (Some(a), None) => Some(a),
            (None, Some(b)) => Some(s[0].amount + b),
            (Some(a), Some(b)) => if a <= s[0].amount + b {
                Some(a)
            } else {
                Some(s[0].amount + b)
            },
        }
    }
}

/// `a` appears within `b` in order (not necessarily contiguously).
pub open spec fn is_subseq_of(a: Seq<UnspentOutput>, b: Seq<UnspentOutput>) -> bool
    decreases a.len() + b.len(),
{
    if a.len() == 0 {
        true
    } else if b.len() == 0 {
        false
    } else {
        (a[0] == b[0] && is_subseq_of(a.drop_first(), b.drop_first())) || is_subseq_of(
            a,
            b.drop_first(),
        )
    }
}

/// Sort-key order used by the sorted strategies: strictly smaller amounts
/// first when ascending, strictly larger first when descending. Equal
/// amounts never reorder, which keeps the sort stable.
pub open spec fn amount_before(a: UnspentOutput, b: UnspentOutput, ascending: bool) -> bool {
    if ascending {
        a.amount < b.amount
    } else {
        a.amount > b.amount
    }
}

/// Stable insertion of `x` into an already sorted sequence: `x` goes after
/// every earlier element it does not strictly precede.
pub open spec fn insert_by_amount(
    x: UnspentOutput,
    s: Seq<UnspentOutput>,
    ascending: bool,
) -> Seq<UnspentOutput>
    decreases s.len(),
{
    if s.len() == 0 {
        seq![x]
    } else if amount_before(x, s[0], ascending) {
        seq![x] + s
    } else {
        seq![s[0]] + insert_by_amount(x, s.drop_first(), ascending)
    }
}

/// Stable sort by amount, as insertion sort over the input order.
pub open spec fn sort_by_amount(s: Seq<UnspentOutput>, ascending: bool) -> Seq<UnspentOutput>
    decreases s.len(),
{
    if s.len() == 0 {
        Seq::empty()
    } else {
        insert_by_amount(s.last(), sort_by_amount(s.drop_last(), ascending), ascending)
    }
}

proof fn lemma_sum_cons(x: UnspentOutput, t: Seq<UnspentOutput>)
    ensures
        sum_amounts(seq![x] + t) == x.amount + sum_amounts(t),
{
    assert((seq![x] + t).drop_first() =~= t);
    assert((seq![x] + t)[0] == x);
}

proof fn lemma_sum_singleton(x: UnspentOutput)
    ensures
        sum_amounts(seq![x]) == x.amount,
{
    lemma_sum_cons(x, Seq::empty());
    assert(seq![x] + Seq::<UnspentOutput>::empty() =~= seq![x]);
}

proof fn lemma_sum_nonneg(s: Seq<UnspentOutput>)
    ensures
        sum_amounts(s) >= 0,
    decreases s.len(),
{
    if s.len() > 0 {
        lemma_sum_nonneg(s.drop_first());
    }
}

proof fn lemma_sum_take_unfold(s: Seq<UnspentOutput>, j: int)
    requires
        1 <= j <= s.len(),
    ensures
        sum_amounts(s.take(j)) == s[0].amount + sum_amounts(s.drop_first().take(j - 1)),
{
    assert(s.take(j) =~= seq![s[0]] + s.drop_first().take(j - 1));
    lemma_sum_cons(s[0], s.drop_first().take(j - 1));
}

/// The accumulation rule returns exactly the shortest qualifying prefix.
proof fn lemma_fifo_select_take(s: Seq<UnspentOutput>, need: int, k: int)
    requires
        1 <= k <= s.len(),
        sum_amounts(s.take(k)) >= need,
        forall|j: int| 1 <= j < k ==> sum_amounts(s.take(j)) < need,
    ensures
        fifo_select(s, need) == Some(s.take(k)),
    decreases k,
{
    assert(sum_amounts(s.take(1)) == s[0].amount) by {
        lemma_sum_take_unfold(s, 1);
        assert(s.drop_first().take(0) =~= Seq::empty());
    }
    if s[0].amount >= need {
        assert(k == 1);
        assert(s.take(1) =~= seq![s[0]]);
    } else {
        assert(k >= 2);
        let rest = s.drop_first();
        let need2 = need - s[0].amount;
        assert(sum_amounts(rest.take(k - 1)) >= need2) by {
            lemma_sum_take_unfold(s, k);
        }
        assert forall|j: int| 1 <= j < k - 1 implies sum_amounts(rest.take(j)) < need2 by {
            lemma_sum_take_unfold(s, j + 1);
        }
        lemma_fifo_select_take(rest, need2, k - 1);
        assert(s.take(k) =~= seq![s[0]] + rest.take(k - 1));
    }
}

/// The accumulation rule succeeds exactly on a non-empty candidate list
/// whose total reaches `need`.
pub proof fn lemma_fifo_select_some_iff(s: Seq<UnspentOutput>, need: int)
    ensures
        fifo_select(s, need) is Some <==> (s.len() > 0 && sum_amounts(s) >= need),
    decreases s.len(),
{
    if s.len() > 0 {
        lemma_fifo_select_some_iff(s.drop_first(), need - s[0].amount);
        lemma_sum_nonneg(s.drop_first());
    }
}

/// A successful accumulation yields a prefix of the candidates whose sum
/// reaches `need`.
pub proof fn lemma_fifo_select_sound(s: Seq<UnspentOutput>, need: int)
    requires
        fifo_select(s, need) is Some,
    ensures
        sum_amounts(fifo_select(s, need)->Some_0) >= need,
        fifo_select(s, need)->Some_0 == s.take(fifo_select(s, need)->Some_0.len() as int),
        1 <= fifo_select(s, need)->Some_0.len() <= s.len(),
    decreases s.len(),
{
    let sel = fifo_select(s, need)->Some_0;
    if s[0].amount >= need {
        lemma_sum_cons(s[0], Seq::empty());
        assert(sum_amounts(seq![s[0]]) == s[0].amount) by {
            assert(seq![s[0]].drop_first() =~= Seq::<UnspentOutput>::empty());
        }
        assert(sel =~= s.take(1));
    } else {
        let rest = s.drop_first();
        let need2 = need - s[0].amount;
        lemma_fifo_select_sound(rest, need2);
        let t = fifo_select(rest, need2)->Some_0;
        lemma_sum_cons(s[0], t);
        assert(sel =~= s.take(t.len() + 1 as int)) by {
            assert(t == rest.take(t.len() as int));
        }
    }
}

/// A prefix is in particular a subsequence.
pub proof fn lemma_take_is_subseq(s: Seq<UnspentOutput>, k: int)
    requires
        0 <= k <= s.len(),
    ensures
        is_subseq_of(s.take(k), s),
    decreases s.len(),
{
    if k == 0 {
        assert(s.take(0).len() == 0);
    } else {
        assert(s.take(k)[0] == s[0]);
        lemma_take_is_subseq(s.drop_first(), k - 1);
        assert(s.take(k).drop_first() =~= s.drop_first().take(k - 1));
    }
}

/// A subsequence never sums to more than the whole.
pub proof fn lemma_subseq_sum(a: Seq<UnspentOutput>, b: Seq<UnspentOutput>)
    requires
        is_subseq_of(a, b),
    ensures
        0 <= sum_amounts(a) <= sum_amounts(b),
    decreases a.len() + b.len(),
{
    lemma_sum_nonneg(a);
    lemma_sum_nonneg(b);
    if a.len() == 0 {
    } else if b.len() == 0 {
    } else {
        if a[0] == b[0] && is_subseq_of(a.drop_first(), b.drop_first()) {
            lemma_subseq_sum(a.drop_first(), b.drop_first());
        } else {
            lemma_subseq_sum(a, b.drop_first());
        }
    }
}

/// When the whole candidate list sums below `need`, no subsequence of it
/// reaches `need` either: a failed selection cannot be blamed on the search
/// having missed a qualifying subset.
pub proof fn lemma_no_subset_reaches(s: Seq<UnspentOutput>, need: int, w: Seq<UnspentOutput>)
    requires
        sum_amounts(s) < need,
        is_subseq_of(w, s),
    ensures
        sum_amounts(w) < need,
{
    lemma_subseq_sum(w, s);
}

/// Single-output selection fails exactly when no candidate's amount
/// alone reaches the requirement.
pub proof fn lemma_first_covering_none_iff(s: Seq<UnspentOutput>, need: int)
    ensures
        first_covering(s, need) is None <==> (forall|k: int|
            0 <= k < s.len() ==> #[trigger] s[k].amount < need),
    decreases s.len(),
{
    if s.len() > 0 && s[0].amount < need {
        lemma_first_covering_none_iff(s.drop_first(), need);
        if first_covering(s, need) is None {
            assert forall|k: int| 0 <= k < s.len() implies #[trigger] s[k].amount < need by {
                if k > 0 {
                    assert(s.drop_first()[k - 1] == s[k]);
                }
            }
        }
        if forall|k: int| 0 <= k < s.len() ==> #[trigger] s[k].amount < need {
            assert forall|k: int|
                0 <= k < s.drop_first().len() implies #[trigger] s.drop_first()[k].amount
                < need by {
                assert(s.drop_first()[k] == s[k + 1]);
            }
        }
    }
}

/// A single-output selection covers the requirement by construction.
pub proof fn lemma_first_covering_covers(s: Seq<UnspentOutput>, need: int)
    requires
        first_covering(s, need) is Some,
    ensures
        first_covering(s, need)->Some_0.amount >= need,
    decreases s.len(),
{
    if s.len() > 0 && s[0].amount < need {
        lemma_first_covering_covers(s.drop_first(), need);
    }
}

/// The minimum-change search finds a total no worse than `need` demands.
pub proof fn lemma_best_sum_ge(s: Seq<UnspentOutput>, need: int)
    requires
        best_sum(s, need) is Some,
    ensures
        best_sum(s, need)->Some_0 >= need,
        best_sum(s, need)->Some_0 >= 0,
    decreases s.len(),
{
    if s.len() == 0 {
    } else {
        if best_sum(s.drop_first(), need) is Some {
            lemma_best_sum_ge(s.drop_first(), need);
        }
        if best_sum(s.drop_first(), need - s[0].amount) is Some {
            lemma_best_sum_ge(s.drop_first(), need - s[0].amount);
        }
    }
}

/// The minimum-change search fails exactly when the whole list sums below
/// `need`.
pub proof fn lemma_best_sum_none_iff(s: Seq<UnspentOutput>, need: int)
    ensures
        best_sum(s, need) is None <==> sum_amounts(s) < need,
    decreases s.len(),
{
    if s.len() == 0 {
    } else {
        lemma_best_sum_none_iff(s.drop_first(), need);
        lemma_best_sum_none_iff(s.drop_first(), need - s[0].amount);
        lemma_sum_nonneg(s.drop_first());
    }
}

/// Minimality of the minimum-change search: every subsequence whose sum
/// reaches `need` witnesses a best total at most its own. In particular the
/// change left by a branch-and-bound selection is at most the change left
/// by any other strategy's selection from the same candidates.
pub proof fn lemma_branch_and_bound_minimal(
    s: Seq<UnspentOutput>,
    need: int,
    w: Seq<UnspentOutput>,
)
    requires
        is_subseq_of(w, s),
        sum_amounts(w) >= need,
    ensures
        best_sum(s, need) is Some,
        best_sum(s, need)->Some_0 <= sum_amounts(w),
    decreases s.len(),
{
    if s.len() == 0 {
        lemma_sum_nonneg(w);
    } else {
        if w.len() > 0 && is_subseq_of(w, s.drop_first()) {
            lemma_branch_and_bound_minimal(s.drop_first(), need, w);
        } else if w.len() == 0 {
            lemma_sum_nonneg(w);
            lemma_branch_and_bound_minimal(s.drop_first(), need, w);
        } else {
            // w starts with s[0] and continues inside the remainder.
            assert(w[0] == s[0] && is_subseq_of(w.drop_first(), s.drop_first()));
            lemma_sum_cons(w[0], w.drop_first());
            assert(w =~= seq![w[0]] + w.drop_first());
            lemma_branch_and_bound_minimal(
                s.drop_first(),
                need - s[0].amount,
                w.drop_first(),
            );
        }
    }
}

proof fn lemma_sum_append(a: Seq<UnspentOutput>, b: Seq<UnspentOutput>)
    ensures
        sum_amounts(a + b) == sum_amounts(a) + sum_amounts(b),
    decreases a.len(),
{
    if a.len() == 0 {
        assert(a + b =~= b);
    } else {
        lemma_sum_append(a.drop_first(), b);
        assert((a + b).drop_first() =~= a.drop_first() + b);
        assert((a + b)[0] == a[0]);
    }
}

proof fn lemma_sum_take_step(s: Seq<UnspentOutput>, j: int)
    requires
        0 <= j < s.len(),
    ensures
        sum_amounts(s.take(j + 1)) == sum_amounts(s.take(j)) + s[j].amount,
{
    assert(s.take(j + 1) =~= s.take(j) + seq![s[j]]);
    lemma_sum_append(s.take(j), seq![s[j]]);
    lemma_sum_singleton(s[j]);
}

proof fn lemma_sum_skip_step(s: Seq<UnspentOutput>, i: int)
    requires
        0 <= i < s.len(),
    ensures
        sum_amounts(s.skip(i)) == s[i].amount + sum_amounts(s.skip(i + 1)),
{
    assert(s.skip(i) =~= seq![s[i]] + s.skip(i + 1));
    lemma_sum_cons(s[i], s.skip(i + 1));
}

/// Sorting by amount permutes the candidates, so it keeps their total.
pub proof fn lemma_sort_keeps_sum(s: Seq<UnspentOutput>, ascending: bool)
    ensures
        sum_amounts(sort_by_amount(s, ascending)) == sum_amounts(s),
    decreases s.len(),
{
    if s.len() > 0 {
        lemma_sort_keeps_sum(s.drop_last(), ascending);
        lemma_insert_keeps_sum(s.last(), sort_by_amount(s.drop_last(), ascending), ascending);
        assert(s =~= s.drop_last() + seq![s.last()]);
        lemma_sum_append(s.drop_last(), seq![s.last()]);
        lemma_sum_singleton(s.last());
    }
}

proof fn lemma_insert_keeps_sum(x: UnspentOutput, s: Seq<UnspentOutput>, ascending: bool)
    ensures
        sum_amounts(insert_by_amount(x, s, ascending)) == x.amount + sum_amounts(s),
    decreases s.len(),
{
    if s.len() == 0 {
        lemma_sum_singleton(x);
    } else if amount_before(x, s[0], ascending) {
        lemma_sum_cons(x, s);
    } else {
        lemma_insert_keeps_sum(x, s.drop_first(), ascending);
        lemma_sum_cons(s[0], insert_by_amount(x, s.drop_first(), ascending));
    }
}

proof fn lemma_insert_at(s: Seq<UnspentOutput>, x: UnspentOutput, j: int, ascending: bool)
    requires
        0 <= j <= s.len(),
        forall|k: int| 0 <= k < j ==> !amount_before(x, s[k], ascending),
        j == s.len() || amount_before(x, s[j], ascending),
    ensures
        insert_by_amount(x, s, ascending) == s.take(j) + seq![x] + s.skip(j),
    decreases s.len(),
{
    if s.len() == 0 {
        assert(insert_by_amount(x, s, ascending) =~= s.take(0) + seq![x] + s.skip(0));
    } else if j == 0 {
        assert(insert_by_amount(x, s, ascending) =~= s.take(0) + seq![x] + s.skip(0));
    } else {
        assert forall|k: int| 0 <= k < j - 1 implies !amount_before(
            x,
            s.drop_first()[k],
            ascending,
        ) by {
            assert(s.drop_first()[k] == s[k + 1]);
        }
        lemma_insert_at(s.drop_first(), x, j - 1, ascending);
        assert(insert_by_amount(x, s, ascending) =~= s.take(j) + seq![x] + s.skip(j));
    }
}

/// The contract of the shared accumulation rule, relative to the order the
/// outputs were handed over in.
pub open spec fn accumulate_post(
    ordered: Seq<UnspentOutput>,
    need: int,
    r: Result<Vec<UnspentOutput>, UtilsError>,
) -> bool {
    match r {
        Ok(sel) => fifo_select(ordered, need) == Some(sel@) && sum_amounts(sel@) <= u64::MAX,
        Err(e) => (e == UtilsError::InsufficientUTXOs && fifo_select(ordered, need) is None) || (
        e == UtilsError::AmountOverflow && (need > u64::MAX || (fifo_select(ordered, need) is Some
            && sum_amounts(fifo_select(ordered, need)->Some_0) > u64::MAX))),
    }
}

/// The contract of single-output selection.
pub open spec fn single_post(
    s: Seq<UnspentOutput>,
    need: int,
    r: Result<Vec<UnspentOutput>, UtilsError>,
) -> bool {
    match r {
        Ok(sel) => sel@.len() == 1 && first_covering(s, need) == Some(sel@[0]),
        Err(e) => (e == UtilsError::InsufficientUTXOs && first_covering(s, need) is None && need
            <= u64::MAX) || (e == UtilsError::AmountOverflow && need > u64::MAX),
    }
}

/// The contract of the minimum-change search.
pub open spec fn branch_and_bound_post(
    s: Seq<UnspentOutput>,
    need: int,
    r: Result<Vec<UnspentOutput>, UtilsError>,
) -> bool {
    match r {
        Ok(sel) => is_subseq_of(sel@, s) && best_sum(s, need) == Some(sum_amounts(sel@))
            && sum_amounts(sel@) <= u64::MAX,
        Err(e) => (e == UtilsError::InsufficientUTXOs && best_sum(s, need) is None) || (e
            == UtilsError::AmountOverflow && (need > u64::MAX || sum_amounts(s) > u64::MAX)),
    }
}

/// Whenever the accumulation rule (FIFO, or either sorted strategy over
/// its ordered candidates) finds a selection, the minimum-change search
/// over the same candidates finds one leaving no more change.
pub proof fn lemma_branch_and_bound_no_worse(s: Seq<UnspentOutput>, need: int)
    requires
        fifo_select(s, need) is Some,
    ensures
        best_sum(s, need) is Some,
        best_sum(s, need)->Some_0 <= sum_amounts(fifo_select(s, need)->Some_0),
{
    lemma_fifo_select_sound(s, need);
    let sel = fifo_select(s, need)->Some_0;
    lemma_take_is_subseq(s, sel.len() as int);
    lemma_branch_and_bound_minimal(s, need, sel);
}

fn copy_utxos(utxos: &Vec<UnspentOutput>) -> (r: Vec<UnspentOutput>)
    ensures
        r@ == utxos@,
{
    let mut out: Vec<UnspentOutput> = Vec::new();
    let mut i: usize = 0;
    while i < utxos.len()
        invariant
            i <= utxos.len(),
            out@ == utxos@.take(i as int),
        decreases utxos.len() - i,
    {
        out.push(utxos[i]);
        proof {
            assert(out@ =~= utxos@.take(i + 1 as int));
        }
        i += 1;
    }
    proof {
        assert(utxos@.take(utxos@.len() as int) =~= utxos@);
    }
    out
}

fn amount_before_exec(a: &UnspentOutput, b: &UnspentOutput, ascending: bool) -> (r: bool)
    ensures
        r == amount_before(*a, *b, ascending),
{
    if ascending {
        a.amount < b.amount
    } else {
        a.amount > b.amount
    }
}

/// Stable insertion sort by amount; ascending for smallest-first,
/// descending for largest-first.
fn sort_utxos(utxos: &Vec<UnspentOutput>, ascending: bool) -> (r: Vec<UnspentOutput>)
    ensures
        r@ == sort_by_amount(utxos@, ascending),
{
    let mut out: Vec<UnspentOutput> = Vec::new();
    let mut i: usize = 0;
    while i < utxos.len()
        invariant
            i <= utxos.len(),
            out@ == sort_by_amount(utxos@.take(i as int), ascending),
        decreases utxos.len() - i,
    {
        let x = utxos[i];
        let ghost pre = out@;
        let mut j: usize = 0;
        while j < out.len() && !amount_before_exec(&x, &out[j], ascending)
            invariant
                j <= out.len(),
                out@ == pre,
                forall|k: int| 0 <= k < j ==> !amount_before(x, pre[k], ascending),
            decreases out.len() - j,
        {
            j += 1;
        }
        proof {
            lemma_insert_at(pre, x, j as int, ascending);
        }
        out.insert(j, x);
        proof {
            assert(out@ =~= insert_by_amount(x, pre, ascending));
            assert(utxos@.take(i + 1 as int).drop_last() =~= utxos@.take(i as int));
            assert(utxos@.take(i + 1 as int).last() == x);
        }
        i += 1;
    }
    proof {
        assert(utxos@.take(utxos@.len() as int) =~= utxos@);
    }
    out
}

/// Accumulate the already ordered outputs until the running total reaches
/// `target + fee`, returning the shortest qualifying prefix.
pub fn select_utxos(
    sorted_utxos: Vec<UnspentOutput>,
    target_amount: u64,
    fee_amount: u64,
) -> (r: Result<Vec<UnspentOutput>, UtilsError>)
    ensures
        accumulate_post(sorted_utxos@, target_amount + fee_amount, r),
        (fifo_select(sorted_utxos@, target_amount + fee_amount) matches Some(t) && sum_amounts(t)
            <= u64::MAX) ==> r is Ok,
{
    let ghost s = sorted_utxos@;
    let ghost gneed: int = target_amount as int + fee_amount as int;
    let need = match target_amount.checked_add(fee_amount) {
        Some(n) => n,
        None => {
            proof {
                if fifo_select(s, gneed) is Some {
                    lemma_fifo_select_sound(s, gneed);
                }
            }
            return Err(UtilsError::AmountOverflow);
        },
    };
    let mut selected: Vec<UnspentOutput> = Vec::new();
    let mut total: u64 = 0;
    let mut idx: usize = 0;
    while idx < sorted_utxos.len()
        invariant
            idx <= sorted_utxos.len(),
            s == sorted_utxos@,
            need == gneed,
            gneed == target_amount + fee_amount,
            selected@ == s.take(idx as int),
            total == sum_amounts(s.take(idx as int)),
            forall|j: int| 1 <= j <= idx ==> sum_amounts(s.take(j)) < gneed,
        decreases sorted_utxos.len() - idx,
    {
        let u = sorted_utxos[idx];
        selected.push(u);
        proof {
            assert(selected@ =~= s.take(idx + 1 as int));
            lemma_sum_take_step(s, idx as int);
        }
        match total.checked_add(u.amount) {
            Some(nt) => {
                total = nt;
                if total >= need {
                    proof {
                        lemma_fifo_select_take(s, gneed, idx + 1 as int);
                    }
                    return Ok(selected);
                }
            },
            None => {
                proof {
                    lemma_fifo_select_take(s, gneed, idx + 1 as int);
                }
                return Err(UtilsError::AmountOverflow);
            },
        }
        idx += 1;
    }
    proof {
        assert(s.take(s.len() as int) =~= s);
        lemma_fifo_select_some_iff(s, gneed);
    }
    Err(UtilsError::InsufficientUTXOs)
}

/// FIFO: consume candidates in the order given until the threshold is met.
pub fn select_utxos_fifo(
    utxos: &Vec<UnspentOutput>,
    target_amount: u64,
    fee_amount: u64,
) -> (r: Result<Vec<UnspentOutput>, UtilsError>)
    ensures
        accumulate_post(utxos@, target_amount + fee_amount, r),
        r == Err::<Vec<UnspentOutput>, UtilsError>(UtilsError::InsufficientUTXOs) ==> (utxos@.len()
            == 0 || sum_amounts(utxos@) < target_amount + fee_amount),
{
    let sorted_utxos = copy_utxos(utxos);
    let r = select_utxos(sorted_utxos, target_amount, fee_amount);
    proof {
        lemma_fifo_select_some_iff(utxos@, target_amount + fee_amount);
        lemma_sum_nonneg(utxos@);
    }
    r
}

/// Largest-first: stable-sort by amount descending, then accumulate; this
/// minimizes the number of inputs used.
pub fn select_utxos_largest_first(
    utxos: &Vec<UnspentOutput>,
    target_amount: u64,
    fee_amount: u64,
) -> (r: Result<Vec<UnspentOutput>, UtilsError>)
    ensures
        accumulate_post(
            sort_by_amount(utxos@, false),
            target_amount + fee_amount,
            r,
        ),
        r == Err::<Vec<UnspentOutput>, UtilsError>(UtilsError::InsufficientUTXOs) ==> (utxos@.len()
            == 0 || sum_amounts(utxos@) < target_amount + fee_amount),
{
    let sorted_utxos = sort_utxos(utxos, false);
    let r = select_utxos(sorted_utxos, target_amount, fee_amount);
    proof {
        lemma_fifo_select_some_iff(sort_by_amount(utxos@, false), target_amount + fee_amount);
        lemma_sort_keeps_sum(utxos@, false);
        lemma_sum_nonneg(utxos@);
    }
    r
}

/// Smallest-first: stable-sort by amount ascending, then accumulate; this
/// maximizes the number of inputs used, which consolidates small outputs.
pub fn select_utxos_smallest_first(
    utxos: &Vec<UnspentOutput>,
    target_amount: u64,
    fee_amount: u64,
) -> (r: Result<Vec<UnspentOutput>, UtilsError>)
    ensures
        accumulate_post(
            sort_by_amount(utxos@, true),
            target_amount + fee_amount,
            r,
        ),
        r == Err::<Vec<UnspentOutput>, UtilsError>(UtilsError::InsufficientUTXOs) ==> (utxos@.len()
            == 0 || sum_amounts(utxos@) < target_amount + fee_amount),
{
    let sorted_utxos = sort_utxos(utxos, true);
    let r = select_utxos(sorted_utxos, target_amount, fee_amount);
    proof {
        lemma_fifo_select_some_iff(sort_by_amount(utxos@, true), target_amount + fee_amount);
        lemma_sort_keeps_sum(utxos@, true);
        lemma_sum_nonneg(utxos@);
    }
    r
}

/// Select the first output whose amount alone covers `target + fee`; used
/// when multiple inputs would complicate a script-path commitment.
pub fn select_single_utxo(
    utxos: &Vec<UnspentOutput>,
    target_amount: u64,
    fee_amount: u64,
) -> (r: Result<Vec<UnspentOutput>, UtilsError>)
    ensures
        single_post(utxos@, target_amount + fee_amount, r),
{
    let ghost s = utxos@;
    let ghost gneed: int = target_amount as int + fee_amount as int;
    let need = match target_amount.checked_add(fee_amount) {
        Some(n) => n,
        None => {
            return Err(UtilsError::AmountOverflow);
        },
    };
    proof {
        assert(s.skip(0) =~= s);
    }
    let mut idx: usize = 0;
    while idx < utxos.len()
        invariant
            idx <= utxos.len(),
            s == utxos@,
            need == gneed,
            gneed == target_amount + fee_amount,
            first_covering(s, gneed) == first_covering(s.skip(idx as int), gneed),
        decreases utxos.len() - idx,
    {
        let u = utxos[idx];
        if u.amount >= need {
            proof {
                assert(s.skip(idx as int)[0] == s[idx as int]);
            }
            let mut sel: Vec<UnspentOutput> = Vec::new();
            sel.push(u);
            return Ok(sel);
        }
        proof {
            assert(s.skip(idx as int)[0] == s[idx as int]);
            assert(s.skip(idx as int).drop_first() =~= s.skip(idx + 1 as int));
        }
        idx += 1;
    }
    proof {
        assert(s.skip(s.len() as int) =~= Seq::<UnspentOutput>::empty());
    }
    Err(UtilsError::InsufficientUTXOs)
}

/// Exhaustive minimum-change search over the remaining candidates
/// `utxos[i..]`, given that outputs summing to `cur` are already chosen.
/// Returns a qualifying completion with the least reachable total, if any.
fn branch_and_bound_rec(
    utxos: &Vec<UnspentOutput>,
    i: usize,
    cur: u64,
    need: u64,
) -> (r: Option<(Vec<UnspentOutput>, u64)>)
    requires
        i <= utxos.len(),
        cur + sum_amounts(utxos@.skip(i as int)) <= u64::MAX,
    ensures
        match r {
            Some(p) => is_subseq_of(p.0@, utxos@.skip(i as int)) && p.1 == cur + sum_amounts(p.0@)
                && best_sum(utxos@.skip(i as int), need - cur) == Some(sum_amounts(p.0@)),
            None => best_sum(utxos@.skip(i as int), need - cur) is None,
        },
    decreases utxos.len() - i,
{
    let ghost rem = utxos@.skip(i as int);
    proof {
        lemma_sum_nonneg(rem);
    }
    if i == utxos.len() {
        proof {
            assert(rem =~= Seq::<UnspentOutput>::empty());
        }
        if cur >= need {
            Some((Vec::new(), cur))
        } else {
            None
        }
    } else {
        let x = utxos[i];
        proof {
            lemma_sum_skip_step(utxos@, i as int);
            lemma_sum_nonneg(utxos@.skip(i + 1 as int));
        }
        let r_skip = branch_and_bound_rec(utxos, i + 1, cur, need);
        let r_take = branch_and_bound_rec(utxos, i + 1, cur + x.amount, need);
        proof {
            assert(rem[0] == x);
            assert(rem.drop_first() =~= utxos@.skip(i + 1 as int));
        }
        match (r_skip, r_take) {
            (None, None) => None,
            (Some(p), None) => {
                proof {
                    assert(is_subseq_of(p.0@, rem));
                }
                Some(p)
            },
            (None, Some(q)) => {
                let (mut sel, tot) = q;
                sel.insert(0, x);
                proof {
                    assert(sel@[0] == x);
                    assert(sel@.drop_first() =~= q.0@);
                    lemma_sum_cons(x, q.0@);
                    assert(sel@ =~= seq![x] + q.0@);
                }
                Some((sel, tot))
            },
            (Some(p), Some(q)) => {
                if p.1 <= q.1 {
                    proof {
                        assert(is_subseq_of(p.0@, rem));
                    }
                    Some(p)
                } else {
                    let (mut sel, tot) = q;
                    sel.insert(0, x);
                    proof {
                        assert(sel@[0] == x);
                        assert(sel@.drop_first() =~= q.0@);
                        lemma_sum_cons(x, q.0@);
                        assert(sel@ =~= seq![x] + q.0@);
                    }
                    Some((sel, tot))
                }
            },
        }
    }
}

/// Explore the subsets of the candidates for a combination meeting
/// `target + fee` with the least leftover change. Exhaustive, and therefore
/// only viable for small candidate sets; it serves as the correctness
/// reference for minimum-change selection.
pub fn select_utxos_branch_and_bound(
    utxos: &Vec<UnspentOutput>,
    target_amount: u64,
    fee_amount: u64,
) -> (r: Result<Vec<UnspentOutput>, UtilsError>)
    ensures
        branch_and_bound_post(utxos@, target_amount + fee_amount, r),
{
    let ghost s = utxos@;
    let ghost gneed: int = target_amount as int + fee_amount as int;
    let need = match target_amount.checked_add(fee_amount) {
        Some(n) => n,
        None => {
            return Err(UtilsError::AmountOverflow);
        },
    };
    // Pre-check the total so every partial sum of the search fits in u64.
    let mut total: u64 = 0;
    let mut idx: usize = 0;
    while idx < utxos.len()
        invariant
            idx <= utxos.len(),
            s == utxos@,
            total == sum_amounts(s.take(idx as int)),
        decreases utxos.len() - idx,
    {
        proof {
            lemma_sum_take_step(s, idx as int);
        }
        match total.checked_add(utxos[idx].amount) {
            Some(nt) => {
                total = nt;
            },
            None => {
                proof {
                    assert(s =~= s.take(idx + 1 as int) + s.skip(idx + 1 as int));
                    lemma_sum_append(s.take(idx + 1 as int), s.skip(idx + 1 as int));
                    lemma_sum_nonneg(s.skip(idx + 1 as int));
                }
                return Err(UtilsError::AmountOverflow);
            },
        }
        idx += 1;
    }
    proof {
        assert(s.take(s.len() as int) =~= s);
        assert(s.skip(0) =~= s);
    }
    match branch_and_bound_rec(utxos, 0, 0, need) {
        None => Err(UtilsError::InsufficientUTXOs),
        Some((sel, _total)) => {
            proof {
                lemma_subseq_sum(sel@, s);
            }
            Ok(sel)
        },
    }
}

/// Dispatch a selection request to the caller-chosen strategy.
pub fn strat_handler(
    utxos: &Vec<UnspentOutput>,
    target_amount: u64,
    fee_amount: u64,
    utxo_strategy: UTXOStrategy,
) -> (r: Result<Vec<UnspentOutput>, UtilsError>)
    ensures
        match utxo_strategy {
            UTXOStrategy::BranchAndBound => branch_and_bound_post(
                utxos@,
                target_amount + fee_amount,
                r,
            ),
            UTXOStrategy::Fifo => accumulate_post(utxos@, target_amount + fee_amount, r),
            UTXOStrategy::LargestFirst => accumulate_post(
                sort_by_amount(utxos@, false),
                target_amount + fee_amount,
                r,
            ),
            UTXOStrategy::SmallestFirst => accumulate_post(
                sort_by_amount(utxos@, true),
                target_amount + fee_amount,
                r,
            ),
            UTXOStrategy::SingleUTXO => single_post(utxos@, target_amount + fee_amount, r),
        },
{
    match utxo_strategy {
        UTXOStrategy::BranchAndBound => select_utxos_branch_and_bound(
            utxos,
            target_amount,
            fee_amount,
        ),
        UTXOStrategy::Fifo => select_utxos_fifo(utxos, target_amount, fee_amount),
        UTXOStrategy::LargestFirst => select_utxos_largest_first(utxos, target_amount, fee_amount),
        UTXOStrategy::SmallestFirst => select_utxos_smallest_first(
            utxos,
            target_amount,
            fee_amount,
        ),
        UTXOStrategy::SingleUTXO => select_single_utxo(utxos, target_amount, fee_amount),
    }
}

fn str_eq_chars(a: &str, b: &str) -> (r: bool)
    ensures
        r == (a@ == b@),
{
    let la = a.unicode_len();
    let lb = b.unicode_len();
    if la != lb {
        proof {
            if a@ == b@ {
                assert(a@.len() == b@.len());
            }
        }
        return false;
    }
    let mut i: usize = 0;
    while i < la
        invariant
            i <= la,
            la as nat == a@.len(),
            lb as nat == b@.len(),
            la == lb,
            forall|k: int| 0 <= k < i ==> a@[k] == b@[k],
        decreases la - i,
    {
        if a.get_char(i) != b.get_char(i) {
            return false;
        }
        i += 1;
    }
    proof {
        assert(a@ =~= b@);
    }
    true
}

/// Map a strategy name to its tag; the names match the command-line
/// surface.
pub fn parse_utxo_strategy(s: &str) -> (r: Result<UTXOStrategy, &'static str>)
    ensures
        s@ == "branch-and-bound"@ ==> r == Ok::<UTXOStrategy, &'static str>(
            UTXOStrategy::BranchAndBound,
        ),
        s@ == "fifo"@ ==> r == Ok::<UTXOStrategy, &'static str>(UTXOStrategy::Fifo),
        s@ == "largest-first"@ ==> r == Ok::<UTXOStrategy, &'static str>(
            UTXOStrategy::LargestFirst,
        ),
        s@ == "smallest-first"@ ==> r == Ok::<UTXOStrategy, &'static str>(
            UTXOStrategy::SmallestFirst,
        ),
        s@ == "single-utxo"@ ==> r == Ok::<UTXOStrategy, &'static str>(UTXOStrategy::SingleUTXO),
        r is Ok ==> (s@ == "branch-and-bound"@ || s@ == "fifo"@ || s@ == "largest-first"@ || s@
            == "smallest-first"@ || s@ == "single-utxo"@),
{
    proof {
        reveal_strlit("branch-and-bound");
        reveal_strlit("fifo");
        reveal_strlit("largest-first");
        reveal_strlit("smallest-first");
        reveal_strlit("single-utxo");
        assert("branch-and-bound"@.len() == 16);
        assert("fifo"@.len() == 4);
        assert("largest-first"@.len() == 13);
        assert("smallest-first"@.len() == 14);
        assert("single-utxo"@.len() == 11);
    }
    if str_eq_chars(s, "branch-and-bound") {
        Ok(UTXOStrategy::BranchAndBound)
    } else if str_eq_chars(s, "fifo") {
        Ok(UTXOStrategy::Fifo)
    } else if str_eq_chars(s, "largest-first") {
        Ok(UTXOStrategy::LargestFirst)
    } else if str_eq_chars(s, "smallest-first") {
        Ok(UTXOStrategy::SmallestFirst)
    } else if str_eq_chars(s, "single-utxo") {
        Ok(UTXOStrategy::SingleUTXO)
    } else {
        Err("Unknown UTXO selection strategy")
    }
}

} // verus!
