//! Choosing the owned outputs that a transaction spends.
//!
//! Of the outputs of the wanted token that are unspent and worth no more than
//! the cap, the least valuable are spent first: as many as are needed to reach
//! the target, and no more. Small outputs are swept up that way. Among outputs
//! of one value, the one recorded first is spent first.

use vstd::prelude::*;
use crate::amount::total_value;
use crate::error::{FundsShortfall, WalletDbError};
use crate::txo::{amounts_of, Txo, TxoView};

verus! {

/// Whether `txo` may be spent for the token `token_id`: it is of that token, it
/// is unspent, and it is worth no more than the cap, where there is one.
pub open spec fn is_spendable(txo: TxoView, token_id: u64, max_spendable_value: Option<u64>)
    -> bool {
    &&& txo.token_id == token_id
    &&& txo.is_unspent()
    &&& match max_spendable_value {
        Some(cap) => txo.value <= cap,
        None => true,
    }
}

/// The outputs among `txos` that may be spent, in order.
pub open spec fn spendable(txos: Seq<TxoView>, token_id: u64, max_spendable_value: Option<u64>)
    -> Seq<TxoView> {
    txos.filter(|t: TxoView| is_spendable(t, token_id, max_spendable_value))
}

/// The whole value of a list of outputs.
pub open spec fn worth_of(txos: Seq<TxoView>) -> nat {
    total_value(amounts_of(txos))
}

/// The place of an output worth `value` in `sorted`: behind the outputs that
/// are worth no more than it.
pub open spec fn place_by_value(sorted: Seq<TxoView>, value: u64) -> int
    decreases sorted.len(),
{
    if sorted.len() == 0 || sorted[0].value > value {
        0
    } else {
        1 + place_by_value(sorted.drop_first(), value)
    }
}

/// The outputs of `txos` with the least valuable first; outputs of one value
/// keep their order.
pub open spec fn smallest_first(txos: Seq<TxoView>) -> Seq<TxoView>
    decreases txos.len(),
{
    if txos.len() == 0 {
        txos
    } else {
        let sorted = smallest_first(txos.drop_last());
        sorted.insert(place_by_value(sorted, txos.last().value), txos.last())
    }
}

/// Whether no output in `txos` is worth less than one before it.
pub open spec fn ordered_by_value(txos: Seq<TxoView>) -> bool {
    forall|i: int, j: int| 0 <= i < j < txos.len() ==> txos[i].value <= txos[j].value
}

/// Why no outputs can be selected to cover `target_value` of the token, if
/// none can.
///
/// Where no output may be spent, there are no spendable outputs. Where those
/// that may be spent are worth less than the target, the funds are
/// insufficient: under the cap, where the unspent outputs of the token would
/// have reached the target without it; altogether, where they would not.
pub open spec fn selection_failure(
    txos: Seq<TxoView>,
    target_value: u64,
    max_spendable_value: Option<u64>,
    token_id: u64,
) -> Option<WalletDbError> {
    let candidates = spendable(txos, token_id, max_spendable_value);
    let unspent = spendable(txos, token_id, None);
    if candidates.len() == 0 {
        Some(WalletDbError::NoSpendableTxos)
    } else if worth_of(candidates) >= target_value {
        None
    } else if worth_of(unspent) < target_value {
        Some(
            WalletDbError::InsufficientFunds(
                FundsShortfall {
                    token_id,
                    required: target_value,
                    available: worth_of(unspent) as u64,
                },
            ),
        )
    } else {
        Some(
            WalletDbError::InsufficientFundsUnderMaxSpendable(
                FundsShortfall {
                    token_id,
                    required: target_value,
                    available: worth_of(candidates) as u64,
                },
            ),
        )
    }
}

/// Whether `selected` is the selection for `target_value` from `txos`: the
/// least valuable spendable outputs, as many as reach the target and not one
/// more.
pub open spec fn is_selection(
    selected: Seq<TxoView>,
    txos: Seq<TxoView>,
    target_value: u64,
    max_spendable_value: Option<u64>,
    token_id: u64,
) -> bool {
    let sorted = smallest_first(spendable(txos, token_id, max_spendable_value));
    &&& selected.len() <= sorted.len()
    &&& selected == sorted.take(selected.len() as int)
    &&& worth_of(selected) >= target_value
    &&& selected.len() > 0 ==> worth_of(selected.drop_last()) < target_value
}

/// The selection for `target_value` from `txos`, where there is one.
pub open spec fn selection_for(
    txos: Seq<TxoView>,
    target_value: u64,
    max_spendable_value: Option<u64>,
    token_id: u64,
) -> Seq<TxoView> {
    choose|selected: Seq<TxoView>|
        is_selection(selected, txos, target_value, max_spendable_value, token_id)
}

/// The first outputs of a list are worth no more than the first and some more.
proof fn lemma_worth_of_prefix(txos: Seq<TxoView>, fewer: int, more: int)
    requires
        0 <= fewer <= more <= txos.len(),
    ensures
        worth_of(txos.take(fewer)) <= worth_of(txos.take(more)),
    decreases more - fewer,
{
    if fewer < more {
        assert(amounts_of(txos.take(more)).drop_last() =~= amounts_of(txos.take(more - 1)));
        lemma_worth_of_prefix(txos, fewer, more - 1);
    }
}

/// There is at most one selection.
pub proof fn lemma_selection_unique(
    first: Seq<TxoView>,
    second: Seq<TxoView>,
    txos: Seq<TxoView>,
    target_value: u64,
    max_spendable_value: Option<u64>,
    token_id: u64,
)
    requires
        is_selection(first, txos, target_value, max_spendable_value, token_id),
        is_selection(second, txos, target_value, max_spendable_value, token_id),
    ensures
        first == second,
{
    let sorted = smallest_first(spendable(txos, token_id, max_spendable_value));
    if first.len() < second.len() {
        assert(second.drop_last() =~= sorted.take(second.len() - 1));
        lemma_worth_of_prefix(sorted, first.len() as int, second.len() - 1);
    } else if second.len() < first.len() {
        assert(first.drop_last() =~= sorted.take(first.len() - 1));
        lemma_worth_of_prefix(sorted, second.len() as int, first.len() - 1);
    }
}

/// A selection is the selection.
pub proof fn lemma_selection_is(
    selected: Seq<TxoView>,
    txos: Seq<TxoView>,
    target_value: u64,
    max_spendable_value: Option<u64>,
    token_id: u64,
)
    requires
        is_selection(selected, txos, target_value, max_spendable_value, token_id),
    ensures
        selection_for(txos, target_value, max_spendable_value, token_id) == selected,
{
    lemma_selection_unique(
        selection_for(txos, target_value, max_spendable_value, token_id),
        selected,
        txos,
        target_value,
        max_spendable_value,
        token_id,
    );
}

/// The outputs that `order` names in `txos`, in the order of `order`.
pub open spec fn picked(txos: Seq<TxoView>, order: Seq<usize>) -> Seq<TxoView> {
    order.map_values(|k: usize| txos[k as int])
}

/// The place by value is the one place that parts the outputs worth no more
/// than `value` from those worth more, in a list ordered by value.
proof fn lemma_place_by_value(sorted: Seq<TxoView>, value: u64, p: int)
    requires
        0 <= p <= sorted.len(),
        forall|j: int| 0 <= j < p ==> sorted[j].value <= value,
        p < sorted.len() ==> sorted[p].value > value,
    ensures
        place_by_value(sorted, value) == p,
    decreases sorted.len(),
{
    if sorted.len() == 0 || sorted[0].value > value {
    } else {
        let rest = sorted.drop_first();
        assert forall|j: int| 0 <= j < p - 1 implies rest[j].value <= value by {
            assert(rest[j] == sorted[j + 1]);
        }
        lemma_place_by_value(rest, value, p - 1);
    }
}

/// What the place by value says of the list.
proof fn lemma_place_by_value_holds(sorted: Seq<TxoView>, value: u64)
    ensures
        0 <= place_by_value(sorted, value) <= sorted.len(),
        forall|j: int| 0 <= j < place_by_value(sorted, value) ==> sorted[j].value <= value,
        place_by_value(sorted, value) < sorted.len() ==> sorted[place_by_value(
            sorted,
            value,
        )].value > value,
    decreases sorted.len(),
{
    if sorted.len() == 0 || sorted[0].value > value {
    } else {
        let rest = sorted.drop_first();
        lemma_place_by_value_holds(rest, value);
        assert forall|j: int| 0 <= j < place_by_value(sorted, value) implies sorted[j].value
            <= value by {
            if j > 0 {
                assert(rest[j - 1] == sorted[j]);
            }
        }
    }
}

/// Putting an output into a list adds its value to the worth of the list.
proof fn lemma_worth_of_insert(txos: Seq<TxoView>, at: int, txo: TxoView)
    requires
        0 <= at <= txos.len(),
    ensures
        worth_of(txos.insert(at, txo)) == worth_of(txos) + txo.value,
    decreases txos.len(),
{
    let grown = txos.insert(at, txo);
    if at == txos.len() {
        assert(grown =~= txos.push(txo));
        assert(amounts_of(grown).drop_last() =~= amounts_of(txos));
    } else {
        let head = txos.drop_last();
        assert(grown.drop_last() =~= head.insert(at, txo));
        assert(amounts_of(grown).drop_last() =~= amounts_of(head.insert(at, txo)));
        assert(amounts_of(txos).drop_last() =~= amounts_of(head));
        lemma_worth_of_insert(head, at, txo);
    }
}

/// Ordering outputs by value keeps their number and their worth, and no
/// output of the result is worth less than one before it.
pub proof fn lemma_smallest_first(txos: Seq<TxoView>)
    ensures
        smallest_first(txos).len() == txos.len(),
        worth_of(smallest_first(txos)) == worth_of(txos),
        ordered_by_value(smallest_first(txos)),
        smallest_first(txos).to_multiset() == txos.to_multiset(),
    decreases txos.len(),
{
    if txos.len() == 0 {
    } else {
        let head = txos.drop_last();
        let last = txos.last();
        let sorted = smallest_first(head);
        let p = place_by_value(sorted, last.value);
        lemma_smallest_first(head);
        lemma_place_by_value_holds(sorted, last.value);
        lemma_worth_of_insert(sorted, p, last);
        assert(amounts_of(txos).drop_last() =~= amounts_of(head));
        let grown = sorted.insert(p, last);
        assert forall|i: int, j: int| 0 <= i < j < grown.len() implies grown[i].value
            <= grown[j].value by {
            if j < p {
                assert(grown[i] == sorted[i] && grown[j] == sorted[j]);
            } else if j == p {
                assert(grown[i] == sorted[i]);
            } else if i < p {
                assert(grown[i] == sorted[i] && grown[j] == sorted[j - 1]);
            } else if i == p {
                assert(grown[j] == sorted[j - 1]);
                assert(sorted[p].value <= sorted[j - 1].value || p == j - 1);
            } else {
                assert(grown[i] == sorted[i - 1] && grown[j] == sorted[j - 1]);
            }
        }
        vstd::seq_lib::lemma_multiset_commutative(sorted.take(p), sorted.skip(p));
        assert(sorted.take(p) + sorted.skip(p) =~= sorted);
        assert(grown =~= sorted.take(p).push(last) + sorted.skip(p));
        vstd::seq_lib::lemma_multiset_commutative(sorted.take(p).push(last), sorted.skip(p));
        vstd::seq::Seq::<TxoView>::to_multiset_ensures(sorted.take(p));
        assert(txos =~= head.push(last));
        vstd::seq::Seq::<TxoView>::to_multiset_ensures(head);
        assert(grown.to_multiset() =~= txos.to_multiset());
    }
}

/// The spendable outputs of a list with one more output at its end.
proof fn lemma_spendable_push(
    txos: Seq<TxoView>,
    last: TxoView,
    token_id: u64,
    max_spendable_value: Option<u64>,
)
    ensures
        spendable(txos.push(last), token_id, max_spendable_value) == if is_spendable(
            last,
            token_id,
            max_spendable_value,
        ) {
            spendable(txos, token_id, max_spendable_value).push(last)
        } else {
            spendable(txos, token_id, max_spendable_value)
        },
{
    reveal(Seq::filter);
    assert(txos.push(last).drop_last() =~= txos);
}

/// What gathering the candidates of a selection finds.
struct Candidates {
    /// Where the outputs that may be spent stand in the records, in order.
    places: Vec<usize>,
    /// What they are worth together.
    worth: u128,
    /// What the unspent outputs of the token are worth together, whatever the cap.
    unspent_worth: u128,
}

/// Gathers the outputs among `txos` that may be spent.
fn gather_candidates(txos: &Vec<Txo>, max_spendable_value: Option<u64>, token_id: u64) -> (found:
    Candidates)
    ensures
        forall|c: int| 0 <= c < found.places.len() ==> (#[trigger] found.places[c]) < txos.len(),
        picked(txos.deep_view(), found.places@) == spendable(
            txos.deep_view(),
            token_id,
            max_spendable_value,
        ),
        found.worth == worth_of(spendable(txos.deep_view(), token_id, max_spendable_value)),
        found.unspent_worth == worth_of(spendable(txos.deep_view(), token_id, None)),
{
    let ghost records = txos.deep_view();
    let mut places: Vec<usize> = Vec::new();
    let mut worth: u128 = 0;
    let mut unspent_worth: u128 = 0;
    let mut i: usize = 0;
    proof {
        reveal(Seq::filter);
        assert(picked(records, places@) =~= spendable(
            records.take(0),
            token_id,
            max_spendable_value,
        ));
        assert(spendable(records.take(0), token_id, None) =~= Seq::<TxoView>::empty());
    }
    while i < txos.len()
        invariant
            i <= txos.len(),
            records == txos.deep_view(),
            forall|c: int| 0 <= c < places.len() ==> (#[trigger] places[c]) < i,
            picked(records, places@) == spendable(
                records.take(i as int),
                token_id,
                max_spendable_value,
            ),
            worth == worth_of(spendable(records.take(i as int), token_id, max_spendable_value)),
            unspent_worth == worth_of(spendable(records.take(i as int), token_id, None)),
            worth <= i * u64::MAX,
            unspent_worth <= i * u64::MAX,
        decreases txos.len() - i,
    {
        let ghost seen = records.take(i as int);
        let ghost current = records[i as int];
        proof {
            assert(records.take(i + 1) =~= seen.push(current));
            assert(current == txos[i as int]@);
            lemma_spendable_push(seen, current, token_id, max_spendable_value);
            lemma_spendable_push(seen, current, token_id, None);
        }
        let txo = &txos[i];
        if txo.token_id == token_id && txo.spent_block_index.is_none() {
            proof {
                let before = spendable(seen, token_id, None);
                assert(amounts_of(before.push(current)).drop_last() =~= amounts_of(before));
            }
            unspent_worth = unspent_worth + txo.value as u128;
            let under_cap: bool = match max_spendable_value {
                Some(cap) => txo.value <= cap,
                None => true,
            };
            if under_cap {
                proof {
                    let before = spendable(seen, token_id, max_spendable_value);
                    assert(amounts_of(before.push(current)).drop_last() =~= amounts_of(before));
                    assert(picked(records, places@.push(i)) =~= picked(records, places@).push(
                        current,
                    ));
                }
                worth = worth + txo.value as u128;
                places.push(i);
            }
        }
        i = i + 1;
    }
    proof {
        assert(records.take(i as int) =~= records);
    }
    Candidates { places, worth, unspent_worth }
}

/// Orders the candidates by value, the least valuable first.
fn order_by_value(txos: &Vec<Txo>, places: &Vec<usize>) -> (order: Vec<usize>)
    requires
        forall|c: int| 0 <= c < places.len() ==> (#[trigger] places[c]) < txos.len(),
    ensures
        order.len() == places.len(),
        forall|c: int| 0 <= c < order.len() ==> (#[trigger] order[c]) < txos.len(),
        picked(txos.deep_view(), order@) == smallest_first(picked(txos.deep_view(), places@)),
{
    let ghost records = txos.deep_view();
    let mut order: Vec<usize> = Vec::new();
    let mut c: usize = 0;
    proof {
        assert(picked(records, places@.take(0)) =~= Seq::<TxoView>::empty());
        assert(picked(records, order@) =~= smallest_first(picked(records, places@.take(0))));
    }
    while c < places.len()
        invariant
            c <= places.len(),
            records == txos.deep_view(),
            order.len() == c,
            forall|k: int| 0 <= k < places.len() ==> (#[trigger] places[k]) < txos.len(),
            forall|k: int| 0 <= k < order.len() ==> (#[trigger] order[k]) < txos.len(),
            picked(records, order@) == smallest_first(picked(records, places@.take(c as int))),
        decreases places.len() - c,
    {
        let place: usize = places[c];
        let value: u64 = txos[place].value;
        let ghost sorted = picked(records, order@);
        let mut p: usize = 0;
        while p < order.len() && txos[order[p]].value <= value
            invariant
                p <= order.len(),
                records == txos.deep_view(),
                sorted == picked(records, order@),
                forall|k: int| 0 <= k < order.len() ==> (#[trigger] order[k]) < txos.len(),
                forall|j: int| 0 <= j < p ==> sorted[j].value <= value,
            decreases order.len() - p,
        {
            assert(sorted[p as int] == txos[order[p as int] as int]@);
            p = p + 1;
        }
        proof {
            if p < order.len() {
                assert(sorted[p as int] == txos[order[p as int] as int]@);
            }
            lemma_place_by_value(sorted, value, p as int);
            let taken = picked(records, places@.take(c + 1));
            assert(taken.drop_last() =~= picked(records, places@.take(c as int)));
            assert(taken.last() == records[place as int]);
            assert(records[place as int] == txos[place as int]@);
        }
        let ghost before = order@;
        order.insert(p, place);
        proof {
            assert(picked(records, order@) =~= sorted.insert(p as int, records[place as int]));
        }
        c = c + 1;
    }
    proof {
        assert(places@.take(c as int) =~= places@);
    }
    order
}

/// Selects the outputs among `txos`, the account's recorded outputs, that are
/// spent to cover `target_value` of the token `token_id`. An output worth more
/// than `max_spendable_value` is left out altogether.
pub fn select_spendable_txos_for_value(
    txos: &Vec<Txo>,
    target_value: u64,
    max_spendable_value: Option<u64>,
    token_id: u64,
) -> (outcome: Result<Vec<Txo>, WalletDbError>)
    ensures
        match outcome {
            Ok(selected) => {
                &&& selection_failure(
                    txos.deep_view(),
                    target_value,
                    max_spendable_value,
                    token_id,
                ) is None
                &&& is_selection(
                    selected.deep_view(),
                    txos.deep_view(),
                    target_value,
                    max_spendable_value,
                    token_id,
                )
            },
            Err(e) => selection_failure(
                txos.deep_view(),
                target_value,
                max_spendable_value,
                token_id,
            ) == Some(e),
        },
{
    let ghost records = txos.deep_view();
    let found: Candidates = gather_candidates(txos, max_spendable_value, token_id);
    proof {
        assert(picked(records, found.places@).len() == found.places.len());
    }
    if found.places.len() == 0 {
        return Err(WalletDbError::NoSpendableTxos);
    }
    if found.worth < target_value as u128 {
        if found.unspent_worth < target_value as u128 {
            return Err(
                WalletDbError::InsufficientFunds(
                    FundsShortfall {
                        token_id,
                        required: target_value,
                        available: found.unspent_worth as u64,
                    },
                ),
            );
        }
        return Err(
            WalletDbError::InsufficientFundsUnderMaxSpendable(
                FundsShortfall { token_id, required: target_value, available: found.worth as u64 },
            ),
        );
    }
    let order: Vec<usize> = order_by_value(txos, &found.places);
    let ghost sorted = picked(records, order@);
    proof {
        lemma_smallest_first(spendable(records, token_id, max_spendable_value));
        assert(sorted.take(0) =~= Seq::<TxoView>::empty());
    }
    let mut selected: Vec<Txo> = Vec::new();
    let mut sum: u128 = 0;
    let mut k: usize = 0;
    while k < order.len() && sum < target_value as u128
        invariant
            k <= order.len(),
            records == txos.deep_view(),
            sorted == picked(records, order@),
            forall|c: int| 0 <= c < order.len() ==> (#[trigger] order[c]) < txos.len(),
            selected.deep_view() == sorted.take(k as int),
            sum == worth_of(sorted.take(k as int)),
            k > 0 ==> worth_of(sorted.take(k - 1)) < target_value,
            sum <= k * u64::MAX,
        decreases order.len() - k,
    {
        let ghost before = selected.deep_view();
        let txo = &txos[order[k]];
        proof {
            assert(sorted[k as int] == txo@);
            assert(sorted.take(k + 1) =~= sorted.take(k as int).push(txo@));
            assert(amounts_of(sorted.take(k + 1)).drop_last() =~= amounts_of(
                sorted.take(k as int),
            ));
        }
        sum = sum + txo.value as u128;
        selected.push(txo.clone());
        proof {
            assert(selected.deep_view() =~= before.push(txo@));
        }
        k = k + 1;
    }
    proof {
        if k == order.len() {
            assert(sorted.take(k as int) =~= sorted);
        }
        if k > 0 {
            assert(selected.deep_view().drop_last() =~= sorted.take(k - 1));
        }
    }
    Ok(selected)
}

} // verus!
