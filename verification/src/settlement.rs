//! The books of a transaction: per token, what the inputs are worth, what is
//! asked of them, and what returns as change.

use vstd::prelude::*;
use crate::amount::{
    ascending_tokens, contains_token, has_token, lemma_total_for_bound, lemma_total_for_single,
    sum_for_token, token_set, total_for, worth, Amount,
};
use crate::error::{FundsShortfall, WalletTransactionBuilderError};
use crate::sorted::{insert_sorted, strictly_increasing};

verus! {

/// What is asked of the token `token_id`: the outlays in it, and the fee where
/// the fee is paid in it.
pub open spec fn requested(outlays: Seq<Amount>, fee: Amount, token_id: u64) -> nat {
    total_for(outlays, token_id) + worth(fee, token_id)
}

/// Whether anything is asked of the token: an outlay or the fee.
pub open spec fn is_requested(outlays: Seq<Amount>, fee: Amount, token_id: u64) -> bool {
    has_token(outlays, token_id) || fee.token_id == token_id
}

/// The tokens that a transaction touches: those of its inputs, of its outlays
/// and of its fee.
pub open spec fn touched_tokens(inputs: Seq<Amount>, outlays: Seq<Amount>, fee: Amount) -> Set<
    u64,
> {
    Set::new(|t: u64| has_token(inputs, t) || is_requested(outlays, fee, t))
}

/// Why the books of the token `token_id` do not close, if they do not.
///
/// A token that the transaction does not touch is in order. Of one that it
/// touches: a total beyond `u64::MAX` is too large; inputs without anything
/// asked of them, or the reverse, are missing their counterpart; inputs worth
/// less than what is asked are insufficient.
pub open spec fn token_failure(
    inputs: Seq<Amount>,
    outlays: Seq<Amount>,
    fee: Amount,
    token_id: u64,
) -> Option<WalletTransactionBuilderError> {
    let available = total_for(inputs, token_id);
    let required = requested(outlays, fee, token_id);
    if !has_token(inputs, token_id) && !is_requested(outlays, fee, token_id) {
        None
    } else if required > u64::MAX || available > u64::MAX {
        Some(WalletTransactionBuilderError::OutboundValueTooLarge)
    } else if !has_token(inputs, token_id) || !is_requested(outlays, fee, token_id) {
        Some(WalletTransactionBuilderError::MissingInputsForTokenId(token_id))
    } else if required > available {
        Some(
            WalletTransactionBuilderError::InsufficientInputFunds(
                FundsShortfall {
                    token_id,
                    required: required as u64,
                    available: available as u64,
                },
            ),
        )
    } else {
        None
    }
}

/// Whether `token_id` is the smallest token whose books do not close.
pub open spec fn is_first_failing(
    inputs: Seq<Amount>,
    outlays: Seq<Amount>,
    fee: Amount,
    token_id: u64,
) -> bool {
    &&& token_failure(inputs, outlays, fee, token_id) is Some
    &&& forall|t: u64| t < token_id ==> token_failure(inputs, outlays, fee, t) is None
}

/// Why the books of the transaction do not close, if they do not: the failure
/// of the smallest token that has one.
pub open spec fn settlement_failure(
    inputs: Seq<Amount>,
    outlays: Seq<Amount>,
    fee: Amount,
) -> Option<WalletTransactionBuilderError> {
    if exists|t: u64| is_first_failing(inputs, outlays, fee, t) {
        token_failure(
            inputs,
            outlays,
            fee,
            choose|t: u64| is_first_failing(inputs, outlays, fee, t),
        )
    } else {
        None
    }
}

/// Whether `change` is the change of the transaction: one amount for each
/// token of the inputs, a zero amount too, in ascending order of the tokens,
/// each worth what the inputs of its token exceed what is asked of it by.
pub open spec fn is_change(
    change: Seq<Amount>,
    inputs: Seq<Amount>,
    outlays: Seq<Amount>,
    fee: Amount,
) -> bool {
    &&& ascending_tokens(change)
    &&& token_set(change) == token_set(inputs)
    &&& forall|j: int|
        0 <= j < change.len() ==> (#[trigger] change[j]).value == total_for(
            inputs,
            change[j].token_id,
        ) - requested(outlays, fee, change[j].token_id)
}

/// Whether value is conserved: for every token of the inputs, the inputs are
/// worth what the outputs and the change are worth, and the fee where it is
/// paid in that token.
pub open spec fn balanced(
    inputs: Seq<Amount>,
    outputs: Seq<Amount>,
    change: Seq<Amount>,
    fee: Amount,
) -> bool {
    forall|t: u64| #[trigger]
        has_token(inputs, t) ==> total_for(inputs, t) == total_for(outputs, t) + total_for(
            change,
            t,
        ) + worth(fee, t)
}

/// The change of a transaction whose books close conserves value.
pub proof fn lemma_change_balances(
    change: Seq<Amount>,
    inputs: Seq<Amount>,
    outlays: Seq<Amount>,
    fee: Amount,
)
    requires
        is_change(change, inputs, outlays, fee),
    ensures
        balanced(inputs, outlays, change, fee),
{
    assert forall|t: u64| #[trigger] has_token(inputs, t) implies total_for(inputs, t)
        == total_for(outlays, t) + total_for(change, t) + worth(fee, t) by {
        assert(token_set(inputs).contains(t));
        assert(token_set(change).contains(t));
        let at = choose|at: int| 0 <= at < change.len() && change[at].token_id == t;
        lemma_total_for_single(change, at, t);
    }
}

/// Where the inputs of a token are worth exactly what is asked of it, its
/// change is there and is zero.
pub proof fn lemma_change_present_when_exact(
    change: Seq<Amount>,
    inputs: Seq<Amount>,
    outlays: Seq<Amount>,
    fee: Amount,
    token_id: u64,
)
    requires
        is_change(change, inputs, outlays, fee),
        has_token(inputs, token_id),
        total_for(inputs, token_id) == requested(outlays, fee, token_id),
    ensures
        change.contains(Amount { value: 0, token_id }),
{
    assert(token_set(inputs).contains(token_id));
    assert(token_set(change).contains(token_id));
    let at = choose|at: int| 0 <= at < change.len() && change[at].token_id == token_id;
    assert(change[at] == Amount { value: 0, token_id });
}

/// Adds the tokens of `amounts` to the set that `tokens` lists.
pub fn collect_tokens(tokens: &mut Vec<u64>, amounts: &Vec<Amount>)
    requires
        strictly_increasing(old(tokens)@),
    ensures
        strictly_increasing(final(tokens)@),
        final(tokens)@.to_set() == old(tokens)@.to_set().union(token_set(amounts@)),
{
    let ghost start = tokens@.to_set();
    let mut i: usize = 0;
    while i < amounts.len()
        invariant
            i <= amounts.len(),
            strictly_increasing(tokens@),
            tokens@.to_set() == start.union(token_set(amounts@.take(i as int))),
        decreases amounts.len() - i,
    {
        let ghost before = tokens@.to_set();
        insert_sorted(tokens, amounts[i].token_id);
        proof {
            let seen = amounts@.take(i as int);
            let next = amounts@.take(i + 1);
            assert forall|t: u64| has_token(next, t) <==> (has_token(seen, t) || t
                == amounts[i as int].token_id) by {
                if has_token(next, t) {
                    let k = choose|k: int| 0 <= k < next.len() && next[k].token_id == t;
                    if k < i {
                        assert(seen[k].token_id == t);
                    }
                }
                if has_token(seen, t) {
                    let k = choose|k: int| 0 <= k < seen.len() && seen[k].token_id == t;
                    assert(next[k].token_id == t);
                }
                if t == amounts[i as int].token_id {
                    assert(next[i as int].token_id == t);
                }
            }
            assert(tokens@.to_set() =~= start.union(token_set(next)));
        }
        i = i + 1;
    }
    proof {
        assert(amounts@.take(i as int) =~= amounts@);
    }
}

/// The tokens that the transaction touches, in ascending order.
pub fn touched_token_list(inputs: &Vec<Amount>, outlays: &Vec<Amount>, fee: Amount) -> (tokens:
    Vec<u64>)
    ensures
        strictly_increasing(tokens@),
        tokens@.to_set() == touched_tokens(inputs@, outlays@, fee),
{
    let mut tokens: Vec<u64> = Vec::new();
    insert_sorted(&mut tokens, fee.token_id);
    collect_tokens(&mut tokens, outlays);
    collect_tokens(&mut tokens, inputs);
    proof {
        assert(Seq::<u64>::empty().to_set() =~= Set::<u64>::empty());
        assert(tokens@.to_set() =~= touched_tokens(inputs@, outlays@, fee));
    }
    tokens
}

/// Closes the books of the transaction: the change where they close, else the
/// failure of the smallest token whose books do not.
pub fn settle(inputs: &Vec<Amount>, outlays: &Vec<Amount>, fee: Amount) -> (outcome: Result<
    Vec<Amount>,
    WalletTransactionBuilderError,
>)
    ensures
        match outcome {
            Ok(change) => settlement_failure(inputs@, outlays@, fee) is None && is_change(
                change@,
                inputs@,
                outlays@,
                fee,
            ),
            Err(e) => settlement_failure(inputs@, outlays@, fee) == Some(e),
        },
{
    let tokens: Vec<u64> = touched_token_list(inputs, outlays, fee);
    let mut change: Vec<Amount> = Vec::new();
    let mut k: usize = 0;
    while k < tokens.len()
        invariant
            k <= tokens.len(),
            strictly_increasing(tokens@),
            tokens@.to_set() == touched_tokens(inputs@, outlays@, fee),
            change.len() == k,
            forall|j: int|
                0 <= j < k ==> token_failure(inputs@, outlays@, fee, #[trigger] tokens[j]) is None,
            forall|j: int|
                0 <= j < k ==> (#[trigger] change[j]).token_id == tokens[j] && change[j].value
                    == total_for(inputs@, tokens[j]) - requested(outlays@, fee, tokens[j]),
        decreases tokens.len() - k,
    {
        let token: u64 = tokens[k];
        proof {
            lemma_total_for_bound(inputs@, token);
            lemma_total_for_bound(outlays@, token);
            assert(tokens@.contains(token));
            assert(tokens@.to_set().contains(token));
            assert(outlays.len() * u64::MAX <= u64::MAX * u64::MAX) by (nonlinear_arith)
                requires
                    outlays.len() <= u64::MAX,
            ;
        }
        let available: u128 = sum_for_token(inputs, token);
        let asked: u128 = sum_for_token(outlays, token);
        let required: u128 = if fee.token_id == token {
            asked + fee.value as u128
        } else {
            asked
        };
        let in_inputs: bool = contains_token(inputs, token);
        let in_outlays: bool = contains_token(outlays, token);
        let is_asked: bool = in_outlays || fee.token_id == token;
        let failure: Option<WalletTransactionBuilderError> = if required > u64::MAX as u128
            || available > u64::MAX as u128 {
            Some(WalletTransactionBuilderError::OutboundValueTooLarge)
        } else if !in_inputs || !is_asked {
            Some(WalletTransactionBuilderError::MissingInputsForTokenId(token))
        } else if required > available {
            Some(
                WalletTransactionBuilderError::InsufficientInputFunds(
                    FundsShortfall {
                        token_id: token,
                        required: required as u64,
                        available: available as u64,
                    },
                ),
            )
        } else {
            None
        };
        assert(failure == token_failure(inputs@, outlays@, fee, token));
        match failure {
            Some(e) => {
                proof {
                    assert forall|t: u64| t < token implies token_failure(
                        inputs@,
                        outlays@,
                        fee,
                        t,
                    ) is None by {
                        if touched_tokens(inputs@, outlays@, fee).contains(t) {
                            assert(tokens@.to_set().contains(t));
                            assert(tokens@.contains(t));
                            let j = choose|j: int| 0 <= j < tokens.len() && tokens[j] == t;
                            assert(j < k);
                        }
                    }
                    assert(is_first_failing(inputs@, outlays@, fee, token));
                    let first = choose|t: u64| is_first_failing(inputs@, outlays@, fee, t);
                    assert(first == token);
                }
                return Err(e);
            },
            None => {},
        }
        change.push(Amount { value: (available - required) as u64, token_id: token });
        k = k + 1;
    }
    proof {
        assert forall|t: u64| token_failure(inputs@, outlays@, fee, t) is None by {
            if touched_tokens(inputs@, outlays@, fee).contains(t) {
                assert(tokens@.to_set().contains(t));
                assert(tokens@.contains(t));
                let j = choose|j: int| 0 <= j < tokens.len() && tokens[j] == t;
                assert(tokens[j] == t);
            }
        }
        assert forall|t: u64| has_token(change@, t) <==> has_token(inputs@, t) by {
            if has_token(change@, t) {
                let j = choose|j: int| 0 <= j < change.len() && change[j].token_id == t;
                assert(token_failure(inputs@, outlays@, fee, tokens[j]) is None);
                assert(tokens@.contains(tokens[j]));
                assert(tokens@.to_set().contains(t));
            }
            if has_token(inputs@, t) {
                assert(touched_tokens(inputs@, outlays@, fee).contains(t));
                assert(tokens@.to_set().contains(t));
                assert(tokens@.contains(t));
                let j = choose|j: int| 0 <= j < tokens.len() && tokens[j] == t;
                assert(change[j].token_id == t);
            }
        }
        assert(token_set(change@) =~= token_set(inputs@));
        assert forall|i: int, j: int| 0 <= i < j < change.len() implies change[i].token_id
            < change[j].token_id by {
            assert(change[i].token_id == tokens[i]);
            assert(change[j].token_id == tokens[j]);
        }
    }
    Ok(change)
}

} // verus!
