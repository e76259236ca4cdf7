//! Amounts of a token, and what a list of amounts is worth per token.

use vstd::prelude::*;

verus! {

/// The token id of MOB, the token that fees are paid in by default.
pub const MOB_TOKEN_ID: u64 = 0;

/// The smallest fee, in picoMOB, that the network accepts for a MOB transaction.
pub const MOB_MINIMUM_FEE: u64 = 400_000_000;

/// A value of one token.
#[derive(Clone, Copy, Debug, PartialEq, Eq, Structural)]
pub struct Amount {
    pub value: u64,
    pub token_id: u64,
}

impl Amount {
    /// The amount of `value` of the token `token_id`.
    pub fn new(value: u64, token_id: u64) -> (a: Amount)
        ensures
            a == (Amount { value, token_id }),
    {
        Amount { value, token_id }
    }
}

/// The sum of the values in `amounts` that are of the token `token_id`.
pub open spec fn total_for(amounts: Seq<Amount>, token_id: u64) -> nat
    decreases amounts.len(),
{
    if amounts.len() == 0 {
        0
    } else {
        total_for(amounts.drop_last(), token_id) + worth(amounts.last(), token_id)
    }
}

/// What one amount adds to the total of `token_id`.
pub open spec fn worth(amount: Amount, token_id: u64) -> nat {
    if amount.token_id == token_id {
        amount.value as nat
    } else {
        0
    }
}

/// The sum of all values in `amounts`, whatever their token.
pub open spec fn total_value(amounts: Seq<Amount>) -> nat
    decreases amounts.len(),
{
    if amounts.len() == 0 {
        0
    } else {
        total_value(amounts.drop_last()) + amounts.last().value as nat
    }
}

/// Whether some amount in `amounts` is of the token `token_id`.
pub open spec fn has_token(amounts: Seq<Amount>, token_id: u64) -> bool {
    exists|i: int| 0 <= i < amounts.len() && #[trigger] amounts[i].token_id == token_id
}

/// A list without the token is worth nothing in it.
pub proof fn lemma_total_for_absent(amounts: Seq<Amount>, token_id: u64)
    requires
        !has_token(amounts, token_id),
    ensures
        total_for(amounts, token_id) == 0,
    decreases amounts.len(),
{
    if amounts.len() > 0 {
        let head = amounts.drop_last();
        assert(amounts[amounts.len() - 1].token_id != token_id);
        assert forall|i: int| 0 <= i < head.len() implies head[i].token_id != token_id by {
            assert(amounts[i].token_id != token_id);
        }
        lemma_total_for_absent(head, token_id);
    }
}

/// No total exceeds the number of amounts times the largest value.
pub proof fn lemma_total_for_bound(amounts: Seq<Amount>, token_id: u64)
    ensures
        total_for(amounts, token_id) <= amounts.len() * u64::MAX,
        total_for(amounts, token_id) <= total_value(amounts),
        total_value(amounts) <= amounts.len() * u64::MAX,
    decreases amounts.len(),
{
    if amounts.len() > 0 {
        lemma_total_for_bound(amounts.drop_last(), token_id);
    }
}

/// The total of `token_id` in `amounts`. It always fits: a vector holds fewer
/// than 2^64 amounts, each below 2^64.
pub fn sum_for_token(amounts: &Vec<Amount>, token_id: u64) -> (sum: u128)
    ensures
        sum == total_for(amounts@, token_id),
{
    let mut sum: u128 = 0;
    let mut i: usize = 0;
    while i < amounts.len()
        invariant
            i <= amounts.len(),
            sum == total_for(amounts@.take(i as int), token_id),
            sum <= i * u64::MAX,
        decreases amounts.len() - i,
    {
        proof {
            assert(amounts@.take(i + 1).drop_last() =~= amounts@.take(i as int));
        }
        if amounts[i].token_id == token_id {
            sum = sum + amounts[i].value as u128;
        }
        i = i + 1;
    }
    proof {
        assert(amounts@.take(i as int) =~= amounts@);
    }
    sum
}


/// The tokens that occur in `amounts`.
pub open spec fn token_set(amounts: Seq<Amount>) -> Set<u64> {
    Set::new(|t: u64| has_token(amounts, t))
}

/// Whether the amounts stand in ascending order of their tokens, each token once.
pub open spec fn ascending_tokens(amounts: Seq<Amount>) -> bool {
    forall|i: int, j: int| 0 <= i < j < amounts.len() ==> amounts[i].token_id < amounts[j].token_id
}

/// Where a token occurs once, its total is that one value.
pub proof fn lemma_total_for_single(amounts: Seq<Amount>, at: int, token_id: u64)
    requires
        0 <= at < amounts.len(),
        amounts[at].token_id == token_id,
        forall|i: int| 0 <= i < amounts.len() && i != at ==> amounts[i].token_id != token_id,
    ensures
        total_for(amounts, token_id) == amounts[at].value,
    decreases amounts.len(),
{
    let head = amounts.drop_last();
    if at == amounts.len() - 1 {
        assert forall|i: int| 0 <= i < head.len() implies head[i].token_id != token_id by {
            assert(head[i] == amounts[i]);
        }
        assert(!has_token(head, token_id));
        lemma_total_for_absent(head, token_id);
    } else {
        assert forall|i: int| 0 <= i < head.len() && i != at implies head[i].token_id
            != token_id by {
            assert(head[i] == amounts[i]);
        }
        lemma_total_for_single(head, at, token_id);
    }
}

/// Whether some amount in `amounts` is of the token `token_id`.
pub fn contains_token(amounts: &Vec<Amount>, token_id: u64) -> (found: bool)
    ensures
        found == has_token(amounts@, token_id),
{
    let mut i: usize = 0;
    while i < amounts.len()
        invariant
            i <= amounts.len(),
            forall|j: int| 0 <= j < i ==> amounts[j].token_id != token_id,
        decreases amounts.len() - i,
    {
        if amounts[i].token_id == token_id {
            return true;
        }
        i = i + 1;
    }
    false
}

} // verus!
