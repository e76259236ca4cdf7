//! What the wallet concludes from the answers of the ledger and of the
//! network's peers.

use std::collections::BTreeMap;
use vstd::prelude::*;
use crate::amount::{has_token, token_set, Amount, MOB_MINIMUM_FEE, MOB_TOKEN_ID};
use crate::error::LedgerServiceError;

verus! {

/// The number of blocks on the network, from the index of its newest block;
/// a network without blocks has none.
pub fn get_network_block_height(highest_block_index_on_network: Option<u64>) -> (outcome: Result<
    u64,
    LedgerServiceError,
>)
    requires
        highest_block_index_on_network != Some(u64::MAX),
    ensures
        outcome == Ok::<u64, LedgerServiceError>(
            match highest_block_index_on_network {
                Some(index) => (index + 1) as u64,
                None => 0,
            },
        ),
{
    match highest_block_index_on_network {
        Some(index) => Ok(index + 1),
        None => Ok(0),
    }
}

/// The highest fee that `reported` names for the token; 0 where it names none.
pub open spec fn highest_fee(reported: Seq<Amount>, token_id: u64) -> u64
    decreases reported.len(),
{
    if reported.len() == 0 {
        0
    } else {
        let before = highest_fee(reported.drop_last(), token_id);
        if reported.last().token_id == token_id && reported.last().value > before {
            reported.last().value
        } else {
            before
        }
    }
}

/// The fee that the network asks for the token: the highest that a peer
/// reports, and for MOB no less than the least fee.
pub open spec fn network_fee(reported: Seq<Amount>, token_id: u64) -> u64 {
    let highest = highest_fee(reported, token_id);
    if token_id == MOB_TOKEN_ID && highest < MOB_MINIMUM_FEE {
        MOB_MINIMUM_FEE
    } else {
        highest
    }
}

/// The minimum fees of the network, by token, from `reported`, the minimum
/// fees that the peers report: for each token the highest fee that any peer
/// reports. MOB is always among them, with no less than the least fee.
pub fn get_network_fees(reported: &Vec<Amount>) -> (fees: BTreeMap<u64, u64>)
    ensures
        fees@.dom() == token_set(reported@).insert(MOB_TOKEN_ID),
        forall|t: u64| #[trigger] fees@.contains_key(t) ==> fees@[t] == network_fee(reported@, t),
{
    broadcast use vstd::std_specs::btree::group_btree_axioms;

    let mut fees: BTreeMap<u64, u64> = BTreeMap::new();
    let mut i: usize = 0;
    proof {
        assert(fees@.dom() =~= token_set(reported@.take(0)));
    }
    while i < reported.len()
        invariant
            i <= reported.len(),
            fees@.dom() == token_set(reported@.take(i as int)),
            forall|t: u64| #[trigger]
                fees@.contains_key(t) ==> fees@[t] == highest_fee(reported@.take(i as int), t),
        decreases reported.len() - i,
    {
        let token: u64 = reported[i].token_id;
        let fee: u64 = reported[i].value;
        let ghost seen = reported@.take(i as int);
        let ghost next = reported@.take(i + 1);
        let ghost before = fees@;
        proof {
            assert(next.drop_last() =~= seen);
            assert(next.last() == reported[i as int]);
            assert forall|t: u64| has_token(next, t) <==> (has_token(seen, t) || t == token) by {
                if has_token(next, t) {
                    let k = choose|k: int| 0 <= k < next.len() && next[k].token_id == t;
                    if k < i {
                        assert(seen[k].token_id == t);
                    }
                }
                if has_token(seen, t) {
                    let k = choose|k: int| 0 <= k < seen.len() && seen[k].token_id == t;
                    assert(next[k].token_id == t);
                }
                if t == token {
                    assert(next[i as int].token_id == t);
                }
            }
            assert(before.contains_key(token) <==> token_set(seen).contains(token));
            if !has_token(seen, token) {
                lemma_highest_fee_absent(seen, token);
            }
        }
        let raise: bool = match fees.get(&token) {
            Some(known) => fee > *known,
            None => true,
        };
        if raise {
            fees.insert(token, fee);
        }
        proof {
            assert forall|t: u64| fees@.dom().contains(t) <==> token_set(next).contains(t) by {
                assert(before.dom().contains(t) <==> token_set(seen).contains(t));
            }
            assert(fees@.dom() =~= token_set(next));
            assert forall|t: u64| #[trigger] fees@.contains_key(t) implies fees@[t] == highest_fee(
                next,
                t,
            ) by {
                if t != token {
                    assert(before.contains_key(t));
                }
            }
        }
        i = i + 1;
    }
    proof {
        assert(reported@.take(i as int) =~= reported@);
    }
    let ghost gathered = fees@;
    let mob: u64 = match fees.get(&MOB_TOKEN_ID) {
        Some(known) => *known,
        None => 0,
    };
    proof {
        if !gathered.contains_key(MOB_TOKEN_ID) {
            assert(!token_set(reported@).contains(MOB_TOKEN_ID));
            lemma_highest_fee_absent(reported@, MOB_TOKEN_ID);
        }
    }
    if mob < MOB_MINIMUM_FEE {
        fees.insert(MOB_TOKEN_ID, MOB_MINIMUM_FEE);
    }
    proof {
        assert(fees@.dom() =~= token_set(reported@).insert(MOB_TOKEN_ID));
    }
    fees
}

/// No fee is reported for a token that no report names.
proof fn lemma_highest_fee_absent(reported: Seq<Amount>, token_id: u64)
    requires
        !has_token(reported, token_id),
    ensures
        highest_fee(reported, token_id) == 0,
    decreases reported.len(),
{
    if reported.len() > 0 {
        let head = reported.drop_last();
        assert(reported[reported.len() - 1].token_id != token_id);
        assert forall|i: int| 0 <= i < head.len() implies head[i].token_id != token_id by {
            assert(reported[i].token_id != token_id);
        }
        lemma_highest_fee_absent(head, token_id);
    }
}

/// The newest of the block versions in `versions`; 0 where there is none.
pub open spec fn newest_version(versions: Seq<u32>) -> u32
    decreases versions.len(),
{
    if versions.len() == 0 {
        0
    } else {
        let before = newest_version(versions.drop_last());
        if versions.last() > before {
            versions.last()
        } else {
            before
        }
    }
}

/// The block version of the network, from `reported`, the block versions that
/// the peers report: the newest of them, where a peer reports one and the
/// wallet supports it; else `max_block_version`, the newest that the wallet
/// supports.
pub fn get_network_block_version(reported: &Vec<u32>, max_block_version: u32) -> (version: u32)
    ensures
        version == if reported.len() > 0 && newest_version(reported@) <= max_block_version {
            newest_version(reported@)
        } else {
            max_block_version
        },
{
    if reported.len() == 0 {
        return max_block_version;
    }
    let mut newest: u32 = 0;
    let mut i: usize = 0;
    while i < reported.len()
        invariant
            i <= reported.len(),
            newest == newest_version(reported@.take(i as int)),
        decreases reported.len() - i,
    {
        proof {
            assert(reported@.take(i + 1).drop_last() =~= reported@.take(i as int));
        }
        if reported[i] > newest {
            newest = reported[i];
        }
        i = i + 1;
    }
    proof {
        assert(reported@.take(i as int) =~= reported@);
    }
    if newest <= max_block_version {
        newest
    } else {
        max_block_version
    }
}

} // verus!
