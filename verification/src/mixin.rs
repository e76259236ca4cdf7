//! Sampling the decoys of a transaction: ledger indices drawn at random,
//! without replacement and apart from the indices of the real inputs.
//!
//! Every draw picks one of the indices that are still free with equal
//! chance: a random rank below the number of free indices is drawn, and the
//! index of that rank among the free ones is taken. No draw is ever thrown
//! away, so the sampling ends after as many draws as indices are asked for.

use rand::Rng;
use vstd::prelude::*;
use crate::error::{LedgerServiceError, WalletTransactionBuilderError};
use crate::ring::RING_SIZE;
use crate::sorted::{insert_sorted, lemma_rank_of, rank_of, strictly_increasing};

verus! {

/// A random number below `bound`.
///
/// Calls `rand::Rng::gen_range` with the range `0..bound` on the generator
/// that `rand::thread_rng` hands out. The contract claims of it only what it
/// documents of every outcome: the number lies in the range. The call panics
/// on an empty range, which `requires` leaves out.
#[verifier::external_body]
fn random_below(bound: u64) -> (number: u64)
    requires
        bound > 0,
    ensures
        number < bound,
{
    rand::thread_rng().gen_range(0..bound)
}

/// The index of rank `rank`, counted from 0, among the indices that the
/// strictly increasing `taken` does not hold: the one free index with exactly
/// `rank` free indices below it.
pub fn nth_free_index(taken: &Vec<u64>, rank: u64) -> (index: u64)
    requires
        strictly_increasing(taken@),
        rank + taken.len() <= u64::MAX,
    ensures
        !taken@.contains(index),
        index == rank + rank_of(taken@, index),
        index <= rank + taken.len(),
{
    let mut index: u64 = rank;
    let mut below: usize = 0;
    while below < taken.len() && taken[below] <= index
        invariant
            below <= taken.len(),
            index == rank + below,
            rank + taken.len() <= u64::MAX,
            forall|j: int| 0 <= j < below ==> taken[j] < index,
        decreases taken.len() - below,
    {
        index = index + 1;
        below = below + 1;
    }
    proof {
        lemma_rank_of(taken@, index, below as int);
        if taken@.contains(index) {
            let k = choose|k: int| 0 <= k < taken.len() && taken[k] == index;
            if k >= below {
                assert(taken[below as int] <= taken[k]);
            }
        }
    }
    index
}

/// Whether `sampled` is a sample of `count` indices of a ledger of `num_txos`
/// outputs: indices of the ledger, none of them excluded, no two the same.
pub open spec fn is_sample(sampled: Seq<u64>, count: nat, excluded: Seq<u64>, num_txos: u64)
    -> bool {
    &&& sampled.len() == count
    &&& sampled.no_duplicates()
    &&& forall|i: int|
        0 <= i < sampled.len() ==> (#[trigger] sampled[i]) < num_txos && !excluded.contains(
            sampled[i],
        )
}

/// The excluded indices that the ledger holds, in ascending order, each once.
fn excluded_in_ledger(excluded: &Vec<u64>, num_txos: u64) -> (taken: Vec<u64>)
    ensures
        strictly_increasing(taken@),
        taken.len() <= excluded.len(),
        forall|x: u64| taken@.contains(x) <==> (excluded@.contains(x) && x < num_txos),
{
    let mut taken: Vec<u64> = Vec::new();
    let mut i: usize = 0;
    while i < excluded.len()
        invariant
            i <= excluded.len(),
            strictly_increasing(taken@),
            taken.len() <= i,
            forall|x: u64|
                taken@.contains(x) <==> (excluded@.take(i as int).contains(x) && x < num_txos),
        decreases excluded.len() - i,
    {
        let ghost before = taken@;
        let ghost seen = excluded@.take(i as int);
        let ghost next = excluded@.take(i + 1);
        let index: u64 = excluded[i];
        proof {
            assert forall|x: u64| next.contains(x) <==> (seen.contains(x) || x == index) by {
                if next.contains(x) {
                    let k = choose|k: int| 0 <= k < next.len() && next[k] == x;
                    if k < i {
                        assert(seen[k] == x);
                    }
                }
                if seen.contains(x) {
                    let k = choose|k: int| 0 <= k < seen.len() && seen[k] == x;
                    assert(next[k] == x);
                }
                if x == index {
                    assert(next[i as int] == x);
                }
            }
        }
        if index < num_txos {
            insert_sorted(&mut taken, index);
            proof {
                assert forall|x: u64| taken@.contains(x) <==> (next.contains(x) && x
                    < num_txos) by {
                    assert(taken@.to_set().contains(x) <==> before.to_set().insert(index).contains(
                        x,
                    ));
                    assert(before.to_set().contains(x) <==> before.contains(x));
                }
            }
        }
        i = i + 1;
    }
    proof {
        assert(excluded@.take(i as int) =~= excluded@);
    }
    taken
}

/// Draws `num_requested` indices of a ledger of `num_txos` outputs at random:
/// no index twice, and none of `excluded`.
fn sample_indices(num_requested: usize, excluded: &Vec<u64>, num_txos: u64) -> (sampled: Vec<
    u64,
>)
    requires
        excluded.len() <= num_txos,
        num_requested <= num_txos - excluded.len(),
    ensures
        is_sample(sampled@, num_requested as nat, excluded@, num_txos),
{
    let mut taken: Vec<u64> = excluded_in_ledger(excluded, num_txos);
    let mut sampled: Vec<u64> = Vec::new();
    while sampled.len() < num_requested
        invariant
            sampled.len() <= num_requested,
            excluded.len() <= num_txos,
            num_requested <= num_txos - excluded.len(),
            strictly_increasing(taken@),
            taken.len() <= excluded.len() + sampled.len(),
            forall|x: u64| excluded@.contains(x) && x < num_txos ==> taken@.contains(x),
            forall|i: int| 0 <= i < sampled.len() ==> taken@.contains(#[trigger] sampled[i]),
            sampled@.no_duplicates(),
            forall|i: int|
                0 <= i < sampled.len() ==> (#[trigger] sampled[i]) < num_txos
                    && !excluded@.contains(sampled[i]),
        decreases num_requested - sampled.len(),
    {
        let free: u64 = num_txos - taken.len() as u64;
        let rank: u64 = random_below(free);
        let index: u64 = nth_free_index(&taken, rank);
        let ghost before = taken@;
        let ghost drawn = sampled@;
        insert_sorted(&mut taken, index);
        sampled.push(index);
        proof {
            assert forall|x: u64| before.contains(x) implies taken@.contains(x) by {
                assert(before.to_set().contains(x));
                assert(taken@.to_set().contains(x));
            }
            assert(taken@.to_set().contains(index));
            assert forall|i: int| 0 <= i < sampled.len() implies taken@.contains(
                #[trigger] sampled[i],
            ) by {
                if i < drawn.len() {
                    assert(sampled[i] == drawn[i]);
                    assert(before.contains(drawn[i]));
                }
            }
            assert forall|i: int, j: int|
                0 <= i < sampled.len() && 0 <= j < sampled.len() && i != j implies sampled[i]
                != sampled[j] by {
                if i < drawn.len() && j < drawn.len() {
                    assert(drawn[i] != drawn[j]);
                } else if i < drawn.len() {
                    assert(before.contains(drawn[i]));
                } else {
                    assert(before.contains(drawn[j]));
                }
            }
            assert forall|i: int| 0 <= i < sampled.len() implies (#[trigger] sampled[i])
                < num_txos && !excluded@.contains(sampled[i]) by {
                if i < drawn.len() {
                    assert(sampled[i] == drawn[i]);
                }
            }
        }
    }
    sampled
}

/// What the sampler says of a list of excluded indices that is longer than the ledger.
pub open spec fn excluded_exceeds_ledger() -> Seq<char> {
    "excluded_tx_out_indices exceeds amount of tx outs in ledger"@
}

/// Samples `num_mixins` decoys from a ledger of `num_txos` outputs, apart from
/// `excluded_indices`. The caller fetches the sampled outputs and their proofs
/// of membership from the ledger, all proofs at once.
pub fn sample_mixins(num_mixins: usize, excluded_indices: &Vec<u64>, num_txos: u64) -> (outcome:
    Result<Vec<u64>, LedgerServiceError>)
    ensures
        outcome is Ok <==> excluded_indices.len() <= num_txos && num_mixins <= num_txos
            - excluded_indices.len(),
        match outcome {
            Ok(sampled) => {
                &&& excluded_indices.len() <= num_txos
                &&& num_mixins <= num_txos - excluded_indices.len()
                &&& is_sample(sampled@, num_mixins as nat, excluded_indices@, num_txos)
            },
            Err(LedgerServiceError::InvalidArgument(message)) => {
                &&& excluded_indices.len() > num_txos
                &&& message@ == excluded_exceeds_ledger()
            },
            Err(LedgerServiceError::InsufficientTxOuts) => {
                &&& excluded_indices.len() <= num_txos
                &&& num_mixins > num_txos - excluded_indices.len()
            },
            Err(_) => false,
        },
{
    if excluded_indices.len() as u64 > num_txos {
        return Err(
            LedgerServiceError::InvalidArgument(
                "excluded_tx_out_indices exceeds amount of tx outs in ledger".to_owned(),
            ),
        );
    }
    if num_mixins as u64 > num_txos - excluded_indices.len() as u64 {
        return Err(LedgerServiceError::InsufficientTxOuts);
    }
    Ok(sample_indices(num_mixins, excluded_indices, num_txos))
}

/// Whether `rings` are sampled rings for `count` inputs: each of the ring
/// size, of indices of the ledger, none of them excluded, and no index in two
/// places, be it of one ring or of two.
pub open spec fn are_sampled_rings(
    rings: Seq<Seq<u64>>,
    count: nat,
    excluded: Seq<u64>,
    num_txos: u64,
) -> bool {
    &&& rings.len() == count
    &&& forall|a: int| 0 <= a < rings.len() ==> (#[trigger] rings[a]).len() == RING_SIZE
    &&& forall|a: int, i: int|
        0 <= a < rings.len() && 0 <= i < rings[a].len() ==> (#[trigger] rings[a][i]) < num_txos
            && !excluded.contains(rings[a][i])
    &&& forall|a: int, i: int, b: int, j: int|
        0 <= a < rings.len() && 0 <= i < rings[a].len() && 0 <= b < rings.len() && 0 <= j
            < rings[b].len() && (a != b || i != j) ==> #[trigger] rings[a][i]
            != #[trigger] rings[b][j]
}

/// Deals `sampled` out to `num_rings` rings: the first ring gets the first
/// indices, as many as a ring holds, the second ring the next ones, and so on.
fn deal_rings(sampled: &Vec<u64>, num_rings: usize) -> (rings: Vec<Vec<u64>>)
    requires
        sampled.len() == RING_SIZE * num_rings,
    ensures
        rings.len() == num_rings,
        forall|a: int| 0 <= a < num_rings ==> (#[trigger] rings[a]).len() == RING_SIZE,
        forall|a: int, i: int|
            0 <= a < num_rings && 0 <= i < RING_SIZE ==> #[trigger] rings[a][i] == sampled[a
                * RING_SIZE + i],
{
    let mut rings: Vec<Vec<u64>> = Vec::new();
    let mut a: usize = 0;
    while a < num_rings
        invariant
            a <= num_rings,
            sampled.len() == RING_SIZE * num_rings,
            rings.len() == a,
            forall|b: int| 0 <= b < a ==> (#[trigger] rings[b]).len() == RING_SIZE,
            forall|b: int, i: int|
                0 <= b < a && 0 <= i < RING_SIZE ==> #[trigger] rings[b][i] == sampled[b
                    * RING_SIZE + i],
        decreases num_rings - a,
    {
        let mut ring: Vec<u64> = Vec::new();
        let mut i: usize = 0;
        while i < RING_SIZE
            invariant
                i <= RING_SIZE,
                a < num_rings,
                sampled.len() == RING_SIZE * num_rings,
                ring.len() == i,
                forall|j: int| 0 <= j < i ==> #[trigger] ring[j] == sampled[a * RING_SIZE + j],
            decreases RING_SIZE - i,
        {
            ring.push(sampled[a * RING_SIZE + i]);
            i = i + 1;
        }
        rings.push(ring);
        a = a + 1;
    }
    rings
}

/// Samples one ring of decoys for each of `num_rings` inputs from a ledger of
/// `num_txos` outputs, apart from `excluded_tx_out_indices`, the indices of the
/// real inputs. The caller fetches the sampled outputs and their proofs of
/// membership from the ledger, all proofs at once.
pub fn get_rings(num_rings: usize, excluded_tx_out_indices: &Vec<u64>, num_txos: u64) -> (outcome:
    Result<Vec<Vec<u64>>, WalletTransactionBuilderError>)
    requires
        RING_SIZE * num_rings <= usize::MAX,
    ensures
        outcome is Ok <==> excluded_tx_out_indices.len() <= num_txos && RING_SIZE * num_rings
            <= num_txos - excluded_tx_out_indices.len(),
        match outcome {
            Ok(rings) => {
                &&& excluded_tx_out_indices.len() <= num_txos
                &&& RING_SIZE * num_rings <= num_txos - excluded_tx_out_indices.len()
                &&& are_sampled_rings(
                    rings.deep_view(),
                    num_rings as nat,
                    excluded_tx_out_indices@,
                    num_txos,
                )
            },
            Err(WalletTransactionBuilderError::InvalidArgument(message)) => {
                &&& excluded_tx_out_indices.len() > num_txos
                &&& message@ == excluded_exceeds_ledger()
            },
            Err(WalletTransactionBuilderError::InsufficientTxOuts) => {
                &&& excluded_tx_out_indices.len() <= num_txos
                &&& RING_SIZE * num_rings > num_txos - excluded_tx_out_indices.len()
            },
            Err(_) => false,
        },
{
    let num_requested: usize = RING_SIZE * num_rings;
    if excluded_tx_out_indices.len() as u64 > num_txos {
        return Err(
            WalletTransactionBuilderError::InvalidArgument(
                "excluded_tx_out_indices exceeds amount of tx outs in ledger".to_owned(),
            ),
        );
    }
    if num_requested as u64 > num_txos - excluded_tx_out_indices.len() as u64 {
        return Err(WalletTransactionBuilderError::InsufficientTxOuts);
    }
    let sampled: Vec<u64> = sample_indices(num_requested, excluded_tx_out_indices, num_txos);
    let rings: Vec<Vec<u64>> = deal_rings(&sampled, num_rings);
    proof {
        let dealt = rings.deep_view();
        assert forall|a: int| 0 <= a < dealt.len() implies (#[trigger] dealt[a]) == rings[a]@ by {}
        assert forall|a: int, i: int|
            0 <= a < dealt.len() && 0 <= i < dealt[a].len() implies (#[trigger] dealt[a][i])
            < num_txos && !excluded_tx_out_indices@.contains(dealt[a][i]) by {
            assert(rings[a][i] == sampled[a * RING_SIZE + i]);
        }
        assert forall|a: int, i: int, b: int, j: int|
            0 <= a < dealt.len() && 0 <= i < dealt[a].len() && 0 <= b < dealt.len() && 0 <= j
                < dealt[b].len() && (a != b || i != j) implies #[trigger] dealt[a][i]
            != #[trigger] dealt[b][j] by {
            assert(rings[a][i] == sampled[a * RING_SIZE + i]);
            assert(rings[b][j] == sampled[b * RING_SIZE + j]);
            assert(a * RING_SIZE + i != b * RING_SIZE + j);
        }
    }
    Ok(rings)
}

} // verus!
