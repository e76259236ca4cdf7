//! Rings: the real input of a transaction among its decoys.

use vstd::prelude::*;
use crate::txo::bytes_equal;

verus! {

/// The number of members of every ring.
pub const RING_SIZE: usize = 11;

/// One member of a ring: a ledger output with the proof that the ledger holds it.
#[derive(Debug, PartialEq, Eq)]
pub struct RingMember {
    /// The output, serialized.
    pub tx_out: Vec<u8>,
    /// The proof of membership, serialized.
    pub membership_proof: Vec<u8>,
}

/// What a [`RingMember`] holds.
pub struct RingMemberView {
    pub tx_out: Seq<u8>,
    pub membership_proof: Seq<u8>,
}

impl View for RingMember {
    type V = RingMemberView;

    open spec fn view(&self) -> RingMemberView {
        RingMemberView { tx_out: self.tx_out@, membership_proof: self.membership_proof@ }
    }
}

impl DeepView for RingMember {
    type V = RingMemberView;

    open spec fn deep_view(&self) -> RingMemberView {
        self@
    }
}

impl Clone for RingMember {
    fn clone(&self) -> (copy: Self)
        ensures
            copy@ == self@,
    {
        RingMember { tx_out: self.tx_out.clone(), membership_proof: self.membership_proof.clone() }
    }
}

/// The first place in `ring` that holds the output `tx_out`; the ring's length
/// if none does.
pub open spec fn first_position(ring: Seq<RingMemberView>, tx_out: Seq<u8>) -> int
    decreases ring.len(),
{
    if ring.len() == 0 || ring[0].tx_out == tx_out {
        0
    } else {
        1 + first_position(ring.drop_first(), tx_out)
    }
}

/// In how many places `ring` holds the output `tx_out`.
pub open spec fn occurrences(ring: Seq<RingMemberView>, tx_out: Seq<u8>) -> nat
    decreases ring.len(),
{
    if ring.len() == 0 {
        0
    } else {
        occurrences(ring.drop_last(), tx_out) + if ring.last().tx_out == tx_out {
            1nat
        } else {
            0nat
        }
    }
}

/// The ring that is signed for a real input: `ring` as it is where it holds
/// the real output already; else `ring` with the real output in its first
/// place, appended where the ring is empty.
pub open spec fn merged_ring(ring: Seq<RingMemberView>, input: RingMemberView) -> Seq<
    RingMemberView,
> {
    if first_position(ring, input.tx_out) < ring.len() {
        ring
    } else if ring.len() == 0 {
        seq![input]
    } else {
        ring.update(0, input)
    }
}

/// The place of the real output in [`merged_ring`].
pub open spec fn real_position(ring: Seq<RingMemberView>, input: RingMemberView) -> int {
    if first_position(ring, input.tx_out) < ring.len() {
        first_position(ring, input.tx_out)
    } else {
        0
    }
}

/// The first position is the one place that holds the output with none before it.
pub proof fn lemma_first_position(ring: Seq<RingMemberView>, tx_out: Seq<u8>, p: int)
    requires
        0 <= p <= ring.len(),
        forall|j: int| 0 <= j < p ==> ring[j].tx_out != tx_out,
        p < ring.len() ==> ring[p].tx_out == tx_out,
    ensures
        first_position(ring, tx_out) == p,
    decreases ring.len(),
{
    if ring.len() == 0 || ring[0].tx_out == tx_out {
    } else {
        let rest = ring.drop_first();
        assert forall|j: int| 0 <= j < p - 1 implies rest[j].tx_out != tx_out by {
            assert(rest[j] == ring[j + 1]);
        }
        lemma_first_position(rest, tx_out, p - 1);
    }
}

/// What the first position says of the ring.
pub proof fn lemma_first_position_holds(ring: Seq<RingMemberView>, tx_out: Seq<u8>)
    ensures
        0 <= first_position(ring, tx_out) <= ring.len(),
        forall|j: int| 0 <= j < first_position(ring, tx_out) ==> ring[j].tx_out != tx_out,
        first_position(ring, tx_out) < ring.len() ==> ring[first_position(
            ring,
            tx_out,
        )].tx_out == tx_out,
    decreases ring.len(),
{
    if ring.len() == 0 || ring[0].tx_out == tx_out {
    } else {
        let rest = ring.drop_first();
        lemma_first_position_holds(rest, tx_out);
        assert forall|j: int| 0 <= j < first_position(ring, tx_out) implies ring[j].tx_out
            != tx_out by {
            if j > 0 {
                assert(rest[j - 1] == ring[j]);
            }
        }
    }
}

/// A ring that holds the output nowhere has no occurrence of it; one that
/// holds it has at least one.
pub proof fn lemma_occurrences(ring: Seq<RingMemberView>, tx_out: Seq<u8>)
    ensures
        (forall|j: int| 0 <= j < ring.len() ==> ring[j].tx_out != tx_out) <==> occurrences(
            ring,
            tx_out,
        ) == 0,
    decreases ring.len(),
{
    if ring.len() > 0 {
        let head = ring.drop_last();
        lemma_occurrences(head, tx_out);
        if occurrences(ring, tx_out) == 0 {
            assert forall|j: int| 0 <= j < ring.len() implies ring[j].tx_out != tx_out by {
                if j < ring.len() - 1 {
                    assert(head[j] == ring[j]);
                }
            }
        } else if ring.last().tx_out != tx_out {
            let j = choose|j: int| 0 <= j < head.len() && head[j].tx_out == tx_out;
            assert(ring[j].tx_out == tx_out);
        }
    }
}

/// Putting a member in a place changes the count by what left and what came.
pub proof fn lemma_occurrences_update(
    ring: Seq<RingMemberView>,
    at: int,
    member: RingMemberView,
    tx_out: Seq<u8>,
)
    requires
        0 <= at < ring.len(),
    ensures
        occurrences(ring.update(at, member), tx_out) + (if ring[at].tx_out == tx_out {
            1nat
        } else {
            0nat
        }) == occurrences(ring, tx_out) + (if member.tx_out == tx_out {
            1nat
        } else {
            0nat
        }),
    decreases ring.len(),
{
    let changed = ring.update(at, member);
    if at == ring.len() - 1 {
        assert(changed.drop_last() =~= ring.drop_last());
    } else {
        assert(changed.drop_last() =~= ring.drop_last().update(at, member));
        lemma_occurrences_update(ring.drop_last(), at, member, tx_out);
    }
}

/// A ring of the ring size stays one when the real input is merged into it,
/// the real output stands at the real position, and a ring that held the real
/// output at most once holds it exactly once afterwards.
pub proof fn lemma_ring_integrity(ring: Seq<RingMemberView>, input: RingMemberView)
    ensures
        ring.len() > 0 ==> merged_ring(ring, input).len() == ring.len(),
        ring.len() == RING_SIZE ==> merged_ring(ring, input).len() == RING_SIZE,
        0 <= real_position(ring, input) < merged_ring(ring, input).len(),
        merged_ring(ring, input)[real_position(ring, input)].tx_out == input.tx_out,
        occurrences(ring, input.tx_out) <= 1 ==> occurrences(merged_ring(ring, input), input.tx_out)
            == 1,
{
    lemma_first_position_holds(ring, input.tx_out);
    lemma_occurrences(ring, input.tx_out);
    if first_position(ring, input.tx_out) < ring.len() {
        assert(ring[first_position(ring, input.tx_out)].tx_out == input.tx_out);
    } else if ring.len() == 0 {
        assert(seq![input].drop_last() =~= Seq::<RingMemberView>::empty());
        assert(occurrences(Seq::<RingMemberView>::empty(), input.tx_out) == 0);
    } else {
        lemma_occurrences_update(ring, 0, input, input.tx_out);
    }
}

/// Merging the real input into a ring brings no other output into it.
pub proof fn lemma_merged_ring_others(
    ring: Seq<RingMemberView>,
    input: RingMemberView,
    other: Seq<u8>,
)
    requires
        other != input.tx_out,
    ensures
        occurrences(merged_ring(ring, input), other) <= occurrences(ring, other),
{
    if first_position(ring, input.tx_out) < ring.len() {
    } else if ring.len() == 0 {
        assert(seq![input].drop_last() =~= Seq::<RingMemberView>::empty());
        assert(occurrences(Seq::<RingMemberView>::empty(), other) == 0);
    } else {
        lemma_occurrences_update(ring, 0, input, other);
    }
}

/// In how many places `ring` holds the output `tx_out`.
pub fn count_occurrences(ring: &Vec<RingMember>, tx_out: &Vec<u8>) -> (count: usize)
    ensures
        count == occurrences(ring.deep_view(), tx_out@),
{
    let ghost members = ring.deep_view();
    let mut count: usize = 0;
    let mut i: usize = 0;
    while i < ring.len()
        invariant
            i <= ring.len(),
            members == ring.deep_view(),
            count == occurrences(members.take(i as int), tx_out@),
            count <= i,
        decreases ring.len() - i,
    {
        proof {
            assert(members.take(i + 1).drop_last() =~= members.take(i as int));
            assert(members.take(i + 1).last() == ring[i as int]@);
        }
        if bytes_equal(&ring[i].tx_out, tx_out) {
            count = count + 1;
        }
        i = i + 1;
    }
    proof {
        assert(members.take(i as int) =~= members);
    }
    count
}

/// Merges the real input into its ring and returns the place where it stands.
pub fn merge_real_input(ring: &mut Vec<RingMember>, input: RingMember) -> (real_index: usize)
    ensures
        final(ring).deep_view() == merged_ring(old(ring).deep_view(), input@),
        real_index == real_position(old(ring).deep_view(), input@),
        real_index < final(ring).len(),
{
    let ghost before = ring.deep_view();
    let mut p: usize = 0;
    while p < ring.len() && !bytes_equal(&ring[p].tx_out, &input.tx_out)
        invariant
            p <= ring.len(),
            ring.deep_view() == before,
            forall|j: int| 0 <= j < p ==> before[j].tx_out != input@.tx_out,
        decreases ring.len() - p,
    {
        assert(before[p as int] == ring[p as int]@);
        p = p + 1;
    }
    proof {
        if p < ring.len() {
            assert(before[p as int] == ring[p as int]@);
        }
        lemma_first_position(before, input@.tx_out, p as int);
    }
    if p < ring.len() {
        p
    } else if ring.len() == 0 {
        ring.push(input);
        assert(ring.deep_view() =~= seq![input@]);
        0
    } else {
        let ghost old_ring = ring@;
        ring.set(0, input);
        proof {
            assert forall|j: int| 0 <= j < ring.len() implies #[trigger] ring.deep_view()[j]
                == before.update(0, input@)[j] by {
                if j > 0 {
                    assert(ring[j] == old_ring[j]);
                    assert(before[j] == old_ring[j]@);
                }
            }
            assert(ring.deep_view() =~= before.update(0, input@));
        }
        0
    }
}

} // verus!
