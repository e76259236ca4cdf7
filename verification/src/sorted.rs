//! Sets of `u64` kept as strictly increasing sequences.

use vstd::prelude::*;

verus! {

/// Whether every element of `s` is smaller than the one after it.
pub open spec fn strictly_increasing(s: Seq<u64>) -> bool {
    forall|i: int, j: int| 0 <= i < j < s.len() ==> s[i] < s[j]
}

/// Whether `s` lists the members of `set` in ascending order, each once.
pub open spec fn lists_ascending(s: Seq<u64>, set: Set<u64>) -> bool {
    strictly_increasing(s) && s.to_set() == set
}

/// The members of a finite `set` in ascending order.
pub open spec fn ascending(set: Set<u64>) -> Seq<u64> {
    choose|s: Seq<u64>| lists_ascending(s, set)
}

/// A set has at most one ascending listing.
pub proof fn lemma_ascending_unique(a: Seq<u64>, b: Seq<u64>)
    requires
        strictly_increasing(a),
        strictly_increasing(b),
        a.to_set() == b.to_set(),
    ensures
        a == b,
    decreases a.len(),
{
    if a.len() == 0 {
        if b.len() > 0 {
            assert(b.contains(b[0]));
            assert(b.to_set().contains(b[0]));
            assert(a.contains(b[0]));
        }
        assert(a =~= b);
    } else {
        let top = a.last();
        assert(a.contains(a[a.len() - 1]));
        assert(a.to_set().contains(top));
        assert(b.contains(top));
        let k = choose|k: int| 0 <= k < b.len() && b[k] == top;
        if k < b.len() - 1 {
            let above = b[b.len() - 1];
            assert(b.contains(above));
            assert(b.to_set().contains(above));
            assert(a.contains(above));
            let m = choose|m: int| 0 <= m < a.len() && a[m] == above;
            assert(a[m] <= top);
        }
        let a0 = a.drop_last();
        let b0 = b.drop_last();
        assert forall|x: u64| a0.to_set().contains(x) <==> b0.to_set().contains(x) by {
            if a0.contains(x) {
                let i = choose|i: int| 0 <= i < a0.len() && a0[i] == x;
                assert(a[i] == x);
                assert(a.contains(x));
                assert(a.to_set().contains(x));
                assert(b.contains(x));
                let j = choose|j: int| 0 <= j < b.len() && b[j] == x;
                assert(b0[j] == x);
            }
            if b0.contains(x) {
                let i = choose|i: int| 0 <= i < b0.len() && b0[i] == x;
                assert(b[i] == x);
                assert(b.contains(x));
                assert(b.to_set().contains(x));
                assert(a.contains(x));
                let j = choose|j: int| 0 <= j < a.len() && a[j] == x;
                assert(a0[j] == x);
            }
        }
        assert(a0.to_set() =~= b0.to_set());
        lemma_ascending_unique(a0, b0);
        assert(a =~= a0.push(top));
        assert(b =~= b0.push(top));
    }
}

/// An ascending listing of a set is the ascending listing of it.
pub proof fn lemma_ascending_is(s: Seq<u64>, set: Set<u64>)
    requires
        lists_ascending(s, set),
    ensures
        ascending(set) == s,
{
    lemma_ascending_unique(ascending(set), s);
}

/// The number of elements of the strictly increasing `s` that are below `x`:
/// the place where `x` stands, or would stand, in `s`.
pub open spec fn rank_of(s: Seq<u64>, x: u64) -> int
    decreases s.len(),
{
    if s.len() == 0 || s[0] >= x {
        0
    } else {
        1 + rank_of(s.drop_first(), x)
    }
}

/// The rank is the one place that parts the elements below `x` from the others.
pub proof fn lemma_rank_of(s: Seq<u64>, x: u64, p: int)
    requires
        0 <= p <= s.len(),
        forall|j: int| 0 <= j < p ==> s[j] < x,
        p < s.len() ==> s[p] >= x,
    ensures
        rank_of(s, x) == p,
    decreases s.len(),
{
    if s.len() == 0 || s[0] >= x {
    } else {
        let rest = s.drop_first();
        assert forall|j: int| 0 <= j < p - 1 implies rest[j] < x by {
            assert(rest[j] == s[j + 1]);
        }
        lemma_rank_of(rest, x, p - 1);
    }
}

/// Where `x` stands, or would stand, in the strictly increasing `v`.
pub fn find_rank(v: &Vec<u64>, x: u64) -> (p: usize)
    ensures
        p == rank_of(v@, x),
        p <= v.len(),
        forall|j: int| 0 <= j < p ==> v[j] < x,
        p < v.len() ==> v[p as int] >= x,
{
    let mut p: usize = 0;
    while p < v.len() && v[p] < x
        invariant
            p <= v.len(),
            forall|j: int| 0 <= j < p ==> v[j] < x,
        decreases v.len() - p,
    {
        p = p + 1;
    }
    proof {
        lemma_rank_of(v@, x, p as int);
    }
    p
}

/// Whether the strictly increasing `v` holds `x`.
pub fn holds(v: &Vec<u64>, x: u64) -> (found: bool)
    requires
        strictly_increasing(v@),
    ensures
        found == v@.contains(x),
{
    let p: usize = find_rank(v, x);
    if p < v.len() && v[p] == x {
        true
    } else {
        proof {
            if v@.contains(x) {
                let k = choose|k: int| 0 <= k < v.len() && v[k] == x;
                assert(k >= p);
            }
        }
        false
    }
}

/// Adds `x` to the set that the strictly increasing `v` lists. Returns whether
/// `x` was new.
pub fn insert_sorted(v: &mut Vec<u64>, x: u64) -> (added: bool)
    requires
        strictly_increasing(old(v)@),
    ensures
        strictly_increasing(final(v)@),
        final(v)@.to_set() == old(v)@.to_set().insert(x),
        added == !old(v)@.contains(x),
        final(v).len() == old(v).len() + if added {
            1int
        } else {
            0int
        },
        added ==> final(v)@ == old(v)@.insert(rank_of(old(v)@, x), x),
        !added ==> final(v)@ == old(v)@,
{
    let p: usize = find_rank(v, x);
    if p < v.len() && v[p] == x {
        proof {
            assert(v@.contains(x));
            assert(v@.to_set().insert(x) =~= v@.to_set());
        }
        false
    } else {
        let ghost before = v@;
        proof {
            if before.contains(x) {
                let k = choose|k: int| 0 <= k < before.len() && before[k] == x;
                assert(k >= p);
            }
        }
        v.insert(p, x);
        proof {
            let after = v@;
            assert forall|i: int, j: int| 0 <= i < j < after.len() implies after[i] < after[j] by {
                if j < p {
                    assert(after[i] == before[i] && after[j] == before[j]);
                } else if j == p {
                    assert(after[i] == before[i]);
                } else if i < p {
                    assert(after[i] == before[i] && after[j] == before[j - 1]);
                } else if i == p {
                    assert(after[j] == before[j - 1]);
                    assert(before[p as int] >= x);
                    assert(p as int <= j - 1);
                } else {
                    assert(after[i] == before[i - 1] && after[j] == before[j - 1]);
                }
            }
            assert forall|y: u64| after.to_set().contains(y) <==> before.to_set().insert(
                x,
            ).contains(y) by {
                if after.contains(y) {
                    let k = choose|k: int| 0 <= k < after.len() && after[k] == y;
                    if k < p {
                        assert(before[k] == y);
                    } else if k > p {
                        assert(before[k - 1] == y);
                    }
                }
                if before.contains(y) {
                    let k = choose|k: int| 0 <= k < before.len() && before[k] == y;
                    if k < p {
                        assert(after[k] == y);
                    } else {
                        assert(after[k + 1] == y);
                    }
                }
                if y == x {
                    assert(after[p as int] == x);
                }
            }
            assert(after.to_set() =~= before.to_set().insert(x));
        }
        true
    }
}

} // verus!
