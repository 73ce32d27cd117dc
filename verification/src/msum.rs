//! Sums of an integer-valued function over multisets and sequences.
//!
//! The quadtree laws speak about the total of some quantity (a mass, a
//! weighted coordinate, a force contribution) over an unordered collection
//! of aggregates.  This module defines that total and proves the facts the
//! laws need: the total is insensitive to the order in which elements are
//! taken, and a sequence and its multiset have the same total.
use vstd::prelude::*;

verus! {

use vstd::multiset::Multiset;

/// Sum of `f` over all elements of the multiset `s`, with multiplicity.
pub open spec fn msum<A>(s: Multiset<A>, f: spec_fn(A) -> int) -> int
    decreases s.len(),
    when s.len() >= 0
    via msum_decreases::<A>
{
    if s.len() == 0 {
        0
    } else {
        f(s.choose()) + msum(s.remove(s.choose()), f)
    }
}

#[via_fn]
proof fn msum_decreases<A>(s: Multiset<A>, f: spec_fn(A) -> int) {
    broadcast use vstd::multiset::group_multiset_axioms;

    if s.len() != 0 {
        vstd::multiset::lemma_multiset_empty_len::<A>(s);
        assert(s.contains(s.choose()));
        assert(s.remove(s.choose()).len() < s.len());
    }
}

/// Removing one occurrence of a contained element takes away exactly its
/// summand, no matter which element is removed first.
pub proof fn lemma_msum_remove<A>(s: Multiset<A>, f: spec_fn(A) -> int, b: A)
    requires
        s.contains(b),
    ensures
        msum(s, f) == f(b) + msum(s.remove(b), f),
    decreases s.len(),
{
    broadcast use vstd::multiset::group_multiset_axioms;

    vstd::multiset::lemma_multiset_empty_len::<A>(s);
    assert(s.len() > 0);
    let c = s.choose();
    assert(s.contains(c));
    if c == b {
        assert(msum(s, f) == f(b) + msum(s.remove(b), f));
    } else {
        assert(s.remove(c).contains(b));
        lemma_msum_remove(s.remove(c), f, b);
        assert(s.remove(b).contains(c));
        lemma_msum_remove(s.remove(b), f, c);
        assert(s.remove(c).remove(b) =~= s.remove(b).remove(c));
        assert(msum(s, f) == f(c) + msum(s.remove(c), f));
    }
}

/// Inserting an element adds exactly its summand.
pub proof fn lemma_msum_insert<A>(s: Multiset<A>, f: spec_fn(A) -> int, a: A)
    ensures
        msum(s.insert(a), f) == msum(s, f) + f(a),
{
    broadcast use vstd::multiset::group_multiset_axioms;

    assert(s.insert(a).contains(a));
    lemma_msum_remove(s.insert(a), f, a);
    assert(s.insert(a).remove(a) =~= s);
}

/// The sum over a union of multisets is the sum of the two sums.
pub proof fn lemma_msum_add<A>(s1: Multiset<A>, s2: Multiset<A>, f: spec_fn(A) -> int)
    ensures
        msum(s1.add(s2), f) == msum(s1, f) + msum(s2, f),
    decreases s2.len(),
{
    broadcast use vstd::multiset::group_multiset_axioms;

    if s2.len() == 0 {
        assert(s2 =~= Multiset::empty()) by {
            vstd::multiset::lemma_multiset_empty_len::<A>(s2);
        }
        assert(s1.add(s2) =~= s1);
    } else {
        vstd::multiset::lemma_multiset_empty_len::<A>(s2);
        let b = s2.choose();
        assert(s2.contains(b));
        lemma_msum_remove(s2, f, b);
        lemma_msum_add(s1, s2.remove(b), f);
        assert(s1.add(s2.remove(b)).insert(b) =~= s1.add(s2));
        lemma_msum_insert(s1.add(s2.remove(b)), f, b);
    }
}


/// A multiset whose elements all weigh at least one has no more elements
/// than its total weight.
pub proof fn lemma_len_le_msum<A>(s: Multiset<A>, f: spec_fn(A) -> int)
    requires
        forall|a: A| #[trigger] s.contains(a) ==> f(a) >= 1,
    ensures
        s.len() <= msum(s, f),
    decreases s.len(),
{
    broadcast use vstd::multiset::group_multiset_axioms;

    if s.len() == 0 {
    } else {
        vstd::multiset::lemma_multiset_empty_len::<A>(s);
        let a = s.choose();
        assert(s.contains(a));
        lemma_msum_remove(s, f, a);
        assert forall|b: A| #[trigger] s.remove(a).contains(b) implies f(b) >= 1 by {
            assert(s.contains(b));
        }
        lemma_len_le_msum(s.remove(a), f);
    }
}

/// Sum of `f` over a sequence, taken back to front.
pub open spec fn seq_sum<A>(s: Seq<A>, f: spec_fn(A) -> int) -> int
    decreases s.len(),
{
    if s.len() == 0 {
        0
    } else {
        seq_sum(s.drop_last(), f) + f(s.last())
    }
}

/// A sequence and its multiset have the same sum; hence any two sequences
/// that are permutations of each other have equal sums.
pub proof fn lemma_seq_sum_is_msum<A>(s: Seq<A>, f: spec_fn(A) -> int)
    ensures
        seq_sum(s, f) == msum(s.to_multiset(), f),
    decreases s.len(),
{
    broadcast use vstd::multiset::group_multiset_axioms;
    broadcast use vstd::seq_lib::group_to_multiset_ensures;

    if s.len() == 0 {
        assert(s.to_multiset().len() == 0);
    } else {
        let s0 = s.drop_last();
        lemma_seq_sum_is_msum(s0, f);
        assert(s =~= s0.push(s.last()));
        assert(s0.push(s.last()).to_multiset() =~= s0.to_multiset().insert(s.last()));
        lemma_msum_insert(s0.to_multiset(), f, s.last());
    }
}

} // verus!
