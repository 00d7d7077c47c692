//! Sorting by a total order that the element type declares.

use vstd::prelude::*;
use vstd::relations::{sorted_by, total_ordering};
use vstd::seq_lib::lemma_sorted_unique;

verus! {

/// A type whose values rank in one fixed total order.
pub trait Ranked: Sized + Copy {
    /// `self` ranks at or before `other`.
    spec fn precedes(self, other: Self) -> bool;

    /// Decides `precedes`.
    fn comes_before(&self, other: &Self) -> (b: bool)
        ensures
            b == self.precedes(*other),
    ;

    /// `precedes` is reflexive, antisymmetric, transitive and total.
    proof fn precedes_is_total()
        ensures
            forall|a: Self| #[trigger] a.precedes(a),
            forall|a: Self, b: Self| #[trigger] a.precedes(b) && #[trigger] b.precedes(a) ==> a == b,
            forall|a: Self, b: Self, c: Self| #[trigger]
                a.precedes(b) && #[trigger] b.precedes(c) ==> a.precedes(c),
            forall|a: Self, b: Self| #[trigger] a.precedes(b) || #[trigger] b.precedes(a),
    ;
}

/// The order of `T` as a relation.
pub open spec fn ranking<T: Ranked>() -> spec_fn(T, T) -> bool {
    |a: T, b: T| a.precedes(b)
}

/// The order of `T` is a total order.
pub proof fn lemma_ranking_is_total<T: Ranked>()
    ensures
        total_ordering(ranking::<T>()),
{
    T::precedes_is_total();
    let r = ranking::<T>();
    assert forall|a: T| #[trigger] r(a, a) by {
        assert(a.precedes(a));
    }
    assert forall|a: T, b: T| #[trigger] r(a, b) && #[trigger] r(b, a) implies a == b by {
        assert(a.precedes(b) && b.precedes(a));
    }
    assert forall|a: T, b: T, c: T| #[trigger] r(a, b) && #[trigger] r(b, c) implies r(a, c) by {
        assert(a.precedes(b) && b.precedes(c));
    }
    assert forall|a: T, b: T| #[trigger] r(a, b) || #[trigger] r(b, a) by {
        assert(a.precedes(b) || b.precedes(a));
    }
}

/// The one arrangement of `s` in which every element precedes those after it.
pub open spec fn ranked<T: Ranked>(s: Seq<T>) -> Seq<T> {
    s.sort_by(ranking::<T>())
}

/// `ranked(s)` is in order and holds the elements of `s`, each as often as `s` does.
pub proof fn lemma_ranked_is_sorted_permutation<T: Ranked>(s: Seq<T>)
    ensures
        sorted_by(ranked(s), ranking::<T>()),
        ranked(s).to_multiset() == s.to_multiset(),
        ranked(s).len() == s.len(),
{
    lemma_ranking_is_total::<T>();
    s.lemma_sort_by_ensures(ranking::<T>());
    vstd::seq_lib::to_multiset_len(s);
    vstd::seq_lib::to_multiset_len(ranked(s));
}

/// Ranking forgets the order in which the elements came.
pub proof fn lemma_ranked_of_permutation<T: Ranked>(a: Seq<T>, b: Seq<T>)
    requires
        a.to_multiset() == b.to_multiset(),
    ensures
        ranked(a) == ranked(b),
{
    lemma_ranking_is_total::<T>();
    lemma_ranked_is_sorted_permutation(a);
    lemma_ranked_is_sorted_permutation(b);
    lemma_sorted_unique(ranked(a), ranked(b), ranking::<T>());
}

/// A sequence that is in order and holds the elements of `s` is `ranked(s)`.
pub proof fn lemma_ranked_unique<T: Ranked>(s: Seq<T>, out: Seq<T>)
    requires
        sorted_by(out, ranking::<T>()),
        out.to_multiset() == s.to_multiset(),
    ensures
        out == ranked(s),
{
    lemma_ranking_is_total::<T>();
    lemma_ranked_is_sorted_permutation(s);
    lemma_sorted_unique(out, ranked(s), ranking::<T>());
}

/// Merges two lists that are each in order into one that is.
fn merge<T: Ranked>(left: &Vec<T>, right: &Vec<T>) -> (out: Vec<T>)
    requires
        sorted_by(left@, ranking::<T>()),
        sorted_by(right@, ranking::<T>()),
    ensures
        sorted_by(out@, ranking::<T>()),
        out@.to_multiset() == left@.to_multiset().add(right@.to_multiset()),
{
    let mut out: Vec<T> = Vec::with_capacity(left.len());
    let mut i: usize = 0;
    let mut j: usize = 0;
    proof {
        lemma_ranking_is_total::<T>();
        assert(left@.take(0) =~= out@);
        assert(right@.take(0) =~= out@);
        vstd::seq_lib::lemma_multiset_commutative(out@, out@);
        assert(out@ + out@ =~= out@);
    }
    while i < left.len() || j < right.len()
        invariant
            i <= left@.len(),
            j <= right@.len(),
            total_ordering(ranking::<T>()),
            sorted_by(left@, ranking::<T>()),
            sorted_by(right@, ranking::<T>()),
            sorted_by(out@, ranking::<T>()),
            out@.to_multiset() == left@.take(i as int).to_multiset().add(
                right@.take(j as int).to_multiset(),
            ),
            forall|k: int| 0 <= k < out@.len() && i < left@.len() ==> (#[trigger] out@[k]).precedes(left@[i as int]),
            forall|k: int| 0 <= k < out@.len() && j < right@.len() ==> (#[trigger] out@[k]).precedes(right@[j as int]),
        decreases left@.len() - i + right@.len() - j,
    {
        let from_left: bool = if j >= right.len() {
            true
        } else if i >= left.len() {
            false
        } else {
            left[i].comes_before(&right[j])
        };
        let ghost before = out@;
        if from_left {
            let x: T = left[i];
            out.push(x);
            proof {
                assert(left@.take(i + 1) =~= left@.take(i as int).push(x));
                vstd::seq_lib::to_multiset_build(left@.take(i as int), x);
                vstd::seq_lib::to_multiset_build(before, x);
                assert(out@.to_multiset() =~= left@.take(i + 1).to_multiset().add(
                    right@.take(j as int).to_multiset(),
                ));
                assert forall|k: int| 0 <= k < out@.len() && i + 1 < left@.len() implies (#[trigger] out@[k]).precedes(
                    left@[i + 1],
                ) by {
                    assert(ranking::<T>()(left@[i as int], left@[i + 1]));
                    if k < before.len() {
                        assert(ranking::<T>()(before[k], left@[i as int]));
                    }
                }
                assert forall|k: int| 0 <= k < out@.len() && j < right@.len() implies (#[trigger] out@[k]).precedes(
                    right@[j as int],
                ) by {
                    if k == before.len() {
                        assert(ranking::<T>()(x, right@[j as int]));
                    }
                }
                assert forall|a: int, b: int| 0 <= a < b < out@.len() implies #[trigger] ranking::<
                    T,
                >()(out@[a], out@[b]) by {
                    if b < before.len() {
                        assert(ranking::<T>()(before[a], before[b]));
                    } else {
                        assert(before[a].precedes(x));
                    }
                }
            }
            i += 1;
        } else {
            let x: T = right[j];
            out.push(x);
            proof {
                assert(right@.take(j + 1) =~= right@.take(j as int).push(x));
                vstd::seq_lib::to_multiset_build(right@.take(j as int), x);
                vstd::seq_lib::to_multiset_build(before, x);
                assert(out@.to_multiset() =~= left@.take(i as int).to_multiset().add(
                    right@.take(j + 1).to_multiset(),
                ));
                assert forall|k: int| 0 <= k < out@.len() && j + 1 < right@.len() implies (#[trigger] out@[k]).precedes(
                    right@[j + 1],
                ) by {
                    assert(ranking::<T>()(right@[j as int], right@[j + 1]));
                    if k < before.len() {
                        assert(ranking::<T>()(before[k], right@[j as int]));
                    }
                }
                assert forall|k: int| 0 <= k < out@.len() && i < left@.len() implies (#[trigger] out@[k]).precedes(
                    left@[i as int],
                ) by {
                    if k == before.len() {
                        assert(ranking::<T>()(left@[i as int], x) || ranking::<T>()(
                            x,
                            left@[i as int],
                        ));
                    }
                }
                assert forall|a: int, b: int| 0 <= a < b < out@.len() implies #[trigger] ranking::<
                    T,
                >()(out@[a], out@[b]) by {
                    if b < before.len() {
                        assert(ranking::<T>()(before[a], before[b]));
                    } else {
                        assert(before[a].precedes(x));
                    }
                }
            }
            j += 1;
        }
    }
    proof {
        assert(left@.take(i as int) =~= left@);
        assert(right@.take(j as int) =~= right@);
    }
    out
}

/// Sorts the items from position `from` up to `to`, by merging.
fn rank_range<T: Ranked>(items: &Vec<T>, from: usize, to: usize) -> (out: Vec<T>)
    requires
        from <= to <= items@.len(),
    ensures
        sorted_by(out@, ranking::<T>()),
        out@.to_multiset() == items@.subrange(from as int, to as int).to_multiset(),
    decreases to - from,
{
    if to - from <= 1 {
        let mut out: Vec<T> = Vec::new();
        if from < to {
            out.push(items[from]);
        }
        assert(out@ =~= items@.subrange(from as int, to as int));
        out
    } else {
        let mid: usize = from + (to - from) / 2;
        let left = rank_range(items, from, mid);
        let right = rank_range(items, mid, to);
        proof {
            let a = items@.subrange(from as int, mid as int);
            let b = items@.subrange(mid as int, to as int);
            assert(a + b =~= items@.subrange(from as int, to as int));
            vstd::seq_lib::lemma_multiset_commutative(a, b);
        }
        merge(&left, &right)
    }
}

/// Sorts `items` into their ranking.
pub fn rank<T: Ranked>(items: &Vec<T>) -> (out: Vec<T>)
    ensures
        out@ == ranked(items@),
{
    let out = rank_range(items, 0, items.len());
    proof {
        assert(items@.subrange(0, items@.len() as int) =~= items@);
        lemma_ranked_unique(items@, out@);
    }
    out
}

} // verus!
