//! Adaptive threshold selection: the cut at the widest gap between ranked scores.
//!
//! Scores and thresholds are unsigned fixed-point numbers in one unit;
//! `config::SCORE_ONE` is the score of a confidence of 1.

use vstd::prelude::*;
use vstd::relations::sorted_by;
use crate::ranking::{lemma_ranked_is_sorted_permutation, lemma_ranked_of_permutation, rank, ranked, ranking, Ranked};

verus! {

/// Scores rank from high to low.
impl Ranked for u64 {
    open spec fn precedes(self, other: Self) -> bool {
        self >= other
    }

    fn comes_before(&self, other: &Self) -> (b: bool) {
        *self >= *other
    }

    proof fn precedes_is_total() {
    }
}

/// The drop from the score at `k` to the next one.
pub open spec fn gap(d: Seq<u64>, k: int) -> int {
    d[k] - d[k + 1]
}

/// `k` is the first position of `d` with the largest drop to its successor.
pub open spec fn is_widest_gap(d: Seq<u64>, k: int) -> bool {
    &&& 0 <= k < d.len() - 1
    &&& forall|j: int| 0 <= j < d.len() - 1 ==> #[trigger] gap(d, j) <= gap(d, k)
    &&& forall|j: int| 0 <= j < k ==> #[trigger] gap(d, j) < gap(d, k)
}

/// The midpoint, rounded down, of the two scores on either side of `k`.
pub open spec fn midpoint(d: Seq<u64>, k: int) -> int {
    (d[k] + d[k + 1]) / 2
}

/// The adaptive threshold of a list of scores: with the scores ranked from
/// high to low, the midpoint of the first widest gap between neighbours.
/// Fewer than two scores have no gap, and the threshold is 0.
pub open spec fn mcut(scores: Seq<u64>) -> int {
    if scores.len() < 2 {
        0
    } else {
        let d = ranked(scores);
        midpoint(d, choose|k: int| is_widest_gap(d, k))
    }
}

/// At most one position is the first widest gap.
pub proof fn lemma_widest_gap_unique(d: Seq<u64>, k1: int, k2: int)
    requires
        is_widest_gap(d, k1),
        is_widest_gap(d, k2),
    ensures
        k1 == k2,
{
    if k1 < k2 {
        assert(gap(d, k1) < gap(d, k2));
        assert(gap(d, k1) <= gap(d, k1));
    } else if k2 < k1 {
        assert(gap(d, k2) < gap(d, k1));
        assert(gap(d, k2) <= gap(d, k2));
    }
}

/// The adaptive threshold does not depend on the order in which the scores
/// are listed.
pub proof fn lemma_mcut_permutation_invariant(a: Seq<u64>, b: Seq<u64>)
    requires
        a.to_multiset() == b.to_multiset(),
    ensures
        mcut(a) == mcut(b),
{
    vstd::seq_lib::to_multiset_len(a);
    vstd::seq_lib::to_multiset_len(b);
    lemma_ranked_of_permutation(a, b);
}

/// The adaptive threshold lies between the two scores at its gap: no higher
/// than the upper one, no lower than the lower one.
pub proof fn lemma_mcut_between(scores: Seq<u64>, k: int)
    requires
        scores.len() >= 2,
        is_widest_gap(ranked(scores), k),
    ensures
        mcut(scores) == midpoint(ranked(scores), k),
        ranked(scores)[k + 1] <= mcut(scores) <= ranked(scores)[k],
{
    let d = ranked(scores);
    lemma_ranked_is_sorted_permutation(scores);
    let c = choose|c: int| is_widest_gap(d, c);
    lemma_widest_gap_unique(d, c, k);
    assert(ranking::<u64>()(d[k], d[k + 1]));
}

/// Computes the adaptive threshold of `prediction`.
pub fn mcut_threshold(prediction: &Vec<u64>) -> (t: u64)
    ensures
        t == mcut(prediction@),
        prediction.len() < 2 ==> t == 0,
        prediction.len() >= 2 ==> exists|k: int|
            is_widest_gap(ranked(prediction@), k) && t == midpoint(ranked(prediction@), k),
{
    if prediction.len() < 2 {
        return 0;
    }
    let sorted = rank(prediction);
    proof {
        lemma_ranked_is_sorted_permutation(prediction@);
    }
    let mut best: usize = 0;
    let mut best_gap: u64 = 0;
    let mut k: usize = 0;
    let last: usize = sorted.len() - 1;
    while k < last
        invariant
            sorted@ == ranked(prediction@),
            sorted_by(sorted@, ranking::<u64>()),
            last == sorted@.len() - 1,
            last >= 1,
            k <= last,
            k == 0 ==> best == 0 && best_gap == 0,
            k > 0 ==> best < k && best_gap == gap(sorted@, best as int),
            forall|j: int| 0 <= j < k ==> #[trigger] gap(sorted@, j) <= best_gap,
            forall|j: int| 0 <= j < best ==> #[trigger] gap(sorted@, j) < best_gap,
        decreases last - k,
    {
        assert(ranking::<u64>()(sorted@[k as int], sorted@[k + 1]));
        let g: u64 = sorted[k] - sorted[k + 1];
        assert(g == gap(sorted@, k as int));
        if k == 0 || g > best_gap {
            best = k;
            best_gap = g;
        }
        k += 1;
    }
    assert(is_widest_gap(sorted@, best as int));
    proof {
        lemma_mcut_between(prediction@, best as int);
    }
    let hi: u64 = sorted[best];
    let lo: u64 = sorted[best + 1];
    lo + (hi - lo) / 2
}

} // verus!
