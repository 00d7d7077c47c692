//! Putting results that finished in any order back into the order of the
//! work they belong to.

use vstd::prelude::*;
use vstd::relations::sorted_by;
use crate::ranking::{lemma_ranked_is_sorted_permutation, lemma_ranked_unique, ranked, ranking, Ranked};

verus! {

/// A result as it came in: the position of its work item in the batch, and
/// its own position among the results.
#[derive(Clone, Copy, Debug)]
pub struct Arrival {
    pub tag: usize,
    pub position: usize,
}

/// Arrivals rank by tag; those with one tag rank as they came.
impl Ranked for Arrival {
    open spec fn precedes(self, other: Self) -> bool {
        self.tag < other.tag || (self.tag == other.tag && self.position <= other.position)
    }

    fn comes_before(&self, other: &Self) -> (b: bool) {
        self.tag < other.tag || (self.tag == other.tag && self.position <= other.position)
    }

    proof fn precedes_is_total() {
    }
}

/// The arrivals of a list of tagged results.
pub open spec fn arrivals<T>(tagged: Seq<(usize, T)>) -> Seq<Arrival> {
    Seq::new(tagged.len(), |j: int| Arrival { tag: tagged[j].0, position: j as usize })
}

/// The results in the order of their tags, those with one tag in the order
/// in which they came.
pub open spec fn restored<T>(tagged: Seq<(usize, T)>) -> Seq<T> {
    let order = ranked(arrivals(tagged));
    Seq::new(tagged.len(), |i: int| tagged[order[i].position as int].1)
}

/// The tags are the numbers from 0 up to the number of results, each once.
pub open spec fn tags_are_positions<T>(tagged: Seq<(usize, T)>) -> bool {
    &&& forall|j: int| 0 <= j < tagged.len() ==> (#[trigger] tagged[j]).0 < tagged.len()
    &&& forall|i: int, j: int|
        0 <= i < j < tagged.len() ==> (#[trigger] tagged[i]).0 != (#[trigger] tagged[j]).0
}

/// What the loop of `restore_order` knows of the result it has put at `i`.
spec fn is_placed_arrival<T>(
    arr: Seq<Arrival>,
    keys: Seq<usize>,
    items: Seq<T>,
    orig: Seq<(usize, T)>,
    left: int,
    i: int,
) -> bool {
    &&& keys[i] == arr[i].tag
    &&& left <= arr[i].position < orig.len()
    &&& arr[i] == arrivals(orig)[arr[i].position as int]
    &&& items[i] == orig[arr[i].position as int].1
}

/// Orders results by the tag each carries and drops the tags. Results with
/// one tag stay in the order in which they came. Where the tags are the
/// positions 0, 1, 2 and so on, each once, every result ends up at the
/// position it carries.
pub fn restore_order<T>(tagged: Vec<(usize, T)>) -> (out: Vec<T>)
    ensures
        out@ == restored(tagged@),
        out@.len() == tagged@.len(),
        tags_are_positions(tagged@) ==> forall|j: int|
            0 <= j < tagged@.len() ==> out@[(#[trigger] tagged@[j]).0 as int] == tagged@[j].1,
{
    let mut tagged = tagged;
    let ghost orig = tagged@;
    let count: usize = tagged.len();
    let ghost all = arrivals(orig);
    let mut keys: Vec<usize> = Vec::with_capacity(count);
    let mut items: Vec<T> = Vec::with_capacity(count);
    let ghost mut arr: Seq<Arrival> = Seq::empty();
    proof {
        assert(orig.take(orig.len() as int) =~= orig);
        assert(all.skip(orig.len() as int) =~= arr);
    }
    while tagged.len() > 0
        invariant
            tagged@.len() <= orig.len(),
            tagged@ == orig.take(tagged@.len() as int),
            all == arrivals(orig),
            arr.len() == orig.len() - tagged@.len(),
            keys@.len() == arr.len(),
            items@.len() == arr.len(),
            sorted_by(arr, ranking::<Arrival>()),
            arr.to_multiset() == all.skip(tagged@.len() as int).to_multiset(),
            forall|i: int|
                0 <= i < arr.len() ==> #[trigger] is_placed_arrival(
                    arr,
                    keys@,
                    items@,
                    orig,
                    tagged@.len() as int,
                    i,
                ),
        decreases tagged.len(),
    {
        let k: usize = tagged.len() - 1;
        let (key, item) = tagged.pop().unwrap();
        assert(orig.take(k + 1).subrange(0, k as int) =~= orig.take(k as int));
        let mut p: usize = keys.len();
        while p > 0 && keys[p - 1] >= key
            invariant
                p <= keys@.len(),
                forall|j: int| p <= j < keys@.len() ==> #[trigger] keys@[j] >= key,
            decreases p,
        {
            p -= 1;
        }
        let ghost keys_before = keys@;
        let ghost items_before = items@;
        let ghost arr_before = arr;
        keys.insert(p, key);
        items.insert(p, item);
        proof {
            let a = Arrival { tag: key, position: k };
            arr = arr_before.insert(p as int, a);
            assert(a == all[k as int]);
            assert forall|i: int| 0 <= i < arr.len() implies #[trigger] is_placed_arrival(
                arr,
                keys@,
                items@,
                orig,
                k as int,
                i,
            ) by {
                if i < p {
                    assert(is_placed_arrival(arr_before, keys_before, items_before, orig, k + 1, i));
                } else if i > p {
                    assert(is_placed_arrival(
                        arr_before,
                        keys_before,
                        items_before,
                        orig,
                        k + 1,
                        i - 1,
                    ));
                }
            }
            assert forall|i: int, j: int| 0 <= i < j < arr.len() implies #[trigger] ranking::<
                Arrival,
            >()(arr[i], arr[j]) by {
                if j < p {
                    assert(ranking::<Arrival>()(arr_before[i], arr_before[j]));
                } else if j == p {
                    assert(is_placed_arrival(
                        arr_before,
                        keys_before,
                        items_before,
                        orig,
                        k + 1,
                        p - 1,
                    ));
                    assert(is_placed_arrival(arr_before, keys_before, items_before, orig, k + 1, i));
                    if i < p - 1 {
                        assert(ranking::<Arrival>()(arr_before[i], arr_before[p - 1]));
                    }
                } else if i == p {
                    assert(is_placed_arrival(
                        arr_before,
                        keys_before,
                        items_before,
                        orig,
                        k + 1,
                        j - 1,
                    ));
                    assert(keys_before[j - 1] >= key);
                } else if i < p {
                    assert(ranking::<Arrival>()(arr_before[i], arr_before[j - 1]));
                } else {
                    assert(ranking::<Arrival>()(arr_before[i - 1], arr_before[j - 1]));
                }
            }
            vstd::seq_lib::to_multiset_insert(arr_before, p as int, a);
            assert(all.skip(k as int) =~= all.skip(k + 1).insert(0, a));
            vstd::seq_lib::to_multiset_insert(all.skip(k + 1), 0, a);
        }
    }
    proof {
        assert(all.skip(0) =~= all);
        lemma_ranked_unique(all, arr);
        assert forall|i: int| 0 <= i < items@.len() implies items@[i] == restored(orig)[i] by {
            assert(is_placed_arrival(arr, keys@, items@, orig, 0, i));
        }
        assert(items@ =~= restored(orig));
        if tags_are_positions(orig) {
            assert(orig.len() == count);
            lemma_restore_order_by_position(orig);
        }
    }
    items
}

/// A run of `n` numbers below `n` that strictly increases is 0, 1, 2, and
/// so on.
proof fn lemma_increasing_below_is_identity(s: Seq<int>)
    requires
        forall|i: int| 0 <= i < s.len() ==> 0 <= #[trigger] s[i] < s.len(),
        forall|i: int| 0 <= i < s.len() - 1 ==> #[trigger] s[i] < s[i + 1],
    ensures
        forall|i: int| 0 <= i < s.len() ==> #[trigger] s[i] == i,
{
    assert forall|i: int| 0 <= i < s.len() implies #[trigger] s[i] == i by {
        lemma_at_least(s, i);
        lemma_at_most(s, i);
    }
}

proof fn lemma_at_least(s: Seq<int>, i: int)
    requires
        0 <= i < s.len(),
        forall|j: int| 0 <= j < s.len() ==> 0 <= #[trigger] s[j] < s.len(),
        forall|j: int| 0 <= j < s.len() - 1 ==> #[trigger] s[j] < s[j + 1],
    ensures
        s[i] >= i,
    decreases i,
{
    if i > 0 {
        lemma_at_least(s, i - 1);
        assert(s[i - 1] < s[i - 1 + 1]);
    }
}

proof fn lemma_at_most(s: Seq<int>, i: int)
    requires
        0 <= i < s.len(),
        forall|j: int| 0 <= j < s.len() ==> 0 <= #[trigger] s[j] < s.len(),
        forall|j: int| 0 <= j < s.len() - 1 ==> #[trigger] s[j] < s[j + 1],
    ensures
        s[i] <= i,
    decreases s.len() - i,
{
    if i < s.len() - 1 {
        lemma_at_most(s, i + 1);
        assert(s[i] < s[i + 1]);
    }
}

/// Where every result carries the position of its work item, each position
/// once, the restored list holds at each position the result that carries
/// it, in whatever order the results came.
pub proof fn lemma_restore_order_by_position<T>(tagged: Seq<(usize, T)>)
    requires
        tagged.len() <= usize::MAX,
        tags_are_positions(tagged),
    ensures
        restored(tagged).len() == tagged.len(),
        forall|j: int|
            0 <= j < tagged.len() ==> restored(tagged)[(#[trigger] tagged[j]).0 as int]
                == tagged[j].1,
{
    let all = arrivals(tagged);
    let order = ranked(all);
    lemma_ranked_is_sorted_permutation(all);
    let tags = Seq::new(order.len(), |i: int| order[i].tag as int);
    assert forall|i: int| 0 <= i < order.len() implies {
        &&& 0 <= #[trigger] order[i].position < tagged.len()
        &&& order[i] == all[order[i].position as int]
    } by {
        assert(order.contains(order[i]));
        vstd::seq_lib::to_multiset_contains(order, order[i]);
        vstd::seq_lib::to_multiset_contains(all, order[i]);
        let j = choose|j: int| 0 <= j < all.len() && all[j] == order[i];
        assert(all[j].position == j);
    }
    assert forall|i: int| 0 <= i < tags.len() - 1 implies #[trigger] tags[i] < tags[i + 1] by {
        assert(ranking::<Arrival>()(order[i], order[i + 1]));
        if order[i].tag == order[i + 1].tag {
            let a = order[i].position as int;
            let b = order[i + 1].position as int;
            assert(tagged[a].0 == tagged[b].0);
            if a == b {
                all.lemma_multiset_has_no_duplicates();
                order.lemma_multiset_has_no_duplicates_conv();
                assert(order[i] != order[i + 1]);
            }
        }
    }
    assert forall|i: int| 0 <= i < tags.len() implies 0 <= #[trigger] tags[i] < tags.len() by {
        let a = order[i].position as int;
        assert(tagged[a].0 < tagged.len());
    }
    lemma_increasing_below_is_identity(tags);
    assert forall|j: int| 0 <= j < tagged.len() implies restored(tagged)[(#[trigger] tagged[j]).0 as int]
        == tagged[j].1 by {
        let t = tagged[j].0 as int;
        assert(tags[t] == t);
        let a = order[t].position as int;
        assert(tagged[a].0 == t);
        if a != j {
            if a < j {
                assert(tagged[a].0 != tagged[j].0);
            } else {
                assert(tagged[j].0 != tagged[a].0);
            }
        }
    }
}

} // verus!
