//! Cutting a list of work items into batches of a fixed size.

use vstd::prelude::*;

verus! {

/// The number of batches that `n` items make at `size` items a batch.
pub open spec fn batch_count(n: nat, size: nat) -> nat {
    ((n + size - 1) / (size as int)) as nat
}

/// Where batch `b` ends among `n` items: after `size` items, or with the
/// last item.
pub open spec fn batch_end(n: nat, size: nat, b: int) -> int {
    if (b + 1) * size <= n {
        (b + 1) * size
    } else {
        n as int
    }
}

/// Batch `b`: the items from position `b * size` on, `size` of them or as
/// many as are left.
pub open spec fn batch_of<T>(items: Seq<T>, size: nat, b: int) -> Seq<T> {
    items.subrange(b * size, batch_end(items.len(), size, b))
}

/// `k` full batches and `r` more items, fewer than a batch, make `k`
/// batches, or `k + 1` where `r` is not 0.
pub proof fn lemma_batch_count(k: nat, r: nat, size: nat)
    requires
        size >= 1,
        r < size,
    ensures
        batch_count(k * size + r, size) == if r == 0 {
            k
        } else {
            k + 1
        },
{
    let n = k * size + r;
    if r == 0 {
        vstd::arithmetic::div_mod::lemma_fundamental_div_mod_converse(
            n + size - 1,
            size as int,
            k as int,
            size - 1,
        );
    } else {
        assert((k + 1) * size == k * size + size) by (nonlinear_arith);
        vstd::arithmetic::div_mod::lemma_fundamental_div_mod_converse(
            n + size - 1,
            size as int,
            (k + 1) as int,
            r - 1,
        );
    }
}

/// The position at which batch `b` starts.
#[verifier::opaque]
spec fn cut(size: nat, b: int) -> int {
    b * size
}

proof fn lemma_cut(size: nat, b: int)
    requires
        0 <= b,
    ensures
        cut(size, b) == b * size,
        cut(size, b + 1) == cut(size, b) + size,
        0 <= cut(size, b),
{
    reveal(cut);
    assert((b + 1) * size == b * size + size) by (nonlinear_arith);
    assert(0 <= b * size) by (nonlinear_arith)
        requires
            0 <= b,
            0 <= size,
    ;
}

/// `batch` is the full batch `b` of `all`, one of `done` full batches.
spec fn is_full_batch<T>(batch: Seq<T>, all: Seq<T>, size: nat, b: int, done: int) -> bool {
    &&& 0 <= cut(size, b)
    &&& cut(size, b + 1) == cut(size, b) + size
    &&& cut(size, b + 1) <= cut(size, done)
    &&& batch == all.subrange(cut(size, b), cut(size, b + 1))
}

/// Cuts `items` into batches of `size`, in order. Every batch is full but
/// the last, which holds what is left.
pub fn chunk<T>(items: Vec<T>, size: usize) -> (batches: Vec<Vec<T>>)
    requires
        size >= 1,
    ensures
        batches@.len() == batch_count(items@.len(), size as nat),
        forall|b: int|
            0 <= b < batches@.len() ==> (#[trigger] batches@[b])@ == batch_of(
                items@,
                size as nat,
                b,
            ),
{
    let mut batches: Vec<Vec<T>> = Vec::new();
    let mut current: Vec<T> = Vec::new();
    let ghost all = items@;
    let ghost step = size as nat;
    proof {
        lemma_cut(step, 0);
        assert(all.subrange(0, 0) =~= current@);
    }
    for item in it: items
        invariant
            size >= 1,
            step == size,
            it.seq() == all,
            current@.len() < size,
            0 <= cut(step, batches@.len() as int),
            cut(step, batches@.len() as int) + current@.len() == it.index(),
            current@ == all.subrange(cut(step, batches@.len() as int), it.index() as int),
            forall|b: int|
                0 <= b < batches@.len() ==> #[trigger] is_full_batch(
                    batches@[b]@,
                    all,
                    step,
                    b,
                    batches@.len() as int,
                ),
    {
        let ghost index = it.index() as int;
        let ghost done = batches@;
        let ghost start = cut(step, done.len() as int);
        current.push(item);
        assert(current@ =~= all.subrange(start, index + 1));
        if current.len() == size {
            let ghost full = current@;
            batches.push(current);
            current = Vec::new();
            proof {
                lemma_cut(step, done.len() as int);
                assert forall|b: int| 0 <= b < batches@.len() implies #[trigger] is_full_batch(
                    batches@[b]@,
                    all,
                    step,
                    b,
                    batches@.len() as int,
                ) by {
                    if b < done.len() {
                        assert(batches@[b] == done[b]);
                        assert(is_full_batch(done[b]@, all, step, b, done.len() as int));
                    } else {
                        assert(batches@[b]@ == full);
                    }
                }
                assert(all.subrange(start + size, index + 1) =~= current@);
            }
        }
    }
    let ghost k = batches@.len();
    let ghost r = current@.len();
    proof {
        lemma_cut(step, k as int);
        lemma_batch_count(k, r, step);
        assert forall|b: int| 0 <= b < k implies (#[trigger] batches@[b])@ == batch_of(
            all,
            step,
            b,
        ) by {
            lemma_cut(step, b);
            lemma_cut(step, b + 1);
            assert(is_full_batch(batches@[b]@, all, step, b, k as int));
        }
    }
    if current.len() > 0 {
        let ghost done = batches@;
        batches.push(current);
        proof {
            lemma_cut(step, (k + 1) as int);
            assert forall|b: int| 0 <= b < batches@.len() implies (#[trigger] batches@[b])@
                == batch_of(all, step, b) by {
                if b < k {
                    assert(batches@[b] == done[b]);
                }
            }
        }
    }
    batches
}

} // verus!
