//! How a sequence of dataset indices is cut into mini-batches.
//!
//! The model is a plain sequence of indices, the order in which a sampler
//! yields them. [`batches`] says which batches come of it, [`next_batch`] which
//! one comes first, and the proof functions relate the two.
use vstd::arithmetic::div_mod::{
    lemma_basic_div, lemma_div_plus_one, lemma_fundamental_div_mod, lemma_mod_add_multiples_vanish,
    lemma_mod_bound, lemma_mod_decreases, lemma_small_mod,
};
use vstd::arithmetic::mul::{lemma_mul_inequality, lemma_mul_is_distributive_add_other_way};
use vstd::prelude::*;

verus! {

/// The indices `0, 1, ..., n - 1` in ascending order.
pub open spec fn ascending(n: nat) -> Seq<usize> {
    Seq::new(n, |i: int| i as usize)
}

/// `order` holds each of the indices `0, 1, ..., n - 1` exactly once.
pub open spec fn is_permutation(order: Seq<usize>, n: nat) -> bool {
    order.to_multiset() == ascending(n).to_multiset()
}

/// The number of batches that `n` indices make: a partial batch at the end
/// counts unless `drop_last` is set.
pub open spec fn batch_count(n: nat, batch_size: nat, drop_last: bool) -> nat
    recommends
        batch_size > 0,
{
    if drop_last || n % batch_size == 0 {
        n / batch_size
    } else {
        n / batch_size + 1
    }
}

/// The batches that `order` is cut into: batch `k` holds the indices from
/// position `k * batch_size` on, `batch_size` of them or as many as there are.
///
/// A batch size of zero is never reached while a batch fills up, so all the
/// indices end up in one partial batch.
pub open spec fn batches(order: Seq<usize>, batch_size: nat, drop_last: bool) -> Seq<Seq<usize>> {
    if batch_size > 0 {
        Seq::new(
            batch_count(order.len(), batch_size, drop_last),
            |k: int|
                order.subrange(
                    k * batch_size,
                    if k * batch_size + batch_size <= order.len() {
                        k * batch_size + batch_size
                    } else {
                        order.len() as int
                    },
                ),
        )
    } else if order.len() > 0 && !drop_last {
        seq![order]
    } else {
        seq![]
    }
}

/// The number of indices at the front of the order that end up in some batch.
pub open spec fn covered(n: nat, batch_size: nat, drop_last: bool) -> nat {
    if !drop_last {
        n
    } else if batch_size == 0 {
        0
    } else {
        (n - n % batch_size) as nat
    }
}

/// The batch that comes next when the indices in `order` are still to be drawn.
pub open spec fn next_batch(order: Seq<usize>, batch_size: nat, drop_last: bool) -> Option<
    Seq<usize>,
> {
    if 0 < batch_size <= order.len() {
        Some(order.take(batch_size as int))
    } else if order.len() > 0 && !drop_last {
        Some(order)
    } else {
        None
    }
}

/// How many of `n` indices are drawn to find the next batch: a full batch where
/// there is one, all of them otherwise.
pub open spec fn drawn(n: nat, batch_size: nat) -> nat {
    if 0 < batch_size <= n {
        batch_size
    } else {
        n
    }
}

/// Counts the batches that `n` indices make.
pub fn count_batches(n: usize, batch_size: usize, drop_last: bool) -> (count: usize)
    requires
        batch_size > 0,
    ensures
        count == batch_count(n as nat, batch_size as nat, drop_last),
        drop_last ==> count * batch_size <= n < count * batch_size + batch_size,
        !drop_last ==> count * batch_size - batch_size < n <= count * batch_size,
{
    proof {
        law_batch_count(n as nat, batch_size as nat, drop_last);
    }
    let full: usize = n / batch_size;
    if drop_last || n % batch_size == 0 {
        full
    } else {
        assert(full < usize::MAX) by (nonlinear_arith)
            requires
                full == n as int / batch_size as int,
                n as int % batch_size as int != 0,
                batch_size > 0,
                0 <= n <= usize::MAX,
        ;
        full + 1
    }
}

/// The number of batches is as many full batches as fit into `n` indices, or,
/// where none is dropped, the fewest batches that hold them all.
pub proof fn law_batch_count(n: nat, batch_size: nat, drop_last: bool)
    requires
        batch_size > 0,
    ensures
        drop_last ==> batch_count(n, batch_size, drop_last) * batch_size <= n < batch_count(
            n,
            batch_size,
            drop_last,
        ) * batch_size + batch_size,
        !drop_last ==> batch_count(n, batch_size, drop_last) * batch_size - batch_size < n
            <= batch_count(n, batch_size, drop_last) * batch_size,
{
    let full = (n / batch_size) as int;
    lemma_fundamental_div_mod(n as int, batch_size as int);
    lemma_mod_bound(n as int, batch_size as int);
    assert(batch_size * full == full * batch_size) by (nonlinear_arith);
    lemma_mul_is_distributive_add_other_way(batch_size as int, full, 1);
}

/// The ascending order holds `n` indices, each at the position that it names.
pub proof fn law_ascending(n: nat)
    requires
        n <= usize::MAX,
    ensures
        ascending(n).len() == n,
        forall|i: int| 0 <= i < n ==> #[trigger] ascending(n)[i] == i,
{
}

/// Where batch `k` starts, and how far it reaches.
proof fn lemma_batch_bounds(n: nat, batch_size: nat, drop_last: bool, k: int)
    requires
        batch_size > 0,
        0 <= k < batch_count(n, batch_size, drop_last),
    ensures
        0 <= k * batch_size < n,
        drop_last || k + 1 < batch_count(n, batch_size, drop_last) ==> k * batch_size + batch_size
            <= n,
        !drop_last && k + 1 == batch_count(n, batch_size, drop_last) ==> k * batch_size + batch_size
            >= n,
{
    let full = (n / batch_size) as int;
    lemma_fundamental_div_mod(n as int, batch_size as int);
    lemma_mod_bound(n as int, batch_size as int);
    assert(batch_size * full == full * batch_size) by (nonlinear_arith);
    lemma_mul_is_distributive_add_other_way(batch_size as int, k, 1);
    assert(0 <= k * batch_size) by (nonlinear_arith)
        requires
            0 <= k,
            batch_size > 0,
    ;
    if k < full {
        lemma_mul_inequality(k + 1, full, batch_size as int);
    } else {
        assert(k == full);
    }
    if k + 1 < batch_count(n, batch_size, drop_last) {
        assert(k < full);
    }
}

/// No index at all makes no batch, and fewer than a full batch make one, or
/// none where the last one is dropped.
proof fn lemma_count_of_rest(n: nat, batch_size: nat, drop_last: bool)
    requires
        0 < batch_size,
    ensures
        n < batch_size ==> batch_count(n, batch_size, drop_last) == (if n == 0 || drop_last {
            0nat
        } else {
            1
        }),
        n >= batch_size ==> batch_count(n, batch_size, drop_last) == batch_count(
            (n - batch_size) as nat,
            batch_size,
            drop_last,
        ) + 1,
        n >= batch_size ==> n % batch_size == ((n - batch_size) as nat) % batch_size,
{
    if n < batch_size {
        lemma_small_mod(n, batch_size);
        lemma_basic_div(n as int, batch_size as int);
    } else {
        let m = n - batch_size;
        lemma_div_plus_one(m, batch_size as int);
        assert(batch_size * 1 == batch_size);
        lemma_mod_add_multiples_vanish(m, batch_size as int);
        assert(batch_size + m == n);
        assert(m + batch_size == n);
    }
}

/// Drawing one batch after the other gives exactly the batches of [`batches`]:
/// there is a next batch as long as one is left, it is the first of them, and
/// the indices that stay behind make the others.
pub proof fn law_next_batch_heads_batches(order: Seq<usize>, batch_size: nat, drop_last: bool)
    ensures
        next_batch(order, batch_size, drop_last) is Some <==> batches(
            order,
            batch_size,
            drop_last,
        ).len() > 0,
        next_batch(order, batch_size, drop_last) matches Some(batch) ==> {
            &&& batches(order, batch_size, drop_last)[0] == batch
            &&& batches(
                order.skip(drawn(order.len(), batch_size) as int),
                batch_size,
                drop_last,
            ) == batches(order, batch_size, drop_last).drop_first()
        },
{
    let all = batches(order, batch_size, drop_last);
    let k = drawn(order.len(), batch_size);
    let rest = order.skip(k as int);
    if batch_size > 0 {
        lemma_count_of_rest(order.len(), batch_size, drop_last);
        lemma_count_of_rest(rest.len(), batch_size, drop_last);
        if next_batch(order, batch_size, drop_last) is Some {
            assert(0 * batch_size == 0);
            assert(all[0] =~= next_batch(order, batch_size, drop_last)->0);
            let tail = batches(rest, batch_size, drop_last);
            assert(tail.len() == all.len() - 1);
            assert forall|j: int| 0 <= j < tail.len() implies tail[j] == all.drop_first()[j] by {
                lemma_batch_bounds(rest.len(), batch_size, drop_last, j);
                lemma_mul_is_distributive_add_other_way(batch_size as int, j, 1);
                assert(tail[j] =~= all[j + 1]);
            }
            assert(tail =~= all.drop_first());
        }
    } else if next_batch(order, batch_size, drop_last) is Some {
        assert(batches(rest, batch_size, drop_last) =~= all.drop_first());
    }
}

/// Once there is no next batch, there is none ever after.
pub proof fn law_batches_end_for_good(order: Seq<usize>, batch_size: nat, drop_last: bool)
    requires
        next_batch(order, batch_size, drop_last) is None,
    ensures
        next_batch(
            order.skip(drawn(order.len(), batch_size) as int),
            batch_size,
            drop_last,
        ) is None,
{
}

/// The next batch is the front of what is left: a full batch where there is one,
/// else all of it, if that is anything and the partial batch is not dropped. What
/// is drawn for it is the batch, or, where none comes, all that is left.
pub proof fn law_next_batch_is_the_front(order: Seq<usize>, batch_size: nat, drop_last: bool)
    ensures
        next_batch(order, batch_size, drop_last) matches Some(batch) ==> {
            &&& 0 < batch.len() <= order.len()
            &&& batch == order.take(batch.len() as int)
            &&& batch.len() == drawn(order.len(), batch_size)
            &&& batch.len() != batch_size ==> batch.len() == order.len() && !drop_last
            &&& batch_size > 0 ==> batch.len() <= batch_size
        },
        next_batch(order, batch_size, drop_last) is None ==> {
            &&& order.len() == 0 || drop_last
            &&& batch_size == 0 || order.len() < batch_size
            &&& drawn(order.len(), batch_size) == order.len()
        },
{
    assert(order.take(order.len() as int) =~= order);
}

/// A batch size of zero gives one batch of everything, or none where a partial
/// batch is dropped.
pub proof fn law_batch_size_zero(order: Seq<usize>, drop_last: bool)
    ensures
        order.len() > 0 && !drop_last ==> batches(order, 0, drop_last) == seq![order],
        order.len() == 0 || drop_last ==> batches(order, 0, drop_last).len() == 0,
{
}

/// The batches hold, in all, the indices of the order, less the remainder of the
/// division by the batch size where the partial batch is dropped.
pub proof fn law_batches_hold_the_order(order: Seq<usize>, batch_size: nat, drop_last: bool)
    requires
        batch_size > 0,
    ensures
        batches(order, batch_size, drop_last).flatten() == order.take(
            if drop_last {
                order.len() - order.len() % batch_size
            } else {
                order.len() as int
            },
        ),
{
    law_batches_concatenate(order, batch_size, drop_last);
    lemma_mod_decreases(order.len(), batch_size);
}

/// Put end to end, the batches give back the order that they were cut from: all
/// of it, or, where the partial batch is dropped, all but the remainder.
pub proof fn law_batches_concatenate(order: Seq<usize>, batch_size: nat, drop_last: bool)
    ensures
        batches(order, batch_size, drop_last).flatten() == order.take(
            covered(order.len(), batch_size, drop_last) as int,
        ),
    decreases order.len(),
{
    let all = batches(order, batch_size, drop_last);
    let n = order.len();
    law_next_batch_heads_batches(order, batch_size, drop_last);
    if batch_size > 0 {
        lemma_count_of_rest(n, batch_size, drop_last);
        lemma_mod_bound(n as int, batch_size as int);
        lemma_mod_decreases(n, batch_size);
    }
    if next_batch(order, batch_size, drop_last) is Some {
        let k = drawn(n, batch_size);
        let rest = order.skip(k as int);
        law_batches_concatenate(rest, batch_size, drop_last);
        assert(all.flatten() == all.first() + all.drop_first().flatten());
        if batch_size > 0 {
            lemma_mod_bound(rest.len() as int, batch_size as int);
            lemma_mod_decreases(rest.len(), batch_size);
        }
        assert(all.flatten() =~= order.take(covered(n, batch_size, drop_last) as int));
    } else {
        if batch_size > 0 && drop_last {
            lemma_small_mod(n, batch_size);
        }
        assert(all.flatten() =~= Seq::<usize>::empty());
        assert(order.take(covered(n, batch_size, drop_last) as int) =~= Seq::<usize>::empty());
    }
}

/// No batch is empty or larger than the batch size, and only the last one can
/// be smaller; where the partial batch is dropped, none is.
pub proof fn law_batch_sizes(order: Seq<usize>, batch_size: nat, drop_last: bool, k: int)
    requires
        batch_size > 0,
        0 <= k < batches(order, batch_size, drop_last).len(),
    ensures
        1 <= batches(order, batch_size, drop_last)[k].len() <= batch_size,
        drop_last || k + 1 < batches(order, batch_size, drop_last).len() ==> batches(
            order,
            batch_size,
            drop_last,
        )[k].len() == batch_size,
{
    lemma_batch_bounds(order.len(), batch_size, drop_last, k);
}

/// Dropping the partial batch leaves the full batches as they are.
pub proof fn law_drop_last_keeps_full_batches(order: Seq<usize>, batch_size: nat)
    requires
        batch_size > 0,
    ensures
        batches(order, batch_size, true) == batches(order, batch_size, false).take(
            (order.len() / batch_size) as int,
        ),
{
    assert(batches(order, batch_size, true) =~= batches(order, batch_size, false).take(
        (order.len() / batch_size) as int,
    ));
}

/// Position `j` of batch `k` holds the index at position `k * batch_size + j`
/// of the order.
pub proof fn law_batch_positions(
    order: Seq<usize>,
    batch_size: nat,
    drop_last: bool,
    k: int,
    j: int,
)
    requires
        0 <= k < batches(order, batch_size, drop_last).len(),
        0 <= j < batches(order, batch_size, drop_last)[k].len(),
    ensures
        0 <= k * batch_size + j < order.len(),
        batches(order, batch_size, drop_last)[k][j] == order[k * batch_size + j],
{
    if batch_size > 0 {
        lemma_batch_bounds(order.len(), batch_size, drop_last, k);
    } else {
        assert(k == 0 && k * batch_size == 0);
    }
}

/// No batch is empty, whatever the batch size.
pub proof fn law_batches_are_not_empty(
    order: Seq<usize>,
    batch_size: nat,
    drop_last: bool,
    k: int,
)
    requires
        0 <= k < batches(order, batch_size, drop_last).len(),
    ensures
        batches(order, batch_size, drop_last)[k].len() > 0,
{
    if batch_size > 0 {
        law_batch_sizes(order, batch_size, drop_last, k);
    }
}

/// A permutation of `n` indices has length `n`, names no index twice, none out
/// of range, and leaves none out.
pub proof fn law_permutation(order: Seq<usize>, n: nat)
    requires
        n <= usize::MAX,
        is_permutation(order, n),
    ensures
        order.len() == n,
        order.no_duplicates(),
        forall|p: int| 0 <= p < order.len() ==> #[trigger] order[p] < n,
        forall|i: usize| i < n ==> #[trigger] order.contains(i),
{
    let up = ascending(n);
    broadcast use vstd::seq_lib::group_to_multiset_ensures;

    assert(order.to_multiset().len() == up.to_multiset().len());
    assert(up.no_duplicates());
    up.lemma_multiset_has_no_duplicates();
    assert forall|x: usize| #[trigger] order.to_multiset().contains(x) implies order.to_multiset().count(
        x,
    ) == 1 by {
        assert(up.to_multiset().contains(x));
    }
    order.lemma_multiset_has_no_duplicates_conv();
    assert forall|p: int| 0 <= p < order.len() implies #[trigger] order[p] < n by {
        assert(order.to_multiset().count(order[p]) > 0);
        assert(up.contains(order[p]));
    }
    assert forall|i: usize| i < n implies #[trigger] order.contains(i) by {
        assert(up[i as int] == i);
        assert(up.to_multiset().count(i) > 0);
    }
}

/// The ascending order is a permutation.
pub proof fn law_ascending_is_permutation(n: nat)
    ensures
        is_permutation(ascending(n), n),
{
}

} // verus!
