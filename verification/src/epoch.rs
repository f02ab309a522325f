//! One epoch over a dataset: which batches of indices a data loader visits.
use vstd::prelude::*;

use crate::batching;
use crate::model;
use crate::sampler;
use crate::sampler::{BatchSampler, RandomSampler, Sampler, SequentialSampler};

verus! {

/// The orders in which a loader may visit `n` samples in one epoch: a permutation
/// that the generator drew where it shuffles, the ascending order otherwise.
pub open spec fn visits(n: nat, shuffle: bool, order: Seq<usize>) -> bool {
    if shuffle {
        &&& batching::is_permutation(order, n)
        &&& sampler::is_draw(batching::ascending(n), order)
    } else {
        order == batching::ascending(n)
    }
}

/// The batches of indices that one epoch over `n` samples may consist of.
pub open spec fn plans(
    n: nat,
    batch_size: nat,
    shuffle: bool,
    drop_last: bool,
    plan: Seq<Seq<usize>>,
) -> bool {
    exists|order: Seq<usize>| #[trigger]
        visits(n, shuffle, order) && plan == batching::batches(order, batch_size, drop_last)
}

/// Draws the batches of indices for one epoch over `dataset_len` samples.
pub(crate) fn draw_batches(
    dataset_len: usize,
    batch_size: usize,
    shuffle: bool,
    drop_last: bool,
) -> (plan: Vec<Vec<usize>>)
    ensures
        plans(
            dataset_len as nat,
            batch_size as nat,
            shuffle,
            drop_last,
            model::contents(plan@),
        ),
        shuffle && batch_size > 0 ==> exists|order: Seq<usize>|
            {
                &&& #[trigger] sampler::is_draw(batching::ascending(dataset_len as nat), order)
                &&& order.len() == dataset_len
                &&& model::contents(plan@).flatten() == order.take(
                    if drop_last {
                        dataset_len - dataset_len % batch_size
                    } else {
                        dataset_len as int
                    },
                )
            },
        !shuffle ==> forall|k: int, j: int|
            0 <= k < plan@.len() && 0 <= j < plan@[k]@.len() ==> #[trigger] plan@[k]@[j] == k
                * batch_size + j,
{
    if shuffle {
        let sampler = RandomSampler::new(dataset_len);
        let iter = BatchSampler { sampler, batch_size, drop_last }.iter();
        assert(visits(dataset_len as nat, shuffle, iter.remaining()));
        proof {
            law_epoch_order(dataset_len as nat, shuffle, iter.remaining());
        }
        iter.collect()
    } else {
        let sampler = SequentialSampler::new(dataset_len);
        let iter = BatchSampler { sampler, batch_size, drop_last }.iter();
        assert(visits(dataset_len as nat, shuffle, iter.remaining()));
        let plan = iter.collect();
        proof {
            let order = batching::ascending(dataset_len as nat);
            assert forall|k: int, j: int|
                0 <= k < plan@.len() && 0 <= j < plan@[k]@.len() implies #[trigger] plan@[k]@[j]
                == k * batch_size + j by {
                assert(model::contents(plan@)[k] == plan@[k]@);
                batching::law_batch_positions(order, batch_size as nat, drop_last, k, j);
            }
        }
        plan
    }
}

/// The indices that a plan names are in range, and no batch of it is empty.
pub open spec fn fetchable(n: nat, plan: Seq<Seq<usize>>) -> bool {
    &&& forall|k: int| 0 <= k < plan.len() ==> (#[trigger] plan[k]).len() > 0
    &&& forall|k: int, j: int|
        0 <= k < plan.len() && 0 <= j < plan[k].len() ==> #[trigger] plan[k][j] < n
}

/// An order names every sample exactly once.
pub proof fn law_epoch_order(n: nat, shuffle: bool, order: Seq<usize>)
    requires
        n <= usize::MAX,
        visits(n, shuffle, order),
    ensures
        order.len() == n,
        order.no_duplicates(),
        forall|p: int| 0 <= p < order.len() ==> #[trigger] order[p] < n,
        forall|i: usize| i < n ==> #[trigger] order.contains(i),
{
    if !shuffle {
        batching::law_ascending_is_permutation(n);
    }
    batching::law_permutation(order, n);
}

/// Every plan of an epoch can be fetched: it names samples that exist, and no
/// batch of it is empty.
pub proof fn law_plans_are_fetchable(
    n: nat,
    batch_size: nat,
    shuffle: bool,
    drop_last: bool,
    plan: Seq<Seq<usize>>,
)
    requires
        n <= usize::MAX,
        plans(n, batch_size, shuffle, drop_last, plan),
    ensures
        fetchable(n, plan),
{
    let order = choose|order: Seq<usize>| #[trigger]
        visits(n, shuffle, order) && plan == batching::batches(order, batch_size, drop_last);
    law_epoch_order(n, shuffle, order);
    assert forall|k: int| 0 <= k < plan.len() implies (#[trigger] plan[k]).len() > 0 by {
        batching::law_batches_are_not_empty(order, batch_size, drop_last, k);
    }
    assert forall|k: int, j: int|
        0 <= k < plan.len() && 0 <= j < plan[k].len() implies #[trigger] plan[k][j] < n by {
        batching::law_batch_positions(order, batch_size, drop_last, k, j);
    }
}

/// Where no batch is dropped, the batches of an epoch name every sample exactly
/// once. Where the partial batch is dropped, they name none twice, and leave
/// out the remainder of the division by the batch size.
pub proof fn law_epoch_names_each_sample_once(
    n: nat,
    batch_size: nat,
    shuffle: bool,
    drop_last: bool,
    plan: Seq<Seq<usize>>,
)
    requires
        n <= usize::MAX,
        batch_size > 0,
        plans(n, batch_size, shuffle, drop_last, plan),
    ensures
        plan.flatten().no_duplicates(),
        plan.len() == batching::batch_count(n, batch_size, drop_last),
        plan.flatten().len() == (if drop_last {
            n - n % batch_size
        } else {
            n as int
        }),
        !drop_last ==> forall|i: usize| i < n ==> #[trigger] plan.flatten().contains(i),
{
    let order = choose|order: Seq<usize>| #[trigger]
        visits(n, shuffle, order) && plan == batching::batches(order, batch_size, drop_last);
    law_epoch_order(n, shuffle, order);
    batching::law_batches_concatenate(order, batch_size, drop_last);
    if drop_last {
        vstd::arithmetic::div_mod::lemma_mod_decreases(n, batch_size);
    } else {
        assert(order.take(n as int) =~= order);
    }
}

/// Without shuffling, every epoch is the same.
pub proof fn law_unshuffled_epochs_agree(
    n: nat,
    batch_size: nat,
    drop_last: bool,
    one: Seq<Seq<usize>>,
    other: Seq<Seq<usize>>,
)
    requires
        plans(n, batch_size, false, drop_last, one),
        plans(n, batch_size, false, drop_last, other),
    ensures
        one == batching::batches(batching::ascending(n), batch_size, drop_last),
        one == other,
{
}

/// The batches of an epoch are full, all but the last: that one holds between one
/// sample and a full batch of them, and is full too where the partial batch is
/// dropped. There are just as many of them as hold all the samples, or as the
/// samples fill where the partial batch is dropped.
pub proof fn law_plan_batch_sizes(
    n: nat,
    batch_size: nat,
    shuffle: bool,
    drop_last: bool,
    plan: Seq<Seq<usize>>,
)
    requires
        n <= usize::MAX,
        batch_size > 0,
        plans(n, batch_size, shuffle, drop_last, plan),
    ensures
        forall|k: int| 0 <= k < plan.len() ==> 1 <= (#[trigger] plan[k]).len() <= batch_size,
        forall|k: int|
            0 <= k < plan.len() && (drop_last || k + 1 < plan.len()) ==> (#[trigger] plan[k]).len()
                == batch_size,
        drop_last ==> plan.len() * batch_size <= n < plan.len() * batch_size + batch_size,
        !drop_last ==> plan.len() * batch_size - batch_size < n <= plan.len() * batch_size,
{
    let order = choose|order: Seq<usize>| #[trigger]
        visits(n, shuffle, order) && plan == batching::batches(order, batch_size, drop_last);
    law_epoch_order(n, shuffle, order);
    assert forall|k: int| 0 <= k < plan.len() implies {
        &&& 1 <= (#[trigger] plan[k]).len() <= batch_size
        &&& drop_last || k + 1 < plan.len() ==> plan[k].len() == batch_size
    } by {
        batching::law_batch_sizes(order, batch_size, drop_last, k);
    }
    batching::law_batch_count(n, batch_size, drop_last);
}

/// Without shuffling, an epoch counts up: batch `k` holds the samples from
/// `k * batch_size` on, and end to end the batches name 0, 1, 2 and so on, up to
/// the number of samples that are kept.
pub proof fn law_unshuffled_plan_counts_up(
    n: nat,
    batch_size: nat,
    drop_last: bool,
    plan: Seq<Seq<usize>>,
)
    requires
        n <= usize::MAX,
        batch_size > 0,
        plans(n, batch_size, false, drop_last, plan),
    ensures
        forall|k: int, j: int|
            0 <= k < plan.len() && 0 <= j < plan[k].len() ==> #[trigger] plan[k][j] == k
                * batch_size + j,
        plan.flatten() == Seq::new(
            (if drop_last {
                n - n % batch_size
            } else {
                n as int
            }) as nat,
            |i: int| i as usize,
        ),
{
    let order = batching::ascending(n);
    assert forall|k: int, j: int|
        0 <= k < plan.len() && 0 <= j < plan[k].len() implies #[trigger] plan[k][j] == k * batch_size + j by {
        batching::law_batch_positions(order, batch_size, drop_last, k, j);
    }
    batching::law_batches_hold_the_order(order, batch_size, drop_last);
    vstd::arithmetic::div_mod::lemma_mod_decreases(n, batch_size);
}

/// With shuffling, an epoch is cut from an order that the generator drew for
/// 0, 1, 2 and so on: end to end, the batches are that order, all of it or its
/// front where the partial batch is dropped.
pub proof fn law_shuffled_plan_is_cut_from_a_draw(
    n: nat,
    batch_size: nat,
    drop_last: bool,
    plan: Seq<Seq<usize>>,
)
    requires
        n <= usize::MAX,
        batch_size > 0,
        plans(n, batch_size, true, drop_last, plan),
    ensures
        exists|order: Seq<usize>|
            {
                &&& #[trigger] sampler::is_draw(batching::ascending(n), order)
                &&& order.len() == n
                &&& plan.flatten() == order.take(
                    if drop_last {
                        n - n % batch_size
                    } else {
                        n as int
                    },
                )
                &&& forall|k: int, j: int|
                    0 <= k < plan.len() && 0 <= j < plan[k].len() ==> #[trigger] plan[k][j]
                        == order[k * batch_size + j]
            },
{
    let order = choose|order: Seq<usize>| #[trigger]
        visits(n, true, order) && plan == batching::batches(order, batch_size, drop_last);
    law_epoch_order(n, true, order);
    batching::law_batches_hold_the_order(order, batch_size, drop_last);
    assert forall|k: int, j: int|
        0 <= k < plan.len() && 0 <= j < plan[k].len() implies #[trigger] plan[k][j] == order[k * batch_size + j] by {
        batching::law_batch_positions(order, batch_size, drop_last, k, j);
    }
}

/// A plan can be fetched if it has no empty batch, and each index that it names is
/// one of a sample; nothing else is asked of it.
pub proof fn law_fetchable(n: nat, plan: Seq<Seq<usize>>)
    ensures
        fetchable(n, plan) <==> {
            &&& forall|k: int| 0 <= k < plan.len() ==> (#[trigger] plan[k]).len() > 0
            &&& forall|k: int, j: int|
                0 <= k < plan.len() && 0 <= j < plan[k].len() ==> #[trigger] plan[k][j] < n
        },
{
}

} // verus!
