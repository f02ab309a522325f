//! Samplers: which dataset indices are visited, in which order, and in which
//! batches.
use rand::seq::SliceRandom;
use std::ops::Range;
use vstd::prelude::*;

use crate::batching;
use crate::model;

verus! {

/// Basic trait for anything that has a length.
pub trait Len {
    /// Whether the length is defined.
    spec fn has_len(&self) -> bool;

    /// The length, where it is defined.
    spec fn spec_len(&self) -> nat;

    fn len(&self) -> (n: usize)
        requires
            self.has_len(),
        ensures
            n == self.spec_len(),
    ;

    fn is_empty(&self) -> (empty: bool)
        requires
            self.has_len(),
        ensures
            empty == (self.spec_len() == 0),
    {
        self.len() == 0
    }
}

/// An iterator over dataset indices.
pub trait IndexIterator: Sized {
    /// The indices that are still to come, in order.
    spec fn remaining(self) -> Seq<usize>;

    /// The bounds that `size_hint` gives.
    spec fn hint(self) -> (usize, Option<usize>);

    /// The bounds of `size_hint` enclose the number of indices that are still
    /// to come.
    proof fn hint_encloses(self)
        ensures
            self.hint().0 <= self.remaining().len(),
            self.hint().1 matches Some(upper) ==> self.remaining().len() <= upper,
    ;

    /// Takes the next index off the front, if there is one.
    fn next(&mut self) -> (index: Option<usize>)
        ensures
            old(self).remaining().len() > 0 ==> {
                &&& index == Some(old(self).remaining()[0])
                &&& final(self).remaining() == old(self).remaining().drop_first()
            },
            old(self).remaining().len() == 0 ==> {
                &&& index is None
                &&& final(self).remaining() == old(self).remaining()
            },
    ;

    /// A lower and an upper bound on the number of indices still to come.
    fn size_hint(&self) -> (hint: (usize, Option<usize>))
        ensures
            hint == self.hint(),
    ;
}

/// An iterator over dataset indices that knows how many are still to come.
pub trait ExactSizeIndexIterator: IndexIterator {
    /// Both bounds of `size_hint` are the number of indices still to come.
    proof fn hint_is_exact(self)
        ensures
            self.hint().0 == self.remaining().len(),
            self.hint().1 == Some(self.hint().0),
    ;

    /// The number of indices still to come.
    fn len(&self) -> (n: usize)
        ensures
            n == self.remaining().len(),
    {
        proof {
            self.hint_is_exact();
        }
        self.size_hint().0
    }
}

/// Every Sampler is iterable, has a length, and can be copied.
pub trait Sampler: Len + Copy {
    /// The iterator that the sampler turns into.
    type IntoIter: IndexIterator;

    /// The orders in which a sampler over `data_source_len` indices may yield
    /// them.
    spec fn yields(data_source_len: nat, order: Seq<usize>) -> bool;

    /// The number of indices that the sampler draws from.
    spec fn source_len(self) -> nat;

    /// A sampler's length is defined, and is the number of indices it yields.
    proof fn len_is_yield_len(self, order: Seq<usize>)
        requires
            Self::yields(self.source_len(), order),
        ensures
            self.has_len(),
            self.spec_len() == order.len(),
    ;

    /// Create a new sampler from the dataset length.
    fn new(data_source_len: usize) -> (sampler: Self)
        ensures
            sampler.source_len() == data_source_len,
    ;

    /// Turns the sampler into an iterator over one of its orders.
    fn into_iter(self) -> (indices: Self::IntoIter)
        ensures
            Self::yields(self.source_len(), indices.remaining()),
    ;
}

/// Yields indices from zero to `data_source_len` in ascending order.
#[derive(Debug, Clone, Copy, PartialEq, Eq, Hash)]
pub struct SequentialSampler {
    pub data_source_len: usize,
}

impl Len for SequentialSampler {
    open spec fn has_len(&self) -> bool {
        true
    }

    open spec fn spec_len(&self) -> nat {
        self.data_source_len as nat
    }

    fn len(&self) -> (n: usize)
        ensures
            n == self.data_source_len,
    {
        self.data_source_len
    }
}

impl IndexIterator for Range<usize> {
    open spec fn remaining(self) -> Seq<usize> {
        if self.start <= self.end {
            Seq::new((self.end - self.start) as nat, |i: int| (self.start + i) as usize)
        } else {
            seq![]
        }
    }

    open spec fn hint(self) -> (usize, Option<usize>) {
        let n = self.remaining().len() as usize;
        (n, Some(n))
    }

    proof fn hint_encloses(self) {
    }

    fn next(&mut self) -> (index: Option<usize>) {
        let index: Option<usize> = <Range<usize> as Iterator>::next(self);
        proof {
            assert(old(self).remaining().len() > 0 ==> self.remaining()
                =~= old(self).remaining().drop_first());
        }
        index
    }

    fn size_hint(&self) -> (hint: (usize, Option<usize>)) {
        let n: usize = if self.start <= self.end {
            self.end - self.start
        } else {
            0
        };
        (n, Some(n))
    }
}

impl ExactSizeIndexIterator for Range<usize> {
    proof fn hint_is_exact(self) {
    }
}

impl Sampler for SequentialSampler {
    type IntoIter = Range<usize>;

    open spec fn yields(data_source_len: nat, order: Seq<usize>) -> bool {
        order == batching::ascending(data_source_len)
    }

    open spec fn source_len(self) -> nat {
        self.data_source_len as nat
    }

    proof fn len_is_yield_len(self, order: Seq<usize>) {
    }

    fn new(data_source_len: usize) -> (sampler: Self)
        ensures
            sampler.data_source_len == data_source_len,
    {
        SequentialSampler { data_source_len }
    }

    fn into_iter(self) -> (indices: Range<usize>)
        ensures
            indices.start == 0,
            indices.end == self.data_source_len,
            indices.remaining() == Seq::new(self.data_source_len as nat, |i: int| i as usize),
    {
        let indices: Range<usize> = 0..self.data_source_len;
        proof {
            assert(indices.remaining() =~= batching::ascending(self.data_source_len as nat));
        }
        indices
    }
}

/// A range yields its bounds' first index, then the one after it, and so on up to
/// the second bound, which it leaves out.
pub proof fn law_range_counts_up(range: Range<usize>)
    ensures
        range.start <= range.end ==> range.remaining().len() == range.end - range.start,
        range.start > range.end ==> range.remaining().len() == 0,
        forall|i: int|
            0 <= i < range.remaining().len() ==> #[trigger] range.remaining()[i] == range.start + i,
        range.hint().0 == range.remaining().len(),
        range.hint().1 == Some(range.hint().0),
{
}

/// A sequential sampler yields 0, 1, 2 and so on, as many as it was made for, and
/// in no other order.
pub proof fn law_sequential_sampler_counts_up(sampler: SequentialSampler, order: Seq<usize>)
    ensures
        sampler.source_len() == sampler.data_source_len,
        SequentialSampler::yields(sampler.source_len(), order) <==> {
            &&& order.len() == sampler.data_source_len
            &&& forall|i: int| 0 <= i < order.len() ==> #[trigger] order[i] == i
        },
{
    let n = sampler.data_source_len as nat;
    if order.len() == n && forall|i: int| 0 <= i < order.len() ==> #[trigger] order[i] == i {
        assert(order =~= batching::ascending(n));
    }
}

/// Sampler that returns indices in random order.
#[derive(Debug, Clone, Copy, PartialEq, Eq, Hash)]
pub struct RandomSampler {
    data_source_len: usize,
}

impl RandomSampler {
    /// The number of indices that the sampler draws from.
    pub closed spec fn data_source_len(self) -> nat {
        self.data_source_len as nat
    }
}

impl Len for RandomSampler {
    open spec fn has_len(&self) -> bool {
        true
    }

    open spec fn spec_len(&self) -> nat {
        self.data_source_len()
    }

    fn len(&self) -> (n: usize) {
        self.data_source_len
    }
}

/// `<[usize] as rand::seq::SliceRandom>::shuffle` with the generator that
/// `rand::thread_rng` hands out. The call only swaps elements: whatever the
/// generator draws, the same indices are there afterwards, each as often as
/// before. In which order they stand is left to chance, and not stated.
#[verifier::external_body]
fn shuffle(indexes: Vec<usize>) -> (shuffled: Vec<usize>)
    ensures
        shuffled@.to_multiset() == indexes@.to_multiset(),
{
    let mut shuffled = indexes;
    shuffled.shuffle(&mut rand::thread_rng());
    shuffled
}

/// `after` is an order that the generator drew for `before`: one that a call of
/// the shuffle gave back.
pub closed spec fn is_draw(before: Seq<usize>, after: Seq<usize>) -> bool {
    exists|indexes: Vec<usize>, shuffled: Vec<usize>|
        indexes@ == before && shuffled@ == after && #[trigger] call_ensures(
            shuffle,
            (indexes,),
            shuffled,
        )
}

/// What is drawn is the outcome of a call of the shuffle, and nothing else is.
proof fn law_draws_are_outcomes_of_the_shuffle(before: Seq<usize>, after: Seq<usize>)
    ensures
        is_draw(before, after) <==> exists|indexes: Vec<usize>, shuffled: Vec<usize>|
            indexes@ == before && shuffled@ == after && #[trigger] call_ensures(
                shuffle,
                (indexes,),
                shuffled,
            ),
{
}

/// A draw holds the indices that it was drawn for, each as often as before.
pub proof fn law_draws_keep_the_indices(before: Seq<usize>, after: Seq<usize>)
    requires
        is_draw(before, after),
    ensures
        after.to_multiset() == before.to_multiset(),
{
}

impl Sampler for RandomSampler {
    type IntoIter = RandomSamplerIter;

    open spec fn yields(data_source_len: nat, order: Seq<usize>) -> bool {
        &&& batching::is_permutation(order, data_source_len)
        &&& is_draw(batching::ascending(data_source_len), order)
    }

    open spec fn source_len(self) -> nat {
        self.data_source_len()
    }

    proof fn len_is_yield_len(self, order: Seq<usize>) {
        batching::law_permutation(order, self.source_len());
    }

    fn new(data_source_len: usize) -> (sampler: Self)
        ensures
            sampler.spec_len() == data_source_len,
    {
        RandomSampler { data_source_len }
    }

    fn into_iter(self) -> (indices: RandomSamplerIter)
        ensures
            is_draw(
                Seq::new(self.spec_len(), |i: int| i as usize),
                indices.remaining(),
            ),
            indices.remaining().len() == self.spec_len(),
            indices.remaining().no_duplicates(),
            forall|p: int|
                0 <= p < indices.remaining().len() ==> #[trigger] indices.remaining()[p]
                    < self.spec_len(),
    {
        let n: usize = self.data_source_len;
        let mut indexes: Vec<usize> = Vec::new();
        let mut i: usize = 0;
        while i < n
            invariant
                i <= n,
                indexes@ == batching::ascending(i as nat),
            decreases n - i,
        {
            indexes.push(i);
            i += 1;
            assert(indexes@ =~= batching::ascending(i as nat));
        }
        let shuffled = shuffle(indexes);
        proof {
            assert(batching::ascending(n as nat) =~= Seq::new(n as nat, |p: int| p as usize));
            batching::law_permutation(shuffled@, n as nat);
        }
        RandomSamplerIter::new(shuffled)
    }
}

/// A random sampler yields what the generator drew for 0, 1, 2 and so on, as many
/// as it was made for: each of them once, and no other index.
pub proof fn law_random_sampler_yields_a_draw(sampler: RandomSampler, order: Seq<usize>)
    requires
        RandomSampler::yields(sampler.source_len(), order),
    ensures
        sampler.source_len() == sampler.spec_len(),
        is_draw(Seq::new(sampler.spec_len(), |i: int| i as usize), order),
        order.len() == sampler.spec_len(),
        order.no_duplicates(),
        forall|p: int| 0 <= p < order.len() ==> #[trigger] order[p] < sampler.spec_len(),
{
    let n = sampler.source_len();
    assert(batching::ascending(n) =~= Seq::new(n, |i: int| i as usize));
    batching::law_permutation(order, n);
}

/// Iterator that yields indices in shuffled order.
#[derive(Debug)]
pub struct RandomSamplerIter {
    indexes: Vec<usize>,
    idx: usize,
}

impl RandomSamplerIter {
    #[verifier::type_invariant]
    spec fn position_in_range(self) -> bool {
        self.idx <= self.indexes@.len()
    }

    /// An iterator over `indexes`, in the order in which they stand there.
    pub fn new(indexes: Vec<usize>) -> (iter: Self)
        ensures
            iter.remaining() == indexes@,
    {
        let iter = RandomSamplerIter { indexes, idx: 0 };
        assert(iter.remaining() =~= indexes@);
        iter
    }
}

impl IndexIterator for RandomSamplerIter {
    closed spec fn remaining(self) -> Seq<usize> {
        if self.idx <= self.indexes@.len() {
            self.indexes@.skip(self.idx as int)
        } else {
            seq![]
        }
    }

    open spec fn hint(self) -> (usize, Option<usize>) {
        let n = self.remaining().len() as usize;
        (n, Some(n))
    }

    proof fn hint_encloses(self) {
        assert(self.indexes.len() == self.indexes@.len());
    }

    fn next(&mut self) -> (index: Option<usize>) {
        proof {
            use_type_invariant(&*self);
        }
        if self.idx < self.indexes.len() {
            self.idx += 1;
            assert(self.remaining() =~= old(self).remaining().drop_first());
            Some(self.indexes[self.idx - 1])
        } else {
            None
        }
    }

    fn size_hint(&self) -> (hint: (usize, Option<usize>))
        ensures
            hint.0 == self.remaining().len(),
            hint.1 == Some(hint.0),
    {
        proof {
            use_type_invariant(self);
        }
        let len: usize = self.indexes.len() - self.idx;
        (len, Some(len))
    }
}

impl ExactSizeIndexIterator for RandomSamplerIter {
    proof fn hint_is_exact(self) {
        assert(self.indexes.len() == self.indexes@.len());
    }
}

/// Wraps another sampler to yield mini-batches of indices.
#[derive(Debug, Clone, PartialEq, Eq, Hash)]
pub struct BatchSampler<S = SequentialSampler> {
    pub sampler: S,
    pub batch_size: usize,
    pub drop_last: bool,
}

impl<S: Sampler> Len for BatchSampler<S> {
    open spec fn has_len(&self) -> bool {
        self.batch_size > 0 && self.sampler.has_len()
    }

    open spec fn spec_len(&self) -> nat {
        batching::batch_count(self.sampler.spec_len(), self.batch_size as nat, self.drop_last)
    }

    fn len(&self) -> (n: usize)
        ensures
            self.drop_last ==> n * self.batch_size <= self.sampler.spec_len() < n * self.batch_size
                + self.batch_size,
            !self.drop_last ==> n * self.batch_size - self.batch_size < self.sampler.spec_len()
                <= n * self.batch_size,
    {
        batching::count_batches(self.sampler.len(), self.batch_size, self.drop_last)
    }
}

impl<S: Sampler> BatchSampler<S> {
    /// Iterates over the batches of one of the orders of the sampler.
    pub fn iter(&self) -> (batches: BatchIterator<S::IntoIter>)
        ensures
            S::yields(self.sampler.source_len(), batches.remaining()),
            batches.batch_size() == self.batch_size,
            batches.drop_last() == self.drop_last,
    {
        BatchIterator {
            sampler: self.sampler.into_iter(),
            batch_size: self.batch_size,
            drop_last: self.drop_last,
        }
    }

    /// Iterates over the batches, as [`BatchSampler::iter`] does.
    pub fn into_iter(&self) -> (batches: BatchIterator<S::IntoIter>)
        ensures
            S::yields(self.sampler.source_len(), batches.remaining()),
            batches.batch_size() == self.batch_size,
            batches.drop_last() == self.drop_last,
    {
        self.iter()
    }
}

/// The length of a batch sampler is the number of batches it yields, whichever
/// of its orders the wrapped sampler takes.
pub proof fn law_len_counts_batches<S: Sampler>(sampler: BatchSampler<S>, order: Seq<usize>)
    requires
        sampler.batch_size > 0,
        S::yields(sampler.sampler.source_len(), order),
    ensures
        sampler.has_len(),
        sampler.spec_len() == batching::batches(
            order,
            sampler.batch_size as nat,
            sampler.drop_last,
        ).len(),
{
    sampler.sampler.len_is_yield_len(order);
}

/// Iterator that yields batches of indices.
#[derive(Debug)]
pub struct BatchIterator<I: IndexIterator> {
    sampler: I,
    batch_size: usize,
    drop_last: bool,
}

impl<I: IndexIterator> BatchIterator<I> {
    /// The iterator that the indices are drawn from.
    pub closed spec fn sampler(self) -> I {
        self.sampler
    }

    /// The indices that are still to be drawn.
    pub open spec fn remaining(self) -> Seq<usize> {
        self.sampler().remaining()
    }

    /// The number of indices in a full batch.
    pub closed spec fn batch_size(self) -> nat {
        self.batch_size as nat
    }

    /// Whether a partial batch at the end is dropped.
    pub closed spec fn drop_last(self) -> bool {
        self.drop_last
    }

    /// The batches that are still to come.
    pub open spec fn batches(self) -> Seq<Seq<usize>> {
        batching::batches(self.remaining(), self.batch_size(), self.drop_last())
    }

    /// Draws the next batch.
    pub fn next(&mut self) -> (batch: Option<Vec<usize>>)
        ensures
            match batching::next_batch(
                old(self).remaining(),
                old(self).batch_size(),
                old(self).drop_last(),
            ) {
                Some(expected) => batch matches Some(found) && found@ == expected,
                None => batch is None,
            },
            final(self).remaining() == old(self).remaining().skip(
                batching::drawn(old(self).remaining().len(), old(self).batch_size()) as int,
            ),
            final(self).batch_size() == old(self).batch_size(),
            final(self).drop_last() == old(self).drop_last(),
            batch matches Some(found) ==> {
                &&& 0 < found@.len() <= old(self).remaining().len()
                &&& found@ == old(self).remaining().take(found@.len() as int)
                &&& final(self).remaining() == old(self).remaining().skip(found@.len() as int)
                &&& found@.len() != old(self).batch_size() ==> {
                    &&& found@.len() == old(self).remaining().len()
                    &&& !old(self).drop_last()
                }
                &&& old(self).batch_size() > 0 ==> found@.len() <= old(self).batch_size()
            },
            batch is None ==> {
                &&& old(self).remaining().len() == 0 || old(self).drop_last()
                &&& old(self).batch_size() == 0 || old(self).remaining().len()
                    < old(self).batch_size()
                &&& final(self).remaining().len() == 0
            },
    {
        proof {
            batching::law_next_batch_is_the_front(
                self.remaining(),
                self.batch_size(),
                self.drop_last(),
            );
        }
        let ghost order = self.remaining();
        let mut batch: Vec<usize> = Vec::new();
        let mut current_idx: Option<usize> = self.sampler.next();
        while current_idx.is_some()
            invariant
                order == old(self).remaining(),
                self.batch_size == old(self).batch_size,
                self.drop_last == old(self).drop_last,
                batch@.len() <= order.len(),
                batch@ == order.take(batch@.len() as int),
                self.batch_size == 0 || batch@.len() < self.batch_size,
                batch@.len() < order.len() ==> {
                    &&& current_idx == Some(order[batch@.len() as int])
                    &&& self.remaining() == order.skip(batch@.len() + 1int)
                },
                batch@.len() == order.len() ==> {
                    &&& current_idx is None
                    &&& self.remaining() == order.skip(order.len() as int)
                },
            decreases order.len() - batch@.len(),
        {
            if let Some(idx) = current_idx {
                batch.push(idx);
                assert(batch@ =~= order.take(batch@.len() as int));
            }
            if batch.len() == self.batch_size {
                return Some(batch);
            }
            let ghost left = self.remaining();
            current_idx = self.sampler.next();
            assert(left.len() > 0 ==> left.drop_first() =~= order.skip(batch@.len() + 1int));
            assert(left.len() == 0 ==> left =~= order.skip(order.len() as int));
        }
        assert(batch@ =~= order);
        if !batch.is_empty() && !self.drop_last {
            return Some(batch);
        }
        None
    }

    /// Bounds on the number of batches still to come, from the lower bound on
    /// the number of indices.
    pub fn size_hint(&self) -> (hint: (usize, Option<usize>))
        requires
            self.batch_size() > 0,
        ensures
            hint.0 == batching::batch_count(
                self.sampler().hint().0 as nat,
                self.batch_size(),
                self.drop_last(),
            ),
            hint.1 == Some(hint.0),
            self.drop_last() ==> hint.0 * self.batch_size() <= self.sampler().hint().0 < hint.0
                * self.batch_size() + self.batch_size(),
            !self.drop_last() ==> hint.0 * self.batch_size() - self.batch_size()
                < self.sampler().hint().0 <= hint.0 * self.batch_size(),
    {
        let (lower, _) = self.sampler.size_hint();
        let lower: usize = batching::count_batches(lower, self.batch_size, self.drop_last);
        (lower, Some(lower))
    }

    /// Draws all the batches that are left.
    pub fn collect(self) -> (batches: Vec<Vec<usize>>)
        ensures
            model::contents(batches@) == self.batches(),
            self.batch_size() > 0 ==> model::contents(batches@).flatten() == self.remaining().take(
                if self.drop_last() {
                    self.remaining().len() - self.remaining().len() % self.batch_size()
                } else {
                    self.remaining().len() as int
                },
            ),
            self.batch_size() > 0 ==> forall|k: int|
                0 <= k < batches@.len() ==> 1 <= (#[trigger] batches@[k])@.len()
                    <= self.batch_size(),
            self.batch_size() > 0 ==> forall|k: int|
                0 <= k < batches@.len() && (self.drop_last() || k + 1 < batches@.len()) ==> (
                #[trigger] batches@[k])@.len() == self.batch_size(),
    {
        let mut iter = self;
        let mut batches: Vec<Vec<usize>> = Vec::new();
        loop
            invariant
                iter.batch_size() == self.batch_size(),
                iter.drop_last() == self.drop_last(),
                model::contents(batches@) + iter.batches() == self.batches(),
            ensures
                model::contents(batches@) == self.batches(),
            decreases iter.batches().len(),
        {
            proof {
                batching::law_next_batch_heads_batches(
                    iter.remaining(),
                    iter.batch_size(),
                    iter.drop_last(),
                );
            }
            let ghost before = iter.batches();
            let ghost done = model::contents(batches@);
            match iter.next() {
                Some(batch) => {
                    batches.push(batch);
                    assert(model::contents(batches@) =~= done.push(batch@));
                    assert(done + before =~= done.push(before[0]) + before.drop_first());
                },
                None => {
                    assert(done + before =~= done);
                    break;
                },
            }
        }
        proof {
            let (order, size, drop_last) = (self.remaining(), self.batch_size(), self.drop_last());
            if size > 0 {
                batching::law_batches_hold_the_order(order, size, drop_last);
                assert forall|k: int| 0 <= k < batches@.len() implies {
                    &&& 1 <= (#[trigger] batches@[k])@.len() <= size
                    &&& drop_last || k + 1 < batches@.len() ==> batches@[k]@.len() == size
                } by {
                    assert(model::contents(batches@)[k] == batches@[k]@);
                    batching::law_batch_sizes(order, size, drop_last, k);
                }
            }
        }
        batches
    }
}

impl<I: ExactSizeIndexIterator> BatchIterator<I> {
    /// The number of batches still to come.
    pub fn len(&self) -> (n: usize)
        requires
            self.batch_size() > 0,
        ensures
            n == self.batches().len(),
            self.drop_last() ==> n * self.batch_size() <= self.remaining().len() < n
                * self.batch_size() + self.batch_size(),
            !self.drop_last() ==> n * self.batch_size() - self.batch_size()
                < self.remaining().len() <= n * self.batch_size(),
    {
        proof {
            self.sampler().hint_is_exact();
            law_size_hint_counts_batches(*self);
        }
        self.size_hint().0
    }
}

/// Where the wrapped iterator knows how many indices are left, the lower bound
/// that `size_hint` gives is the exact number of batches still to come.
pub proof fn law_size_hint_counts_batches<I: ExactSizeIndexIterator>(iter: BatchIterator<I>)
    requires
        iter.batch_size() > 0,
    ensures
        batching::batch_count(
            iter.sampler().hint().0 as nat,
            iter.batch_size(),
            iter.drop_last(),
        ) == iter.batches().len(),
{
    iter.sampler().hint_is_exact();
}

} // verus!
