//! The in-memory data loader and the iterator over its batches.
use vstd::prelude::*;

use crate::batching;
use crate::dataset;
use crate::dataset::{copy_row, FlatBatch, FlatBatchView, TensorDataset};
use crate::epoch;
use crate::error::LoaderError;
use crate::model;
use crate::sampler;

verus! {

/// What a data loader holds.
pub struct LoaderView<T> {
    pub features: Seq<Seq<T>>,
    pub labels: Seq<T>,
    pub batch_size: nat,
    pub shuffle: bool,
    pub drop_last: bool,
}

impl<T> LoaderView<T> {
    /// The batches of indices that one epoch may consist of.
    pub open spec fn plans(self, plan: Seq<Seq<usize>>) -> bool {
        epoch::plans(self.features.len(), self.batch_size, self.shuffle, self.drop_last, plan)
    }

    /// The batches that come of a plan: the samples it names, collated.
    pub open spec fn fetched(self, plan: Seq<Seq<usize>>) -> Seq<FlatBatchView<T>> {
        Seq::new(
            plan.len(),
            |k: int| dataset::flat(dataset::samples_at(self.features, self.labels, plan[k])),
        )
    }

    /// Why a loader with these contents is refused, if it is.
    pub open spec fn refusal(self) -> Option<LoaderError> {
        if self.features.len() == 0 {
            Some(LoaderError::EmptyFeatures)
        } else if self.features.len() != self.labels.len() {
            Some(LoaderError::LengthMismatch)
        } else if self.batch_size == 0 {
            Some(LoaderError::ZeroBatchSize)
        } else {
            None
        }
    }
}

/// Data loader over an in-memory dataset.
pub struct RustDataLoader<T> {
    features: Vec<Vec<T>>,
    labels: Vec<T>,
    batch_size: usize,
    shuffle: bool,
    drop_last: bool,
}

impl<T> View for RustDataLoader<T> {
    type V = LoaderView<T>;

    closed spec fn view(&self) -> LoaderView<T> {
        LoaderView {
            features: model::contents(self.features@),
            labels: self.labels@,
            batch_size: self.batch_size as nat,
            shuffle: self.shuffle,
            drop_last: self.drop_last,
        }
    }
}

impl<T> RustDataLoader<T> {
    #[verifier::type_invariant]
    spec fn not_refused(self) -> bool {
        self@.refusal() is None
    }

    /// Makes a data loader. There must be a feature row, a label for each of
    /// them, and room for a sample in a batch.
    pub fn new(
        features: Vec<Vec<T>>,
        labels: Vec<T>,
        batch_size: usize,
        shuffle: bool,
        drop_last: bool,
    ) -> (result: Result<Self, LoaderError>)
        ensures
            ({
                let asked = LoaderView {
                    features: model::contents(features@),
                    labels: labels@,
                    batch_size: batch_size as nat,
                    shuffle,
                    drop_last,
                };
                match asked.refusal() {
                    Some(error) => result == Err::<Self, LoaderError>(error),
                    None => result matches Ok(loader) && loader@ == asked,
                }
            }),
            result is Ok <==> features@.len() > 0 && features@.len() == labels@.len() && batch_size
                > 0,
            result == Err::<Self, LoaderError>(LoaderError::EmptyFeatures) <==> features@.len()
                == 0,
            result == Err::<Self, LoaderError>(LoaderError::LengthMismatch) <==> features@.len() > 0
                && features@.len() != labels@.len(),
            result == Err::<Self, LoaderError>(LoaderError::ZeroBatchSize) <==> features@.len() > 0
                && features@.len() == labels@.len() && batch_size == 0,
            result matches Ok(loader) ==> {
                &&& loader@.features.len() == features@.len()
                &&& forall|i: int|
                    0 <= i < features@.len() ==> #[trigger] loader@.features[i] == features@[i]@
                &&& loader@.labels == labels@
                &&& loader@.batch_size == batch_size
                &&& loader@.shuffle == shuffle
                &&& loader@.drop_last == drop_last
            },
    {
        if features.is_empty() {
            return Err(LoaderError::EmptyFeatures);
        }
        if features.len() != labels.len() {
            return Err(LoaderError::LengthMismatch);
        }
        if batch_size == 0 {
            return Err(LoaderError::ZeroBatchSize);
        }
        Ok(RustDataLoader { features, labels, batch_size, shuffle, drop_last })
    }

    /// The number of batches in an epoch.
    pub fn len(&self) -> (n: usize)
        ensures
            self@.refusal() is None,
            n == batching::batch_count(
                self@.features.len(),
                self@.batch_size,
                self@.drop_last,
            ),
            self@.drop_last ==> n * self@.batch_size <= self@.features.len() < n * self@.batch_size
                + self@.batch_size,
            !self@.drop_last ==> n * self@.batch_size - self@.batch_size < self@.features.len() <= n
                * self@.batch_size,
    {
        proof {
            use_type_invariant(self);
        }
        batching::count_batches(self.features.len(), self.batch_size, self.drop_last)
    }

    /// Draws the batches of indices for one epoch.
    pub fn batch_indices(&self) -> (plan: Vec<Vec<usize>>)
        ensures
            self@.plans(model::contents(plan@)),
            epoch::fetchable(self@.features.len(), model::contents(plan@)),
            plan@.len() == batching::batch_count(
                self@.features.len(),
                self@.batch_size,
                self@.drop_last,
            ),
            forall|k: int|
                0 <= k < plan@.len() ==> 1 <= (#[trigger] plan@[k])@.len() <= self@.batch_size,
            forall|k: int|
                0 <= k < plan@.len() && (self@.drop_last || k + 1 < plan@.len()) ==> (
                #[trigger] plan@[k])@.len() == self@.batch_size,
            !self@.shuffle ==> forall|k: int, j: int|
                0 <= k < plan@.len() && 0 <= j < plan@[k]@.len() ==> #[trigger] plan@[k]@[j] == k
                    * self@.batch_size + j,
            self@.shuffle ==> exists|order: Seq<usize>|
                {
                    &&& #[trigger] sampler::is_draw(batching::ascending(self@.features.len()), order)
                    &&& order.len() == self@.features.len()
                    &&& forall|k: int, j: int|
                        0 <= k < plan@.len() && 0 <= j < plan@[k]@.len() ==> #[trigger] plan@[k]@[j]
                            == order[k * self@.batch_size + j]
                },
            model::contents(plan@).flatten().no_duplicates(),
    {
        proof {
            use_type_invariant(self);
        }
        let plan = epoch::draw_batches(
            self.features.len(),
            self.batch_size,
            self.shuffle,
            self.drop_last,
        );
        proof {
            epoch::law_plans_are_fetchable(
                self@.features.len(),
                self@.batch_size,
                self@.shuffle,
                self@.drop_last,
                model::contents(plan@),
            );
            law_epoch_has_len_batches(self@, model::contents(plan@));
            epoch::law_epoch_names_each_sample_once(
                self@.features.len(),
                self@.batch_size,
                self@.shuffle,
                self@.drop_last,
                model::contents(plan@),
            );
            let batches = model::contents(plan@);
            assert(batches.len() == plan@.len());
            assert forall|k: int| 0 <= k < plan@.len() implies (#[trigger] plan@[k])@
                == batches[k] by {}
            law_epoch_batch_sizes(self@, batches);
            if self@.shuffle {
                law_shuffled_epoch_is_cut_from_a_draw(self@, batches);
                let order = choose|order: Seq<usize>|
                    {
                        &&& #[trigger] sampler::is_draw(
                            batching::ascending(self@.features.len()),
                            order,
                        )
                        &&& order.len() == self@.features.len()
                        &&& forall|k: int, j: int|
                            0 <= k < batches.len() && 0 <= j < batches[k].len()
                                ==> #[trigger] batches[k][j] == order[k * self@.batch_size + j]
                    };
                assert forall|k: int, j: int|
                    0 <= k < plan@.len() && 0 <= j < plan@[k]@.len() implies #[trigger] plan@[k]@[j]
                    == order[k * self@.batch_size + j] by {
                    assert(batches[k][j] == plan@[k]@[j]);
                }
            } else {
                law_unshuffled_epoch_counts_up(self@, batches);
                assert forall|k: int, j: int|
                    0 <= k < plan@.len() && 0 <= j < plan@[k]@.len() implies #[trigger] plan@[k]@[j]
                    == k * self@.batch_size + j by {
                    assert(batches[k][j] == plan@[k]@[j]);
                }
            }
        }
        plan
    }

    /// The number of samples in the dataset.
    pub fn dataset_len(&self) -> (n: usize)
        ensures
            n == self@.features.len(),
    {
        self.features.len()
    }

    /// The number of samples in a full batch. No loader is one that would have
    /// been refused, so there is room for a sample in it.
    pub fn batch_size(&self) -> (batch_size: usize)
        ensures
            self@.refusal() is None,
            batch_size == self@.batch_size,
            batch_size > 0,
    {
        proof {
            use_type_invariant(self);
        }
        self.batch_size
    }

    /// Whether each epoch visits the samples in a random order.
    pub fn shuffle(&self) -> (shuffle: bool)
        ensures
            shuffle == self@.shuffle,
    {
        self.shuffle
    }

    /// Whether a partial batch at the end of an epoch is dropped.
    pub fn drop_last(&self) -> (drop_last: bool)
        ensures
            drop_last == self@.drop_last,
    {
        self.drop_last
    }
}

impl<T: Copy> RustDataLoader<T> {
    /// A copy of the dataset that the samples are fetched from.
    pub fn dataset(&self) -> (dataset: TensorDataset<T>)
        ensures
            model::contents(dataset.features@) == self@.features,
            dataset.labels@ == self@.labels,
            dataset.features@.len() == self@.features.len(),
            forall|i: int|
                0 <= i < self@.features.len() ==> (#[trigger] dataset.features@[i])@
                    == self@.features[i],
    {
        let mut features: Vec<Vec<T>> = Vec::with_capacity(self.features.len());
        let mut i: usize = 0;
        while i < self.features.len()
            invariant
                i <= self.features@.len(),
                features@.len() == i,
                forall|r: int| 0 <= r < i ==> (#[trigger] features@[r])@ == self.features@[r]@,
            decreases self.features@.len() - i,
        {
            features.push(copy_row(&self.features[i]));
            i += 1;
        }
        assert(model::contents(features@) =~= self@.features);
        TensorDataset { features, labels: copy_row(&self.labels) }
    }

    /// Fetches and collates the batches of a plan, and returns an iterator that
    /// hands them out.
    pub fn load(&self, plan: &Vec<Vec<usize>>) -> (iter: DataJetIterator<T>)
        requires
            epoch::fetchable(self@.features.len(), model::contents(plan@)),
        ensures
            iter.remaining() == self@.fetched(model::contents(plan@)),
            iter.remaining().len() == plan@.len(),
            forall|k: int|
                0 <= k < plan@.len() ==> {
                    &&& (#[trigger] iter.remaining()[k]).nrows == plan@[k]@.len()
                    &&& iter.remaining()[k].ncols == self@.features[plan@[k]@[0] as int].len()
                    &&& iter.remaining()[k].labels == Seq::new(
                        plan@[k]@.len(),
                        |i: int| self@.labels[plan@[k]@[i] as int],
                    )
                    &&& iter.remaining()[k].features == Seq::new(
                        plan@[k]@.len(),
                        |i: int| self@.features[plan@[k]@[i] as int],
                    ).flatten()
                },
    {
        proof {
            use_type_invariant(self);
        }
        let dataset = self.dataset();
        let ghost indices = model::contents(plan@);
        let mut batches: Vec<FlatBatch<T>> = Vec::with_capacity(plan.len());
        let mut k: usize = 0;
        while k < plan.len()
            invariant
                k <= plan@.len(),
                indices == model::contents(plan@),
                epoch::fetchable(self@.features.len(), indices),
                self@.features.len() == self@.labels.len(),
                model::contents(dataset.features@) == self@.features,
                dataset.labels@ == self@.labels,
                batches@.len() == k,
                forall|b: int| 0 <= b < k ==> (#[trigger] batches@[b])@ == self@.fetched(indices)[b],
            decreases plan@.len() - k,
        {
            assert(indices[k as int] == plan@[k as int]@);
            assert(model::contents(dataset.features@).len() == dataset.features@.len());
            batches.push(dataset.fetch_batch(&plan[k]));
            k += 1;
        }
        let iter = DataJetIterator::new(batches);
        assert(iter.remaining() =~= self@.fetched(indices));
        proof {
            assert forall|k: int| 0 <= k < plan@.len() implies {
                &&& (#[trigger] iter.remaining()[k]).nrows == plan@[k]@.len()
                &&& iter.remaining()[k].ncols == self@.features[plan@[k]@[0] as int].len()
                &&& iter.remaining()[k].labels =~= Seq::new(
                    plan@[k]@.len(),
                    |i: int| self@.labels[plan@[k]@[i] as int],
                )
                &&& iter.remaining()[k].features == Seq::new(
                    plan@[k]@.len(),
                    |i: int| self@.features[plan@[k]@[i] as int],
                ).flatten()
            } by {
                assert(indices[k] == plan@[k]@);
                law_fetched_batches_hold_their_samples(self@, indices, k);
            }
        }
        iter
    }

    /// Draws the batches of an epoch, fetches and collates all of them, and
    /// returns an iterator that hands them out.
    pub fn iter(&self) -> (iter: DataJetIterator<T>)
        ensures
            exists|plan: Seq<Seq<usize>>| #[trigger]
                self@.plans(plan) && iter.remaining() == self@.fetched(plan),
            iter.remaining().len() == batching::batch_count(
                self@.features.len(),
                self@.batch_size,
                self@.drop_last,
            ),
            forall|k: int|
                0 <= k < iter.remaining().len() ==> {
                    &&& 1 <= (#[trigger] iter.remaining()[k]).nrows <= self@.batch_size
                    &&& iter.remaining()[k].labels.len() == iter.remaining()[k].nrows
                },
            forall|k: int|
                0 <= k < iter.remaining().len() && (self@.drop_last || k + 1
                    < iter.remaining().len()) ==> (#[trigger] iter.remaining()[k]).nrows
                    == self@.batch_size,
            !self@.shuffle ==> {
                let kept = if self@.drop_last {
                    self@.features.len() - self@.features.len() % self@.batch_size
                } else {
                    self@.features.len() as int
                };
                &&& Seq::new(
                    iter.remaining().len(),
                    |k: int| iter.remaining()[k].labels,
                ).flatten() == self@.labels.take(kept)
                &&& Seq::new(
                    iter.remaining().len(),
                    |k: int| iter.remaining()[k].features,
                ).flatten() == self@.features.take(kept).flatten()
            },
            self@.shuffle ==> exists|order: Seq<usize>|
                {
                    &&& #[trigger] sampler::is_draw(
                        batching::ascending(self@.features.len()),
                        order,
                    )
                    &&& order.len() == self@.features.len()
                    &&& forall|k: int, i: int|
                        0 <= k < iter.remaining().len() && 0 <= i < iter.remaining()[k].nrows
                            ==> #[trigger] iter.remaining()[k].labels[i]
                            == self@.labels[order[k * self@.batch_size + i] as int]
                    &&& forall|k: int|
                        0 <= k < iter.remaining().len() ==> (#[trigger] iter.remaining()[k]).features
                            == Seq::new(
                            iter.remaining()[k].nrows,
                            |i: int| self@.features[order[k * self@.batch_size + i] as int],
                        ).flatten()
                },
    {
        proof {
            use_type_invariant(self);
        }
        let plan = self.batch_indices();
        proof {
            let batches = model::contents(plan@);
            assert(self.features.len() == self@.features.len());
            law_epoch_batch_sizes(self@, batches);
            if self@.shuffle {
                law_shuffled_epoch_is_cut_from_a_draw(self@, batches);
            } else {
                law_sequential_epoch_gives_back_the_dataset(self@, batches);
            }
        }
        let iter = self.load(&plan);
        proof {
            if self@.shuffle {
                let order = choose|order: Seq<usize>|
                    {
                        &&& #[trigger] sampler::is_draw(
                            batching::ascending(self@.features.len()),
                            order,
                        )
                        &&& order.len() == self@.features.len()
                        &&& forall|k: int, j: int|
                            0 <= k < plan@.len() && 0 <= j < plan@[k]@.len()
                                ==> #[trigger] plan@[k]@[j] == order[k * self@.batch_size + j]
                    };
                assert forall|k: int, i: int|
                    0 <= k < iter.remaining().len() && 0 <= i
                        < iter.remaining()[k].nrows implies #[trigger] iter.remaining()[k].labels[i]
                    == self@.labels[order[k * self@.batch_size + i] as int] by {
                    assert(iter.remaining()[k].nrows == plan@[k]@.len());
                    assert(plan@[k]@[i] == order[k * self@.batch_size + i]);
                }
                assert forall|k: int| 0 <= k < iter.remaining().len() implies (
                #[trigger] iter.remaining()[k]).features == Seq::new(
                    iter.remaining()[k].nrows,
                    |i: int| self@.features[order[k * self@.batch_size + i] as int],
                ).flatten() by {
                    assert(Seq::new(
                        plan@[k]@.len(),
                        |i: int| self@.features[plan@[k]@[i] as int],
                    ) =~= Seq::new(
                        iter.remaining()[k].nrows,
                        |i: int| self@.features[order[k * self@.batch_size + i] as int],
                    ));
                }
            } else {
                let given = self@.fetched(model::contents(plan@));
                let n = self@.features.len();
                vstd::arithmetic::div_mod::lemma_mod_decreases(n, self@.batch_size);
                assert(Seq::new(given.len(), |k: int| iter.remaining()[k].labels) =~= Seq::new(
                    given.len(),
                    |k: int| given[k].labels,
                ));
                assert(Seq::new(given.len(), |k: int| iter.remaining()[k].features) =~= Seq::new(
                    given.len(),
                    |k: int| given[k].features,
                ));
            }
        }
        iter
    }
}

/// Iterator over batches that have been fetched and collated.
pub struct DataJetIterator<T> {
    batches: Vec<FlatBatch<T>>,
    pos: usize,
}

impl<T> DataJetIterator<T> {
    #[verifier::type_invariant]
    spec fn position_in_range(self) -> bool {
        self.pos <= self.batches@.len()
    }

    /// The batches that are still to be handed out.
    pub closed spec fn remaining(self) -> Seq<FlatBatchView<T>> {
        Seq::new(
            (self.batches@.len() - self.pos) as nat,
            |k: int| self.batches@[self.pos + k]@,
        )
    }

    /// An iterator that hands out `batches` in order.
    pub fn new(batches: Vec<FlatBatch<T>>) -> (iter: Self)
        ensures
            iter.remaining() == Seq::new(batches@.len(), |k: int| batches@[k]@),
    {
        let iter = DataJetIterator { batches, pos: 0 };
        assert(iter.remaining() =~= Seq::new(batches@.len(), |k: int| batches@[k]@));
        iter
    }

    /// Hands out the next batch, if there is one.
    pub fn next(&mut self) -> (batch: Option<FlatBatch<T>>)
        ensures
            old(self).remaining().len() > 0 ==> {
                &&& batch matches Some(found) && found@ == old(self).remaining()[0]
                &&& final(self).remaining() == old(self).remaining().drop_first()
            },
            old(self).remaining().len() == 0 ==> {
                &&& batch is None
                &&& final(self).remaining() == old(self).remaining()
            },
    {
        proof {
            use_type_invariant(&*self);
        }
        if self.pos >= self.batches.len() {
            return None;
        }
        let mut batch: FlatBatch<T> = FlatBatch {
            features: Vec::new(),
            nrows: 0,
            ncols: 0,
            labels: Vec::new(),
        };
        std::mem::swap(&mut batch, &mut self.batches[self.pos]);
        self.pos += 1;
        assert(self.remaining() =~= old(self).remaining().drop_first());
        Some(batch)
    }

    /// The number of batches that are still to be handed out.
    pub fn len(&self) -> (n: usize)
        ensures
            n == self.remaining().len(),
    {
        proof {
            use_type_invariant(self);
        }
        self.batches.len() - self.pos
    }
}

/// The labels of some batches, end to end.
pub open spec fn all_labels<T>(batches: Seq<FlatBatchView<T>>) -> Seq<T> {
    Seq::new(batches.len(), |k: int| batches[k].labels).flatten()
}

/// The features of some batches, end to end.
pub open spec fn all_features<T>(batches: Seq<FlatBatchView<T>>) -> Seq<T> {
    Seq::new(batches.len(), |k: int| batches[k].features).flatten()
}

/// End to end, the batches of a plan hold the samples that the plan names, in
/// that order, and nothing else.
pub proof fn law_batches_hold_the_planned_samples<T>(loader: LoaderView<T>, plan: Seq<Seq<usize>>)
    ensures
        all_labels(loader.fetched(plan)) == dataset::flat(
            dataset::samples_at(loader.features, loader.labels, plan.flatten()),
        ).labels,
        all_features(loader.fetched(plan)) == dataset::flat(
            dataset::samples_at(loader.features, loader.labels, plan.flatten()),
        ).features,
    decreases plan.len(),
{
    let batches = loader.fetched(plan);
    let named = dataset::samples_at(loader.features, loader.labels, plan.flatten());
    if plan.len() == 0 {
        assert(all_labels(batches) =~= dataset::flat(named).labels);
        assert(dataset::rows(named) =~= Seq::<Seq<T>>::empty());
        assert(all_features(batches) =~= dataset::flat(named).features);
    } else {
        let rest = plan.drop_first();
        law_batches_hold_the_planned_samples(loader, rest);
        let later = loader.fetched(rest);
        assert(batches.drop_first() =~= later);
        let head = dataset::samples_at(loader.features, loader.labels, plan.first());
        let tail = dataset::samples_at(loader.features, loader.labels, rest.flatten());
        assert(plan.flatten() == plan.first() + rest.flatten());
        assert(named =~= head + tail);

        let labels = Seq::new(batches.len(), |k: int| batches[k].labels);
        assert(labels.drop_first() =~= Seq::new(later.len(), |k: int| later[k].labels));
        assert(all_labels(batches) =~= dataset::flat(named).labels);

        let features = Seq::new(batches.len(), |k: int| batches[k].features);
        assert(features.drop_first() =~= Seq::new(later.len(), |k: int| later[k].features));
        assert(dataset::rows(named) =~= dataset::rows(head) + dataset::rows(tail));
        vstd::seq_lib::lemma_flatten_concat(dataset::rows(head), dataset::rows(tail));
        assert(all_features(batches) =~= dataset::flat(named).features);
    }
}

/// An epoch hands out as many batches as the loader's length says.
pub proof fn law_epoch_has_len_batches<T>(loader: LoaderView<T>, plan: Seq<Seq<usize>>)
    requires
        loader.batch_size > 0,
        loader.plans(plan),
        loader.features.len() <= usize::MAX,
    ensures
        loader.fetched(plan).len() == batching::batch_count(
            loader.features.len(),
            loader.batch_size,
            loader.drop_last,
        ),
{
    epoch::law_epoch_names_each_sample_once(
        loader.features.len(),
        loader.batch_size,
        loader.shuffle,
        loader.drop_last,
        plan,
    );
}

/// The batches of an epoch are full, all but the last: that one holds between one
/// sample and a full batch of them, and is full too where the partial batch is
/// dropped. This holds of the batches of indices and of what is fetched for them,
/// shuffled or not.
pub proof fn law_epoch_batch_sizes<T>(loader: LoaderView<T>, plan: Seq<Seq<usize>>)
    requires
        loader.batch_size > 0,
        loader.plans(plan),
        loader.features.len() <= usize::MAX,
    ensures
        forall|k: int| 0 <= k < plan.len() ==> 1 <= (#[trigger] plan[k]).len() <= loader.batch_size,
        forall|k: int|
            0 <= k < plan.len() && (loader.drop_last || k + 1 < plan.len()) ==> (
            #[trigger] plan[k]).len() == loader.batch_size,
        loader.drop_last ==> plan.len() * loader.batch_size <= loader.features.len() < plan.len()
            * loader.batch_size + loader.batch_size,
        !loader.drop_last ==> plan.len() * loader.batch_size - loader.batch_size
            < loader.features.len() <= plan.len() * loader.batch_size,
        loader.fetched(plan).len() == plan.len(),
        forall|k: int|
            0 <= k < plan.len() ==> 1 <= (#[trigger] loader.fetched(plan)[k]).nrows
                <= loader.batch_size,
        forall|k: int|
            0 <= k < plan.len() && (loader.drop_last || k + 1 < plan.len()) ==> (
            #[trigger] loader.fetched(plan)[k]).nrows == loader.batch_size,
{
    epoch::law_plan_batch_sizes(
        loader.features.len(),
        loader.batch_size,
        loader.shuffle,
        loader.drop_last,
        plan,
    );
    assert forall|k: int| 0 <= k < plan.len() implies (#[trigger] loader.fetched(plan)[k]).nrows
        == plan[k].len() by {}
}

/// Without shuffling, batch `k` of an epoch holds the samples from
/// `k * batch_size` on, and end to end the batches name 0, 1, 2 and so on, up to
/// the number of samples that are kept.
pub proof fn law_unshuffled_epoch_counts_up<T>(loader: LoaderView<T>, plan: Seq<Seq<usize>>)
    requires
        loader.batch_size > 0,
        loader.plans(plan),
        !loader.shuffle,
        loader.features.len() <= usize::MAX,
    ensures
        forall|k: int, j: int|
            0 <= k < plan.len() && 0 <= j < plan[k].len() ==> #[trigger] plan[k][j] == k
                * loader.batch_size + j,
        plan.flatten() == Seq::new(
            (if loader.drop_last {
                loader.features.len() - loader.features.len() % loader.batch_size
            } else {
                loader.features.len() as int
            }) as nat,
            |i: int| i as usize,
        ),
{
    epoch::law_unshuffled_plan_counts_up(
        loader.features.len(),
        loader.batch_size,
        loader.drop_last,
        plan,
    );
}

/// With shuffling, the batches of an epoch are cut from an order that the
/// generator drew for 0, 1, 2 and so on, the number of samples: position `j` of
/// batch `k` is what was drawn for position `k * batch_size + j`, and end to end
/// the batches are what was drawn, all of it or its front where the partial batch
/// is dropped.
pub proof fn law_shuffled_epoch_is_cut_from_a_draw<T>(
    loader: LoaderView<T>,
    plan: Seq<Seq<usize>>,
)
    requires
        loader.batch_size > 0,
        loader.plans(plan),
        loader.shuffle,
        loader.features.len() <= usize::MAX,
    ensures
        exists|order: Seq<usize>|
            {
                &&& #[trigger] sampler::is_draw(batching::ascending(loader.features.len()), order)
                &&& order.len() == loader.features.len()
                &&& plan.flatten() == order.take(
                    if loader.drop_last {
                        loader.features.len() - loader.features.len() % loader.batch_size
                    } else {
                        loader.features.len() as int
                    },
                )
                &&& forall|k: int, j: int|
                    0 <= k < plan.len() && 0 <= j < plan[k].len() ==> #[trigger] plan[k][j]
                        == order[k * loader.batch_size + j]
            },
{
    epoch::law_shuffled_plan_is_cut_from_a_draw(
        loader.features.len(),
        loader.batch_size,
        loader.drop_last,
        plan,
    );
}

/// Batch `k` of what is fetched for a plan holds the samples that batch `k` of the
/// plan names, in that order: their labels, their rows end to end, their number,
/// and the width of the first row.
pub proof fn law_fetched_batches_hold_their_samples<T>(
    loader: LoaderView<T>,
    plan: Seq<Seq<usize>>,
    k: int,
)
    requires
        0 <= k < plan.len(),
    ensures
        loader.fetched(plan).len() == plan.len(),
        loader.fetched(plan)[k].nrows == plan[k].len(),
        loader.fetched(plan)[k].labels.len() == plan[k].len(),
        forall|i: int|
            0 <= i < plan[k].len() ==> #[trigger] loader.fetched(plan)[k].labels[i]
                == loader.labels[plan[k][i] as int],
        loader.fetched(plan)[k].features == Seq::new(
            plan[k].len(),
            |i: int| loader.features[plan[k][i] as int],
        ).flatten(),
        plan[k].len() > 0 ==> loader.fetched(plan)[k].ncols == loader.features[plan[k][0] as int].len(),
{
    let samples = dataset::samples_at(loader.features, loader.labels, plan[k]);
    assert(dataset::rows(samples) =~= Seq::new(
        plan[k].len(),
        |i: int| loader.features[plan[k][i] as int],
    ));
}

/// A loader is refused for having no feature row, for having another number of
/// labels than of rows, and for a batch size of zero, in that order, and for
/// nothing else.
pub proof fn law_refusal<T>(loader: LoaderView<T>)
    ensures
        loader.refusal() is None <==> loader.features.len() > 0 && loader.features.len()
            == loader.labels.len() && loader.batch_size > 0,
        loader.refusal() == Some(LoaderError::EmptyFeatures) <==> loader.features.len() == 0,
        loader.refusal() == Some(LoaderError::LengthMismatch) <==> loader.features.len() > 0
            && loader.features.len() != loader.labels.len(),
        loader.refusal() == Some(LoaderError::ZeroBatchSize) <==> loader.features.len() > 0
            && loader.features.len() == loader.labels.len() && loader.batch_size == 0,
{
}

/// Making a loader succeeds where there is a feature row, a label for each of
/// them, and room for a sample in a batch, however large the batch, and only
/// there. The loader then holds what it was given.
pub proof fn law_new_keeps_what_it_is_given<T>(
    features: Vec<Vec<T>>,
    labels: Vec<T>,
    batch_size: usize,
    shuffle: bool,
    drop_last: bool,
    result: Result<RustDataLoader<T>, LoaderError>,
)
    requires
        call_ensures(
            RustDataLoader::<T>::new,
            (features, labels, batch_size, shuffle, drop_last),
            result,
        ),
    ensures
        result is Ok <==> features@.len() > 0 && features@.len() == labels@.len() && batch_size > 0,
        result matches Ok(loader) ==> {
            &&& loader@.features.len() == features@.len()
            &&& forall|i: int|
                0 <= i < features@.len() ==> #[trigger] loader@.features[i] == features@[i]@
            &&& loader@.labels == labels@
            &&& loader@.batch_size == batch_size
            &&& loader@.shuffle == shuffle
            &&& loader@.drop_last == drop_last
        },
{
}

/// Without shuffling, an epoch gives back the dataset, the labels and the rows,
/// each in their order: all of them, or, where the partial batch is dropped, all
/// but the remainder at the end.
pub proof fn law_sequential_epoch_gives_back_the_dataset<T>(
    loader: LoaderView<T>,
    plan: Seq<Seq<usize>>,
)
    requires
        loader.refusal() is None,
        loader.plans(plan),
        !loader.shuffle,
        loader.features.len() <= usize::MAX,
    ensures
        ({
            let kept = batching::covered(
                loader.features.len(),
                loader.batch_size,
                loader.drop_last,
            ) as int;
            &&& all_labels(loader.fetched(plan)) == loader.labels.take(kept)
            &&& all_features(loader.fetched(plan)) == loader.features.take(kept).flatten()
        }),
        !loader.drop_last ==> all_labels(loader.fetched(plan)) == loader.labels,
        !loader.drop_last ==> all_features(loader.fetched(plan)) == loader.features.flatten(),
{
    let n = loader.features.len();
    let kept = batching::covered(n, loader.batch_size, loader.drop_last) as int;
    vstd::arithmetic::div_mod::lemma_mod_decreases(n, loader.batch_size);
    let order = batching::ascending(n);
    batching::law_batches_concatenate(order, loader.batch_size, loader.drop_last);
    law_batches_hold_the_planned_samples(loader, plan);
    let named = dataset::samples_at(loader.features, loader.labels, order.take(kept));
    assert(dataset::flat(named).labels =~= loader.labels.take(kept));
    assert(dataset::rows(named) =~= loader.features.take(kept));
    assert(!loader.drop_last ==> loader.labels.take(kept) =~= loader.labels);
    assert(!loader.drop_last ==> loader.features.take(kept) =~= loader.features);
}

proof fn lemma_same_multiset_maps_alike<A, B>(a: Seq<A>, b: Seq<A>, f: spec_fn(A) -> B)
    requires
        a.to_multiset() == b.to_multiset(),
    ensures
        a.map_values(f).to_multiset() == b.map_values(f).to_multiset(),
    decreases a.len(),
{
    broadcast use vstd::seq_lib::group_to_multiset_ensures;

    assert(a.len() == a.to_multiset().len());
    assert(b.len() == b.to_multiset().len());
    if a.len() == 0 {
        assert(a.map_values(f) =~= b.map_values(f));
    } else {
        let x = a.last();
        assert(a.contains(x));
        assert(a.to_multiset().count(x) > 0);
        assert(b.contains(x));
        let i = choose|i: int| 0 <= i < b.len() && b[i] == x;
        let fewer_a = a.drop_last();
        let fewer_b = b.remove(i);
        assert(a.remove(a.len() - 1) =~= fewer_a);
        assert(fewer_a.to_multiset() =~= a.to_multiset().remove(x));
        assert(fewer_b.to_multiset() =~= b.to_multiset().remove(x));
        lemma_same_multiset_maps_alike(fewer_a, fewer_b, f);
        let mapped_a = a.map_values(f);
        let mapped_b = b.map_values(f);
        assert(mapped_a.remove(a.len() - 1) =~= fewer_a.map_values(f));
        assert(mapped_b.remove(i) =~= fewer_b.map_values(f));
        assert(mapped_a.to_multiset() =~= mapped_a.remove(a.len() - 1).to_multiset().insert(f(x)));
        assert(mapped_b.to_multiset() =~= mapped_b.remove(i).to_multiset().insert(f(x)));
    }
}

/// The samples that an epoch hands out are samples of the dataset, row and label
/// together, none more often than it stands there; without dropping, each just as
/// often.
pub proof fn law_epoch_keeps_the_samples<T>(loader: LoaderView<T>, plan: Seq<Seq<usize>>)
    requires
        loader.refusal() is None,
        loader.plans(plan),
        loader.features.len() <= usize::MAX,
    ensures
        ({
            let given = dataset::samples_at(loader.features, loader.labels, plan.flatten());
            let all = Seq::new(
                loader.features.len(),
                |i: int| (loader.features[i], loader.labels[i]),
            );
            &&& given.to_multiset().subset_of(all.to_multiset())
            &&& !loader.drop_last ==> given.to_multiset() == all.to_multiset()
        }),
{
    let n = loader.features.len();
    let order = choose|order: Seq<usize>| #[trigger]
        epoch::visits(n, loader.shuffle, order) && plan == batching::batches(
            order,
            loader.batch_size,
            loader.drop_last,
        );
    let kept = batching::covered(n, loader.batch_size, loader.drop_last) as int;
    vstd::arithmetic::div_mod::lemma_mod_decreases(n, loader.batch_size);
    epoch::law_epoch_order(n, loader.shuffle, order);
    batching::law_batches_concatenate(order, loader.batch_size, loader.drop_last);
    let sample = |i: usize| (loader.features[i as int], loader.labels[i as int]);
    let given = dataset::samples_at(loader.features, loader.labels, order.take(kept));
    let left = order.skip(kept).map_values(sample);
    assert(order.map_values(sample) =~= given + left);
    vstd::seq_lib::lemma_multiset_commutative(given, left);
    assert(batching::ascending(n).map_values(sample) =~= Seq::new(
        n,
        |i: int| (loader.features[i], loader.labels[i]),
    ));
    lemma_same_multiset_maps_alike(order, batching::ascending(n), sample);
    assert(!loader.drop_last ==> order.map_values(sample) =~= given);
}

/// Where all rows of the dataset are equally wide, every batch is a matrix that
/// wide: it has the elements that its shape asks for, and row `i` of it is the
/// row of the sample that the plan names there.
pub proof fn law_uniform_dataset_gives_matrices<T>(
    loader: LoaderView<T>,
    plan: Seq<Seq<usize>>,
    width: nat,
    k: int,
    i: int,
    j: int,
)
    requires
        forall|r: int| 0 <= r < loader.features.len() ==> (#[trigger] loader.features[r]).len()
            == width,
        epoch::fetchable(loader.features.len(), plan),
        0 <= k < plan.len(),
    ensures
        loader.fetched(plan)[k].nrows == plan[k].len(),
        loader.fetched(plan)[k].ncols == width,
        loader.fetched(plan)[k].features.len() == plan[k].len() * width,
        0 <= i < plan[k].len() && 0 <= j < width ==> {
            &&& 0 <= i * width + j < loader.fetched(plan)[k].features.len()
            &&& loader.fetched(plan)[k].features[i * width + j] == loader.features[plan[k][i] as int][j]
        },
{
    let samples = dataset::samples_at(loader.features, loader.labels, plan[k]);
    assert forall|r: int| 0 <= r < samples.len() implies (#[trigger] samples[r]).0.len() == width by {
        assert(plan[k][r] < loader.features.len());
    }
    dataset::law_flat_is_row_major(samples, i, j);
}

} // verus!
