//! An in-memory dataset of feature rows and labels, and the flat batches that
//! its samples are collated into.
//!
//! Nothing here computes with the values themselves, so the element type is a
//! parameter.
use vstd::arithmetic::mul::lemma_mul_is_distributive_add_other_way;
use vstd::prelude::*;

use crate::collate::Collate;
use crate::model;
use crate::sampler::Len;

verus! {

/// Holds a feature matrix, row by row, and a label vector.
#[derive(Clone, Debug)]
pub struct TensorDataset<T> {
    pub features: Vec<Vec<T>>,
    pub labels: Vec<T>,
}

impl<T> Len for TensorDataset<T> {
    open spec fn has_len(&self) -> bool {
        true
    }

    open spec fn spec_len(&self) -> nat {
        self.features@.len()
    }

    fn len(&self) -> (n: usize)
        ensures
            n == self.features@.len(),
    {
        self.features.len()
    }
}

/// The samples, feature row and label, at the given indices.
pub open spec fn samples_at<T>(
    features: Seq<Seq<T>>,
    labels: Seq<T>,
    indices: Seq<usize>,
) -> Seq<(Seq<T>, T)> {
    Seq::new(indices.len(), |i: int| (features[indices[i] as int], labels[indices[i] as int]))
}

/// Copies a row element by element.
pub(crate) fn copy_row<T: Copy>(row: &Vec<T>) -> (copy: Vec<T>)
    ensures
        copy@ == row@,
{
    let mut copy: Vec<T> = Vec::with_capacity(row.len());
    let mut i: usize = 0;
    while i < row.len()
        invariant
            i <= row@.len(),
            copy@ == row@.take(i as int),
        decreases row@.len() - i,
    {
        copy.push(row[i]);
        i += 1;
        assert(copy@ =~= row@.take(i as int));
    }
    assert(row@.take(i as int) =~= row@);
    copy
}

impl<T: Copy> TensorDataset<T> {
    /// The sample at `index`: a copy of its feature row, and its label.
    pub fn get_sample(&self, index: usize) -> (sample: (Vec<T>, T))
        requires
            index < self.features@.len(),
            index < self.labels@.len(),
        ensures
            sample.0@ == self.features@[index as int]@,
            sample.1 == self.labels@[index as int],
    {
        (copy_row(&self.features[index]), self.labels[index])
    }

    /// Fetches the samples at `indices`, in that order, and collates them.
    pub fn fetch_batch(&self, indices: &Vec<usize>) -> (batch: FlatBatch<T>)
        requires
            indices@.len() > 0,
            forall|i: int|
                0 <= i < indices@.len() ==> #[trigger] indices@[i] < self.features@.len()
                    && indices@[i] < self.labels@.len(),
        ensures
            batch@ == flat(samples_at(model::contents(self.features@), self.labels@, indices@)),
            batch.nrows == indices@.len(),
            batch.ncols == self.features@[indices@[0] as int]@.len(),
            batch.labels@.len() == indices@.len(),
            forall|i: int|
                0 <= i < indices@.len() ==> #[trigger] batch.labels@[i]
                    == self.labels@[indices@[i] as int],
            batch.features@ == Seq::new(
                indices@.len(),
                |i: int| self.features@[indices@[i] as int]@,
            ).flatten(),
    {
        let mut samples: Vec<(Vec<T>, T)> = Vec::with_capacity(indices.len());
        let mut i: usize = 0;
        while i < indices.len()
            invariant
                i <= indices@.len(),
                samples@.len() == i,
                forall|j: int|
                    0 <= j < indices@.len() ==> #[trigger] indices@[j] < self.features@.len()
                        && indices@[j] < self.labels@.len(),
                forall|j: int|
                    0 <= j < i ==> (#[trigger] samples@[j]).0@ == self.features@[indices@[j] as int]@
                        && samples@[j].1 == self.labels@[indices@[j] as int],
            decreases indices@.len() - i,
        {
            samples.push(self.get_sample(indices[i]));
            i += 1;
        }
        assert(sample_views(samples@) =~= samples_at(
            model::contents(self.features@),
            self.labels@,
            indices@,
        ));
        proof {
            assert(Seq::new(samples@.len(), |j: int| samples@[j].0@) =~= Seq::new(
                indices@.len(),
                |j: int| self.features@[indices@[j] as int]@,
            ));
        }
        FlatCollate.collate(samples)
    }
}

/// What a collated batch holds.
pub struct FlatBatchView<T> {
    pub features: Seq<T>,
    pub nrows: nat,
    pub ncols: nat,
    pub labels: Seq<T>,
}

/// Collated batch stored as flat contiguous memory, row by row.
pub struct FlatBatch<T> {
    pub features: Vec<T>,
    pub nrows: usize,
    pub ncols: usize,
    pub labels: Vec<T>,
}

impl<T> View for FlatBatch<T> {
    type V = FlatBatchView<T>;

    open spec fn view(&self) -> FlatBatchView<T> {
        FlatBatchView {
            features: self.features@,
            nrows: self.nrows as nat,
            ncols: self.ncols as nat,
            labels: self.labels@,
        }
    }
}

/// The samples of a batch, each row as the sequence that it holds.
pub open spec fn sample_views<T>(batch: Seq<(Vec<T>, T)>) -> Seq<(Seq<T>, T)> {
    Seq::new(batch.len(), |i: int| (batch[i].0@, batch[i].1))
}

/// The feature rows of some samples.
pub open spec fn rows<T>(samples: Seq<(Seq<T>, T)>) -> Seq<Seq<T>> {
    Seq::new(samples.len(), |i: int| samples[i].0)
}

/// What some samples are collated into: their rows end to end, their number,
/// the width of the first row, and their labels.
pub open spec fn flat<T>(samples: Seq<(Seq<T>, T)>) -> FlatBatchView<T> {
    FlatBatchView {
        features: rows(samples).flatten(),
        nrows: samples.len(),
        ncols: samples[0].0.len(),
        labels: Seq::new(samples.len(), |i: int| samples[i].1),
    }
}

/// Batches samples into flat vectors with shape metadata.
#[derive(Clone, Debug)]
pub struct FlatCollate;

impl<T> Collate<(Vec<T>, T)> for FlatCollate {
    type Output = FlatBatch<T>;

    open spec fn accepts(&self, batch: Vec<(Vec<T>, T)>) -> bool {
        batch@.len() > 0
    }

    open spec fn gives(&self, batch: Vec<(Vec<T>, T)>, output: FlatBatch<T>) -> bool {
        output@ == flat(sample_views(batch@))
    }

    fn collate(&self, batch: Vec<(Vec<T>, T)>) -> (output: FlatBatch<T>)
        ensures
            output.nrows == batch@.len(),
            output.ncols == batch@[0].0@.len(),
            output.labels@ == Seq::new(batch@.len(), |i: int| batch@[i].1),
            output.features@ == Seq::new(batch@.len(), |i: int| batch@[i].0@).flatten(),
    {
        let nrows: usize = batch.len();
        let ncols: usize = batch[0].0.len();
        let ghost samples = sample_views(batch@);
        let ghost all = rows(samples);

        let mut features: Vec<T> = Vec::new();
        let mut labels: Vec<T> = Vec::with_capacity(nrows);
        assert(all.take(0).flatten() =~= Seq::<T>::empty());
        for sample in iter: batch.into_iter()
            invariant
                iter.seq() == batch@,
                samples == sample_views(batch@),
                all == rows(samples),
                features@ == all.take(iter.index()).flatten(),
                labels@ == Seq::new(iter.index() as nat, |i: int| samples[i].1),
        {
            let ghost k = iter.index();
            let (feat, label) = sample;
            let mut feat: Vec<T> = feat;
            features.append(&mut feat);
            labels.push(label);
            proof {
                all.take(k).lemma_flatten_push(all[k]);
                assert(all.take(k + 1) =~= all.take(k).push(all[k]));
                assert(labels@ =~= Seq::new((k + 1) as nat, |i: int| samples[i].1));
            }
        }
        assert(all.take(nrows as int) =~= all);
        assert(all =~= Seq::new(batch@.len(), |i: int| batch@[i].0@));
        FlatBatch { features, nrows, ncols, labels }
    }
}

/// A collated batch is seen as the fields that it has.
pub proof fn law_flat_batch_view<T>(batch: FlatBatch<T>)
    ensures
        batch@.features == batch.features@,
        batch@.nrows == batch.nrows,
        batch@.ncols == batch.ncols,
        batch@.labels == batch.labels@,
{
}

/// Every batch of samples but the empty one can be collated. What becomes of it are
/// the rows end to end, whatever their widths, the number of samples, the width of
/// the first row, and the labels.
pub proof fn law_flat_collate<T>(batch: Vec<(Vec<T>, T)>, output: FlatBatch<T>)
    ensures
        FlatCollate.accepts(batch) <==> batch@.len() > 0,
        batch@.len() > 0 && FlatCollate.gives(batch, output) ==> {
            &&& output.nrows == batch@.len()
            &&& output.ncols == batch@[0].0@.len()
            &&& output.labels@ == Seq::new(batch@.len(), |i: int| batch@[i].1)
            &&& output.features@ == Seq::new(batch@.len(), |i: int| batch@[i].0@).flatten()
        },
{
    assert(rows(sample_views(batch@)) =~= Seq::new(batch@.len(), |i: int| batch@[i].0@));
    assert(FlatCollate.gives(batch, output) ==> output.labels@ =~= Seq::new(
        batch@.len(),
        |i: int| batch@[i].1,
    ));
}

/// All rows are as wide as the first one.
pub open spec fn uniform<T>(samples: Seq<(Seq<T>, T)>) -> bool {
    forall|i: int| 0 <= i < samples.len() ==> (#[trigger] samples[i]).0.len() == samples[0].0.len()
}

proof fn lemma_flatten_uniform<T>(all: Seq<Seq<T>>, width: nat, i: int, j: int)
    requires
        forall|r: int| 0 <= r < all.len() ==> (#[trigger] all[r]).len() == width,
    ensures
        all.flatten().len() == all.len() * width,
        0 <= i < all.len() && 0 <= j < width ==> {
            &&& 0 <= i * width + j < all.len() * width
            &&& all.flatten()[i * width + j] == all[i][j]
        },
    decreases all.len(),
{
    if all.len() == 0 {
        assert(0 * width == 0);
    } else {
        let rest = all.drop_first();
        lemma_flatten_uniform(rest, width, i - 1, j);
        assert(all.flatten() == all.first() + rest.flatten());
        lemma_mul_is_distributive_add_other_way(width as int, rest.len() as int, 1);
        lemma_mul_is_distributive_add_other_way(width as int, i - 1, 1);
        if 0 <= i < all.len() && 0 <= j < width {
            if i == 0 {
                assert(0 * width == 0);
                assert(0 <= rest.len() * width) by (nonlinear_arith);
            } else {
                assert(rest[i - 1] == all[i]);
                assert(0 <= (i - 1) * width) by (nonlinear_arith)
                    requires
                        i >= 1,
                ;
            }
        }
    }
}

/// Where all rows are equally wide, a collated batch is a matrix of `nrows`
/// rows and `ncols` columns in row-major order, and so has just the elements
/// that its shape asks for. There is a label for each row.
pub proof fn law_flat_is_row_major<T>(samples: Seq<(Seq<T>, T)>, i: int, j: int)
    requires
        uniform(samples),
    ensures
        flat(samples).labels.len() == flat(samples).nrows,
        flat(samples).features.len() == flat(samples).nrows * flat(samples).ncols,
        0 <= i < flat(samples).nrows && 0 <= j < flat(samples).ncols ==> {
            &&& 0 <= i * flat(samples).ncols + j < flat(samples).features.len()
            &&& flat(samples).features[i * flat(samples).ncols + j] == samples[i].0[j]
        },
{
    lemma_flatten_uniform(rows(samples), samples[0].0.len(), i, j);
}

} // verus!
