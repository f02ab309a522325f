use data_jet::collate::Collate;
use data_jet::dataset::{FlatBatch, FlatCollate, TensorDataset};
use data_jet::error::LoaderError;
use data_jet::loader::{DataJetIterator, RustDataLoader};
use data_jet::sampler::Len;

fn dataset(n: usize) -> (Vec<Vec<f64>>, Vec<f64>) {
    let features = (0..n).map(|i| vec![i as f64, i as f64 + 0.5]).collect();
    let labels = (0..n).map(|i| 10.0 * i as f64).collect();
    (features, labels)
}

fn loader(n: usize, batch_size: usize, shuffle: bool, drop_last: bool) -> RustDataLoader<f64> {
    let (features, labels) = dataset(n);
    match RustDataLoader::new(features, labels, batch_size, shuffle, drop_last) {
        Ok(loader) => loader,
        Err(error) => panic!("{}", error.message()),
    }
}

fn drain(mut iter: DataJetIterator<f64>) -> Vec<FlatBatch<f64>> {
    let mut batches = Vec::new();
    while let Some(batch) = iter.next() {
        batches.push(batch);
    }
    batches
}

#[test]
fn collate_lays_rows_end_to_end() {
    let batch = FlatCollate.collate(vec![
        (vec![1.0, 2.0, 3.0], 7.0),
        (vec![4.0, 5.0, 6.0], 8.0),
    ]);
    assert_eq!(batch.features, vec![1.0, 2.0, 3.0, 4.0, 5.0, 6.0]);
    assert_eq!((batch.nrows, batch.ncols), (2, 3));
    assert_eq!(batch.labels, vec![7.0, 8.0]);
    for i in 0..2 {
        for j in 0..3 {
            assert_eq!(batch.features[i * batch.ncols + j], (i * 3 + j + 1) as f64);
        }
    }
}

#[test]
fn collate_takes_the_width_of_the_first_row() {
    let batch = FlatCollate.collate(vec![(vec![1, 2], 0), (vec![3], 0)]);
    assert_eq!(batch.features, vec![1, 2, 3]);
    assert_eq!((batch.nrows, batch.ncols), (2, 2));
}

#[test]
fn a_closure_can_collate() {
    let longest = |batch: Vec<Vec<u8>>| batch.iter().map(|row| row.len()).max();
    assert_eq!(longest.collate(vec![vec![1], vec![2, 3]]), Some(2));
}

#[test]
fn dataset_samples_and_batches() {
    let (features, labels) = dataset(4);
    let dataset = TensorDataset { features, labels };
    assert_eq!(dataset.len(), 4);
    assert!(!dataset.is_empty());
    assert_eq!(dataset.get_sample(2), (vec![2.0, 2.5], 20.0));
    let batch = dataset.fetch_batch(&vec![3, 1]);
    assert_eq!(batch.features, vec![3.0, 3.5, 1.0, 1.5]);
    assert_eq!(batch.labels, vec![30.0, 10.0]);
}

#[test]
fn loader_refuses_empty_features() {
    let error = RustDataLoader::<f64>::new(vec![], vec![], 0, false, false).err();
    assert_eq!(error, Some(LoaderError::EmptyFeatures));
    assert_eq!(error.map(|e| e.message()), Some("features must not be empty"));
}

#[test]
fn loader_refuses_missing_labels() {
    let error = RustDataLoader::new(vec![vec![1.0], vec![2.0]], vec![1.0], 0, false, false).err();
    assert_eq!(error, Some(LoaderError::LengthMismatch));
    assert_eq!(
        error.map(|e| e.message()),
        Some("features and labels must have the same length")
    );
}

#[test]
fn loader_refuses_batch_size_zero() {
    let error = RustDataLoader::new(vec![vec![1.0]], vec![1.0], 0, true, true).err();
    assert_eq!(error, Some(LoaderError::ZeroBatchSize));
    assert_eq!(error.map(|e| e.message()), Some("batch_size must be > 0"));
}

#[test]
fn loader_reports_its_settings() {
    let loader = loader(10, 4, true, false);
    assert_eq!(loader.dataset_len(), 10);
    assert_eq!(loader.batch_size(), 4);
    assert!(loader.shuffle());
    assert!(!loader.drop_last());
    assert_eq!(loader.len(), 3);
    let dataset = loader.dataset();
    assert_eq!(dataset.features[9], vec![9.0, 9.5]);
    assert_eq!(dataset.labels.len(), 10);
}

#[test]
fn sequential_epoch_gives_back_the_dataset() {
    let loader = loader(5, 2, false, false);
    assert_eq!(loader.batch_indices(), vec![vec![0, 1], vec![2, 3], vec![4]]);
    let batches = drain(loader.iter());
    assert_eq!(batches.len(), loader.len());
    assert_eq!(batches[1].features, vec![2.0, 2.5, 3.0, 3.5]);
    assert_eq!(batches[1].labels, vec![20.0, 30.0]);
    assert_eq!((batches[1].nrows, batches[1].ncols), (2, 2));
    assert_eq!(batches[2].features, vec![4.0, 4.5]);
    assert_eq!((batches[2].nrows, batches[2].ncols), (1, 2));
    let labels: Vec<f64> = batches.iter().flat_map(|batch| batch.labels.clone()).collect();
    assert_eq!(labels, dataset(5).1);
    let features: Vec<f64> = batches.iter().flat_map(|batch| batch.features.clone()).collect();
    assert_eq!(features, dataset(5).0.concat());
}

#[test]
fn unshuffled_epochs_are_alike() {
    let loader = loader(9, 4, false, true);
    assert_eq!(loader.batch_indices(), loader.batch_indices());
}

#[test]
fn drop_last_drops_the_remainder() {
    let loader = loader(5, 2, false, true);
    assert_eq!(loader.len(), 2);
    let batches = drain(loader.iter());
    assert_eq!(batches.len(), 2);
    assert_eq!(batches[1].labels, vec![20.0, 30.0]);
    let labels: Vec<f64> = batches.iter().flat_map(|batch| batch.labels.clone()).collect();
    assert_eq!(labels, dataset(5).1[..4].to_vec());
    let features: Vec<f64> = batches.iter().flat_map(|batch| batch.features.clone()).collect();
    assert_eq!(features, dataset(5).0[..4].concat());
}

#[test]
fn shuffled_epoch_keeps_every_sample() {
    let loader = loader(40, 7, true, false);
    let batches = drain(loader.iter());
    assert_eq!(batches.len(), 6);
    let mut seen = vec![false; 40];
    for batch in &batches {
        assert_eq!(batch.features.len(), batch.nrows * batch.ncols);
        for row in 0..batch.nrows {
            let i = batch.features[row * batch.ncols] as usize;
            assert_eq!(batch.features[row * batch.ncols + 1], i as f64 + 0.5);
            assert_eq!(batch.labels[row], 10.0 * i as f64);
            assert!(!seen[i]);
            seen[i] = true;
        }
    }
    assert!(seen.iter().all(|&s| s));
}

#[test]
fn load_follows_the_plan() {
    let loader = loader(5, 2, true, false);
    let batches = drain(loader.load(&vec![vec![4, 0], vec![2]]));
    assert_eq!(batches[0].labels, vec![40.0, 0.0]);
    assert_eq!(batches[0].features, vec![4.0, 4.5, 0.0, 0.5]);
    assert_eq!(batches[1].labels, vec![20.0]);
}

#[test]
fn iterator_counts_down_and_ends() {
    let mut iter = loader(3, 2, false, false).iter();
    assert_eq!(iter.len(), 2);
    assert!(iter.next().is_some());
    assert_eq!(iter.len(), 1);
    assert!(iter.next().is_some());
    assert_eq!(iter.len(), 0);
    assert!(iter.next().is_none());
    assert!(iter.next().is_none());
    assert_eq!(iter.len(), 0);
}
