use data_jet::batching::count_batches;
use data_jet::sampler::{
    BatchIterator, BatchSampler, ExactSizeIndexIterator, IndexIterator, Len, RandomSampler,
    RandomSamplerIter, Sampler, SequentialSampler,
};

fn batches_of(n: usize, batch_size: usize, drop_last: bool) -> Vec<Vec<usize>> {
    BatchSampler {
        sampler: SequentialSampler::new(n),
        batch_size,
        drop_last,
    }
    .iter()
    .collect()
}

fn drain<I: IndexIterator>(mut iter: I) -> Vec<usize> {
    let mut indices = Vec::new();
    while let Some(index) = iter.next() {
        indices.push(index);
    }
    indices
}

#[test]
fn sequential_sampler_counts_up() {
    let sampler = SequentialSampler::new(5);
    assert_eq!(sampler.data_source_len, 5);
    assert_eq!(Len::len(&sampler), 5);
    assert!(!sampler.is_empty());
    assert_eq!(drain(sampler.into_iter()), vec![0, 1, 2, 3, 4]);
    assert!(SequentialSampler::new(0).is_empty());
}

#[test]
fn sequential_range_hints_are_exact() {
    let mut range = SequentialSampler::new(3).into_iter();
    assert_eq!(IndexIterator::size_hint(&range), (3, Some(3)));
    assert_eq!(IndexIterator::next(&mut range), Some(0));
    assert_eq!(ExactSizeIndexIterator::len(&range), 2);
    assert_eq!(IndexIterator::size_hint(&(4..2usize)), (0, Some(0)));
}

#[test]
fn random_sampler_yields_a_permutation() {
    let sampler = RandomSampler::new(200);
    assert_eq!(sampler.len(), 200);
    let mut indices = drain(sampler.into_iter());
    assert_eq!(indices.len(), 200);
    indices.sort();
    assert_eq!(indices, (0..200).collect::<Vec<_>>());
}

#[test]
fn random_sampler_does_shuffle() {
    let ascending: Vec<usize> = (0..1000).collect();
    let one = drain(RandomSampler::new(1000).into_iter());
    let other = drain(RandomSampler::new(1000).into_iter());
    assert_ne!(one, ascending);
    assert_ne!(one, other);
}

#[test]
fn random_sampler_over_nothing() {
    assert!(RandomSampler::new(0).is_empty());
    assert_eq!(RandomSampler::new(0).into_iter().next(), None);
}

#[test]
fn random_iterator_counts_down() {
    let mut iter = RandomSamplerIter::new(vec![7, 3, 9]);
    assert_eq!(iter.size_hint(), (3, Some(3)));
    assert_eq!(iter.next(), Some(7));
    assert_eq!(iter.next(), Some(3));
    assert_eq!(iter.size_hint(), (1, Some(1)));
    assert_eq!(iter.len(), 1);
    assert_eq!(iter.next(), Some(9));
    assert_eq!(iter.next(), None);
    assert_eq!(iter.next(), None);
    assert_eq!(iter.size_hint(), (0, Some(0)));
}

#[test]
fn batch_sampler_groups_seven_by_three() {
    assert_eq!(batches_of(7, 3, false), vec![vec![0, 1, 2], vec![3, 4, 5], vec![6]]);
    assert_eq!(batches_of(7, 3, true), vec![vec![0, 1, 2], vec![3, 4, 5]]);
}

#[test]
fn batch_sampler_with_nothing_left_over() {
    assert_eq!(batches_of(4, 2, false), vec![vec![0, 1], vec![2, 3]]);
    assert_eq!(batches_of(4, 2, true), vec![vec![0, 1], vec![2, 3]]);
    assert_eq!(batches_of(0, 2, false), Vec::<Vec<usize>>::new());
}

#[test]
fn batch_larger_than_the_dataset() {
    assert_eq!(batches_of(2, 5, false), vec![vec![0, 1]]);
    assert_eq!(batches_of(2, 5, true), Vec::<Vec<usize>>::new());
    assert_eq!(batches_of(2, usize::MAX, false), vec![vec![0, 1]]);
}

#[test]
fn batch_size_zero_never_fills_up() {
    let sampler = SequentialSampler::new(3);
    let mut iter = BatchSampler { sampler, batch_size: 0, drop_last: false }.iter();
    assert_eq!(iter.next(), Some(vec![0, 1, 2]));
    assert_eq!(iter.next(), None);
    let mut iter = BatchSampler { sampler, batch_size: 0, drop_last: true }.iter();
    assert_eq!(iter.next(), None);
}

#[test]
fn batch_sampler_len_counts_batches() {
    for n in 0..20 {
        for batch_size in 1..7 {
            for drop_last in [false, true] {
                let sampler = BatchSampler {
                    sampler: RandomSampler::new(n),
                    batch_size,
                    drop_last,
                };
                let batches = sampler.iter().collect();
                assert_eq!(sampler.len(), batches.len());
                assert_eq!(sampler.is_empty(), batches.is_empty());
                let drawn: usize = batches.iter().map(|batch| batch.len()).sum();
                assert_eq!(drawn, if drop_last { n - n % batch_size } else { n });
            }
        }
    }
}

#[test]
fn batches_of_a_random_sampler_name_each_index_once() {
    let sampler = BatchSampler {
        sampler: RandomSampler::new(50),
        batch_size: 8,
        drop_last: false,
    };
    let batches = sampler.into_iter().collect();
    assert!(batches[..6].iter().all(|batch| batch.len() == 8));
    assert_eq!(batches[6].len(), 2);
    let mut indices: Vec<usize> = batches.concat();
    indices.sort();
    assert_eq!(indices, (0..50).collect::<Vec<_>>());
}

#[test]
fn batch_iterator_hints_count_down() {
    let mut iter: BatchIterator<_> = BatchSampler {
        sampler: RandomSampler::new(7),
        batch_size: 3,
        drop_last: false,
    }
    .iter();
    assert_eq!(iter.size_hint(), (3, Some(3)));
    assert_eq!(iter.len(), 3);
    assert_eq!(iter.next().map(|batch| batch.len()), Some(3));
    assert_eq!(iter.size_hint(), (2, Some(2)));
    assert_eq!(iter.next().map(|batch| batch.len()), Some(3));
    assert_eq!(iter.next().map(|batch| batch.len()), Some(1));
    assert_eq!(iter.size_hint(), (0, Some(0)));
    assert_eq!(iter.next(), None);
    assert_eq!(iter.next(), None);
}

#[test]
fn batch_iterator_that_drops_the_last_batch_ends_for_good() {
    let mut iter = BatchSampler {
        sampler: SequentialSampler::new(5),
        batch_size: 3,
        drop_last: true,
    }
    .iter();
    assert_eq!(iter.size_hint(), (1, Some(1)));
    assert_eq!(iter.next(), Some(vec![0, 1, 2]));
    assert_eq!(iter.next(), None);
    assert_eq!(iter.next(), None);
}

#[test]
fn count_batches_rounds_up_or_down() {
    assert_eq!(count_batches(10, 4, false), 3);
    assert_eq!(count_batches(10, 4, true), 2);
    assert_eq!(count_batches(8, 4, false), 2);
    assert_eq!(count_batches(0, 4, false), 0);
    assert_eq!(count_batches(usize::MAX, 1, false), usize::MAX);
    assert_eq!(count_batches(3, usize::MAX, false), 1);
    assert_eq!(count_batches(3, usize::MAX, true), 0);
}

#[test]
fn batches_concatenate_to_the_order() {
    let order: Vec<usize> = (0..11).collect();
    assert_eq!(batches_of(11, 4, false).concat(), order);
    assert_eq!(batches_of(11, 4, true).concat(), order[..8].to_vec());
}

#[test]
fn dropping_keeps_the_full_batches() {
    let kept = batches_of(11, 4, true);
    assert_eq!(kept, batches_of(11, 4, false)[..2].to_vec());
    assert!(kept.iter().all(|batch| batch.len() == 4));
}

#[test]
fn positions_follow_the_order() {
    for (k, batch) in batches_of(11, 4, false).iter().enumerate() {
        for (j, index) in batch.iter().enumerate() {
            assert_eq!(*index, k * 4 + j);
        }
    }
}
