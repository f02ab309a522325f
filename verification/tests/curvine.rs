use bytes::{Bytes, BytesMut};
use data_jet::curvine::assembly::{assemble_batches, read_requests, FileRequest};
use data_jet::curvine::file::{
    dataslice_into_bytes, start_file, DataSlice, FileData, FileRead, ReadStep,
};
use data_jet::curvine::loader::{
    runtime_threads, CurvineDataLoader, CurvineIterator, RuntimeThreads,
};
use data_jet::curvine::lookup::{block_lookups, Lookup};
use data_jet::error::LoaderError;

fn paths(names: &[&str]) -> Vec<String> {
    names.iter().map(|name| name.to_string()).collect()
}

fn shared(bytes: &[u8]) -> DataSlice<'static> {
    DataSlice::Bytes(Bytes::copy_from_slice(bytes))
}

fn owned(bytes: &[u8]) -> DataSlice<'static> {
    DataSlice::Buffer(BytesMut::from(bytes))
}

fn content(data: FileData) -> (Vec<u8>, bool) {
    match data {
        FileData::ZeroCopy(buffer) => (buffer.to_vec(), true),
        FileData::Copied(vec) => (vec, false),
    }
}

fn read(chunks: Vec<DataSlice>) -> (Vec<u8>, bool) {
    let mut left = chunks.len();
    let mut chunks = chunks.into_iter();
    let mut step = start_file(left > 0);
    loop {
        match step {
            ReadStep::Done(data) => return content(data),
            ReadStep::Read(file) => {
                left -= 1;
                let chunk = chunks.next().unwrap_or(DataSlice::Empty);
                step = file.on_chunk(chunk, left > 0, 100);
            }
        }
    }
}

#[test]
fn repeated_paths_are_asked_for_once() {
    assert_eq!(
        block_lookups(&paths(&["/a", "/b", "/a", "/c", "/b", "/a"])),
        vec![
            Lookup::Fetch,
            Lookup::Fetch,
            Lookup::Reuse(0),
            Lookup::Fetch,
            Lookup::Reuse(1),
            Lookup::Reuse(0),
        ]
    );
}

#[test]
fn a_thousand_files_with_a_hundred_paths() {
    let names: Vec<String> = (0..1000).map(|i| format!("/file-{}", i % 100)).collect();
    let lookups = block_lookups(&names);
    assert_eq!(lookups.len(), 1000);
    assert_eq!(lookups.iter().filter(|lookup| **lookup == Lookup::Fetch).count(), 100);
    assert_eq!(lookups[742], Lookup::Reuse(42));
}

#[test]
fn no_paths_need_no_lookups() {
    assert_eq!(block_lookups(&vec![]), vec![]);
}

#[test]
fn chunks_turn_into_shared_buffers() {
    assert_eq!(dataslice_into_bytes(DataSlice::Empty), Bytes::new());
    assert_eq!(&dataslice_into_bytes(shared(&[1, 2]))[..], &[1, 2]);
    assert_eq!(&dataslice_into_bytes(owned(&[3, 4, 5]))[..], &[3, 4, 5]);
    assert_eq!(&dataslice_into_bytes(DataSlice::Other(&[6]))[..], &[6]);
}

#[test]
fn buffers_are_handed_on_in_place() {
    let shared = Bytes::copy_from_slice(&[1, 2, 3]);
    let at = shared.as_ptr();
    assert_eq!(dataslice_into_bytes(DataSlice::Bytes(shared)).as_ptr(), at);
    let mut own = BytesMut::with_capacity(64);
    own.extend_from_slice(&[4, 5, 6]);
    let at = own.as_ptr();
    let frozen = dataslice_into_bytes(DataSlice::Buffer(own));
    assert_eq!(frozen.as_ptr(), at);
    assert_eq!(&frozen[..], &[4, 5, 6]);
    let own = BytesMut::from(&[7, 8][..]);
    let at = own.as_ptr();
    match FileRead::First.on_chunk(DataSlice::Buffer(own), false, 2) {
        ReadStep::Done(FileData::ZeroCopy(buffer)) => assert_eq!(buffer.as_ptr(), at),
        _ => panic!("the file came in one chunk"),
    }
}

#[test]
fn empty_chunks_are_told_apart() {
    assert!(DataSlice::Empty.is_empty());
    assert!(shared(&[]).is_empty());
    assert!(owned(&[]).is_empty());
    assert!(DataSlice::Other(&[]).is_empty());
    assert!(!shared(&[0]).is_empty());
    assert!(!owned(&[0]).is_empty());
    assert!(!DataSlice::Other(&[0]).is_empty());
}

#[test]
fn chunks_are_appended() {
    let mut target = vec![1];
    DataSlice::Empty.append_to(&mut target);
    shared(&[2, 3]).append_to(&mut target);
    owned(&[4]).append_to(&mut target);
    DataSlice::Other(&[5]).append_to(&mut target);
    assert_eq!(target, vec![1, 2, 3, 4, 5]);
}

#[test]
fn a_file_with_nothing_in_it() {
    assert_eq!(read(vec![]), (vec![], false));
    assert_eq!(read(vec![DataSlice::Empty]), (vec![], false));
}

#[test]
fn a_file_in_one_chunk_stays_in_its_buffer() {
    assert_eq!(read(vec![shared(&[1, 2, 3])]), (vec![1, 2, 3], true));
    assert_eq!(read(vec![owned(&[4])]), (vec![4], true));
    assert_eq!(read(vec![DataSlice::Other(&[5, 6])]), (vec![5, 6], true));
}

#[test]
fn a_file_in_several_chunks_is_put_together() {
    assert_eq!(
        read(vec![shared(&[1]), owned(&[2, 3]), DataSlice::Other(&[4])]),
        (vec![1, 2, 3, 4], false)
    );
}

#[test]
fn an_empty_chunk_ends_the_file() {
    assert_eq!(
        read(vec![shared(&[1]), owned(&[2]), DataSlice::Empty, shared(&[9])]),
        (vec![1, 2], false)
    );
    assert_eq!(read(vec![shared(&[]), shared(&[9])]), (vec![], false));
}

#[test]
fn the_room_asked_for_need_not_be_there() {
    match FileRead::First.on_chunk(shared(&[1]), true, usize::MAX) {
        ReadStep::Read(FileRead::Rest(bytes)) => assert_eq!(bytes, vec![1]),
        _ => panic!("more was to be read"),
    }
}

#[test]
fn requests_go_batch_by_batch() {
    let requests = read_requests(&vec![vec![5, 2], vec![], vec![7]]);
    assert_eq!(
        requests,
        vec![
            FileRequest { file_idx: 5, batch_idx: 0, pos_in_batch: 0 },
            FileRequest { file_idx: 2, batch_idx: 0, pos_in_batch: 1 },
            FileRequest { file_idx: 7, batch_idx: 2, pos_in_batch: 0 },
        ]
    );
}

#[test]
fn files_go_back_to_their_places() {
    let plan = vec![vec![3, 1], vec![0, 4], vec![2]];
    let requests = read_requests(&plan);
    let files: Vec<String> = requests.iter().map(|r| format!("file {}", r.file_idx)).collect();
    let batches = assemble_batches(&plan, &requests, files.clone());
    for (b, batch) in batches.iter().enumerate() {
        for (p, file) in batch.iter().enumerate() {
            assert_eq!(*file, format!("file {}", plan[b][p]));
        }
    }
    assert_eq!(batches.concat(), files);
}

#[test]
fn file_loader_refuses_no_paths() {
    let error = CurvineDataLoader::new(vec![], 0, false, false, 0).err();
    assert_eq!(error, Some(LoaderError::EmptyFilePaths));
    assert_eq!(error.map(|e| e.message()), Some("file_paths must not be empty"));
}

#[test]
fn file_loader_refuses_batch_size_zero() {
    let error = CurvineDataLoader::new(paths(&["/a"]), 0, false, false, 0).err();
    assert_eq!(error, Some(LoaderError::ZeroBatchSize));
}

#[test]
fn file_loader_reports_its_settings() {
    match CurvineDataLoader::new(paths(&["/a", "/b", "/a"]), 2, false, true, 0) {
        Ok(loader) => {
            assert_eq!(loader.len(), 1);
            assert_eq!(loader.dataset_len(), 3);
            assert_eq!(loader.batch_size(), 2);
            assert!(!loader.shuffle());
            assert!(loader.drop_last());
            assert_eq!(loader.prefetch_size(), 20);
            assert_eq!(loader.path(1), "/b");
            assert_eq!(loader.batch_indices(), vec![vec![0, 1]]);
            assert_eq!(
                loader.block_lookups(),
                vec![Lookup::Fetch, Lookup::Fetch, Lookup::Reuse(0)]
            );
        }
        Err(error) => panic!("{}", error.message()),
    }
}

#[test]
fn file_loader_keeps_the_prefetch_size_asked_for() {
    match CurvineDataLoader::new(paths(&["/a"]), usize::MAX, true, false, 3) {
        Ok(loader) => {
            assert_eq!(loader.prefetch_size(), 3);
            assert_eq!(loader.len(), 1);
            assert_eq!(loader.batch_indices(), vec![vec![0]]);
        }
        Err(error) => panic!("{}", error.message()),
    }
}

#[test]
fn threads_have_defaults() {
    assert_eq!(runtime_threads(0, 0, Some(8)), RuntimeThreads::Default);
    assert_eq!(runtime_threads(0, 3, Some(8)), RuntimeThreads::Custom { io: 32, workers: 3 });
    assert_eq!(runtime_threads(5, 0, Some(8)), RuntimeThreads::Custom { io: 5, workers: 16 });
    assert_eq!(runtime_threads(5, 0, Some(1)), RuntimeThreads::Custom { io: 5, workers: 4 });
    assert_eq!(runtime_threads(5, 0, None), RuntimeThreads::Custom { io: 5, workers: 4 });
    assert_eq!(runtime_threads(5, 6, None), RuntimeThreads::Custom { io: 5, workers: 6 });
}

#[test]
fn file_batches_are_handed_out_in_order() {
    let mut iter = CurvineIterator::new(vec![
        vec![FileData::Copied(vec![1]), FileData::Copied(vec![2])],
        vec![FileData::ZeroCopy(Bytes::copy_from_slice(&[3]))],
    ]);
    assert_eq!(iter.len(), 2);
    let first: Vec<_> = iter.next().into_iter().flatten().map(content).collect();
    assert_eq!(first, vec![(vec![1], false), (vec![2], false)]);
    assert_eq!(iter.len(), 1);
    let second: Vec<_> = iter.next().into_iter().flatten().map(content).collect();
    assert_eq!(second, vec![(vec![3], true)]);
    assert!(iter.next().is_none());
    assert!(iter.next().is_none());
    assert_eq!(iter.len(), 0);
}

#[test]
fn files_are_handed_out_batch_by_batch() {
    let plan = vec![vec![2, 0], vec![1]];
    let requests = read_requests(&plan);
    let files = requests
        .iter()
        .map(|request| FileData::Copied(vec![request.file_idx as u8; 2]))
        .collect();
    let mut iter = CurvineIterator::assemble(&plan, &requests, files);
    assert_eq!(iter.len(), 2);
    let first: Vec<_> = iter.next().into_iter().flatten().map(content).collect();
    assert_eq!(first, vec![(vec![2, 2], false), (vec![0, 0], false)]);
    let second: Vec<_> = iter.next().into_iter().flatten().map(content).collect();
    assert_eq!(second, vec![(vec![1, 1], false)]);
    assert!(iter.next().is_none());
}
