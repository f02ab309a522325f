//! The data loader over files of a Curvine cluster, and the iterator over its
//! batches.
use vstd::prelude::*;

use crate::batching;
use crate::curvine::assembly;
use crate::curvine::assembly::FileRequest;
use crate::curvine::file::FileData;
use crate::curvine::lookup;
use crate::curvine::lookup::Lookup;
use crate::epoch;
use crate::error::LoaderError;
use crate::model;
use crate::sampler;

verus! {

/// What a data loader over files holds.
pub struct CurvineLoaderView {
    pub paths: Seq<Seq<char>>,
    pub batch_size: nat,
    pub shuffle: bool,
    pub drop_last: bool,
    pub prefetch_size: nat,
}

impl CurvineLoaderView {
    /// The batches of file indices that one epoch may consist of.
    pub open spec fn plans(self, plan: Seq<Seq<usize>>) -> bool {
        epoch::plans(self.paths.len(), self.batch_size, self.shuffle, self.drop_last, plan)
    }

    /// Why a loader with these contents is refused, if it is.
    pub open spec fn refusal(self) -> Option<LoaderError> {
        if self.paths.len() == 0 {
            Some(LoaderError::EmptyFilePaths)
        } else if self.batch_size == 0 {
            Some(LoaderError::ZeroBatchSize)
        } else {
            None
        }
    }
}

/// How many files are read at a time: as many as asked for, or ten batches of
/// them where nothing is asked for.
pub open spec fn prefetch_or_default(prefetch_size: nat, batch_size: nat) -> nat {
    if prefetch_size == 0 {
        10 * batch_size
    } else {
        prefetch_size
    }
}

/// Data loader over files.
pub struct CurvineDataLoader {
    file_paths: Vec<String>,
    batch_size: usize,
    shuffle: bool,
    drop_last: bool,
    prefetch_size: usize,
}

impl View for CurvineDataLoader {
    type V = CurvineLoaderView;

    closed spec fn view(&self) -> CurvineLoaderView {
        CurvineLoaderView {
            paths: lookup::texts(self.file_paths@),
            batch_size: self.batch_size as nat,
            shuffle: self.shuffle,
            drop_last: self.drop_last,
            prefetch_size: self.prefetch_size as nat,
        }
    }
}

impl CurvineDataLoader {
    #[verifier::type_invariant]
    spec fn not_refused(self) -> bool {
        self@.refusal() is None && self@.prefetch_size > 0
    }

    /// Makes a data loader. There must be a file, and room for a file in a
    /// batch. A prefetch size of zero stands for ten times the batch size, which
    /// must then be small enough for that.
    pub fn new(
        file_paths: Vec<String>,
        batch_size: usize,
        shuffle: bool,
        drop_last: bool,
        prefetch_size: usize,
    ) -> (result: Result<Self, LoaderError>)
        requires
            file_paths@.len() == 0 || prefetch_size != 0 || 10 * batch_size <= usize::MAX,
        ensures
            ({
                let asked = CurvineLoaderView {
                    paths: lookup::texts(file_paths@),
                    batch_size: batch_size as nat,
                    shuffle,
                    drop_last,
                    prefetch_size: prefetch_or_default(prefetch_size as nat, batch_size as nat),
                };
                match asked.refusal() {
                    Some(error) => result == Err::<Self, LoaderError>(error),
                    None => result matches Ok(loader) && loader@ == asked,
                }
            }),
            result is Ok <==> file_paths@.len() > 0 && batch_size > 0,
            result == Err::<Self, LoaderError>(LoaderError::EmptyFilePaths) <==> file_paths@.len()
                == 0,
            result == Err::<Self, LoaderError>(LoaderError::ZeroBatchSize) <==> file_paths@.len()
                > 0 && batch_size == 0,
            result matches Ok(loader) ==> {
                &&& loader@.paths.len() == file_paths@.len()
                &&& forall|i: int|
                    0 <= i < file_paths@.len() ==> #[trigger] loader@.paths[i] == file_paths@[i]@
                &&& loader@.batch_size == batch_size
                &&& loader@.shuffle == shuffle
                &&& loader@.drop_last == drop_last
                &&& prefetch_size > 0 ==> loader@.prefetch_size == prefetch_size
                &&& prefetch_size == 0 ==> loader@.prefetch_size == 10 * batch_size
            },
    {
        if file_paths.is_empty() {
            return Err(LoaderError::EmptyFilePaths);
        }
        if batch_size == 0 {
            return Err(LoaderError::ZeroBatchSize);
        }
        let prefetch_size: usize = if prefetch_size == 0 {
            10 * batch_size
        } else {
            prefetch_size
        };
        Ok(CurvineDataLoader { file_paths, batch_size, shuffle, drop_last, prefetch_size })
    }

    /// The number of batches in an epoch.
    pub fn len(&self) -> (n: usize)
        ensures
            self@.refusal() is None,
            n == batching::batch_count(self@.paths.len(), self@.batch_size, self@.drop_last),
            self@.drop_last ==> n * self@.batch_size <= self@.paths.len() < n * self@.batch_size
                + self@.batch_size,
            !self@.drop_last ==> n * self@.batch_size - self@.batch_size < self@.paths.len() <= n
                * self@.batch_size,
    {
        proof {
            use_type_invariant(self);
        }
        batching::count_batches(self.file_paths.len(), self.batch_size, self.drop_last)
    }

    /// Draws the batches of file indices for one epoch.
    pub fn batch_indices(&self) -> (plan: Vec<Vec<usize>>)
        ensures
            self@.plans(model::contents(plan@)),
            epoch::fetchable(self@.paths.len(), model::contents(plan@)),
            plan@.len() == batching::batch_count(
                self@.paths.len(),
                self@.batch_size,
                self@.drop_last,
            ),
            forall|k: int|
                0 <= k < plan@.len() ==> 1 <= (#[trigger] plan@[k])@.len() <= self@.batch_size,
            forall|k: int|
                0 <= k < plan@.len() && (self@.drop_last || k + 1 < plan@.len()) ==> (
                #[trigger] plan@[k])@.len() == self@.batch_size,
            !self@.shuffle ==> forall|k: int, j: int|
                0 <= k < plan@.len() && 0 <= j < plan@[k]@.len() ==> #[trigger] plan@[k]@[j] == k
                    * self@.batch_size + j,
            self@.shuffle ==> exists|order: Seq<usize>|
                {
                    &&& #[trigger] sampler::is_draw(batching::ascending(self@.paths.len()), order)
                    &&& order.len() == self@.paths.len()
                    &&& forall|k: int, j: int|
                        0 <= k < plan@.len() && 0 <= j < plan@[k]@.len() ==> #[trigger] plan@[k]@[j]
                            == order[k * self@.batch_size + j]
                },
            model::contents(plan@).flatten().no_duplicates(),
    {
        proof {
            use_type_invariant(self);
        }
        let plan = epoch::draw_batches(
            self.file_paths.len(),
            self.batch_size,
            self.shuffle,
            self.drop_last,
        );
        proof {
            epoch::law_plans_are_fetchable(
                self@.paths.len(),
                self@.batch_size,
                self@.shuffle,
                self@.drop_last,
                model::contents(plan@),
            );
            epoch::law_epoch_names_each_sample_once(
                self@.paths.len(),
                self@.batch_size,
                self@.shuffle,
                self@.drop_last,
                model::contents(plan@),
            );
            let batches = model::contents(plan@);
            assert(batches.len() == plan@.len());
            assert forall|k: int| 0 <= k < plan@.len() implies (#[trigger] plan@[k])@
                == batches[k] by {}
            law_epoch_batch_sizes(self@, batches);
            if self@.shuffle {
                law_shuffled_epoch_is_cut_from_a_draw(self@, batches);
                let order = choose|order: Seq<usize>|
                    {
                        &&& #[trigger] sampler::is_draw(
                            batching::ascending(self@.paths.len()),
                            order,
                        )
                        &&& order.len() == self@.paths.len()
                        &&& forall|k: int, j: int|
                            0 <= k < batches.len() && 0 <= j < batches[k].len()
                                ==> #[trigger] batches[k][j] == order[k * self@.batch_size + j]
                    };
                assert forall|k: int, j: int|
                    0 <= k < plan@.len() && 0 <= j < plan@[k]@.len() implies #[trigger] plan@[k]@[j]
                    == order[k * self@.batch_size + j] by {
                    assert(batches[k][j] == plan@[k]@[j]);
                }
            } else {
                law_unshuffled_epoch_counts_up(self@, batches);
                assert forall|k: int, j: int|
                    0 <= k < plan@.len() && 0 <= j < plan@[k]@.len() implies #[trigger] plan@[k]@[j]
                    == k * self@.batch_size + j by {
                    assert(batches[k][j] == plan@[k]@[j]);
                }
            }
        }
        plan
    }

    /// Says for each file whether its block locations have to be asked for.
    pub fn block_lookups(&self) -> (lookups: Vec<Lookup>)
        ensures
            lookups@.len() == self@.paths.len(),
            forall|i: int|
                0 <= i < self@.paths.len() ==> #[trigger] lookups@[i] == lookup::lookup(
                    self@.paths,
                    i,
                ),
            forall|i: int|
                0 <= i < self@.paths.len() ==> (#[trigger] lookups@[i] is Fetch <==> forall|j: int|
                    0 <= j < i ==> #[trigger] self@.paths[j] != self@.paths[i]),
            forall|i: int|
                0 <= i < self@.paths.len() ==> (#[trigger] lookups@[i] matches Lookup::Reuse(first) ==> {
                    &&& first < i
                    &&& self@.paths[first as int] == self@.paths[i]
                    &&& forall|j: int| 0 <= j < first ==> #[trigger] self@.paths[j] != self@.paths[i]
                }),
    {
        proof {
            assert(self.file_paths.len() == self@.paths.len());
            assert forall|i: int| 0 <= i < self@.paths.len() implies {
                let found = #[trigger] lookup::lookup(self@.paths, i);
                &&& found is Fetch <==> forall|j: int|
                    0 <= j < i ==> #[trigger] self@.paths[j] != self@.paths[i]
                &&& found matches Lookup::Reuse(first) ==> {
                    &&& first < i
                    &&& self@.paths[first as int] == self@.paths[i]
                    &&& forall|j: int|
                        0 <= j < first ==> #[trigger] self@.paths[j] != self@.paths[i]
                }
            } by {
                lookup::law_lookup_is_of_the_first_use(self@.paths, i);
            }
        }
        lookup::block_lookups(&self.file_paths)
    }

    /// The path of the file at `index`.
    pub fn path(&self, index: usize) -> (path: &str)
        requires
            index < self@.paths.len(),
        ensures
            path@ == self@.paths[index as int],
    {
        self.file_paths[index].as_str()
    }

    /// The number of files.
    pub fn dataset_len(&self) -> (n: usize)
        ensures
            n == self@.paths.len(),
    {
        self.file_paths.len()
    }

    /// The number of files in a full batch. No loader is one that would have
    /// been refused, so there is room for a file in it.
    pub fn batch_size(&self) -> (batch_size: usize)
        ensures
            self@.refusal() is None,
            batch_size == self@.batch_size,
            batch_size > 0,
    {
        proof {
            use_type_invariant(self);
        }
        self.batch_size
    }

    /// Whether each epoch visits the files in a random order.
    pub fn shuffle(&self) -> (shuffle: bool)
        ensures
            shuffle == self@.shuffle,
    {
        self.shuffle
    }

    /// Whether a partial batch at the end of an epoch is dropped.
    pub fn drop_last(&self) -> (drop_last: bool)
        ensures
            drop_last == self@.drop_last,
    {
        self.drop_last
    }

    /// How many files are read at a time, at least one.
    pub fn prefetch_size(&self) -> (prefetch_size: usize)
        ensures
            prefetch_size == self@.prefetch_size,
            prefetch_size > 0,
    {
        proof {
            use_type_invariant(self);
        }
        self.prefetch_size
    }
}

/// The batches of an epoch are full, all but the last: that one holds between one
/// file and a full batch of them, and is full too where the partial batch is
/// dropped, shuffled or not.
pub proof fn law_epoch_batch_sizes(loader: CurvineLoaderView, plan: Seq<Seq<usize>>)
    requires
        loader.batch_size > 0,
        loader.plans(plan),
        loader.paths.len() <= usize::MAX,
    ensures
        forall|k: int| 0 <= k < plan.len() ==> 1 <= (#[trigger] plan[k]).len() <= loader.batch_size,
        forall|k: int|
            0 <= k < plan.len() && (loader.drop_last || k + 1 < plan.len()) ==> (
            #[trigger] plan[k]).len() == loader.batch_size,
        loader.drop_last ==> plan.len() * loader.batch_size <= loader.paths.len() < plan.len()
            * loader.batch_size + loader.batch_size,
        !loader.drop_last ==> plan.len() * loader.batch_size - loader.batch_size
            < loader.paths.len() <= plan.len() * loader.batch_size,
{
    epoch::law_plan_batch_sizes(
        loader.paths.len(),
        loader.batch_size,
        loader.shuffle,
        loader.drop_last,
        plan,
    );
}

/// Without shuffling, batch `k` of an epoch holds the files from
/// `k * batch_size` on, and end to end the batches name 0, 1, 2 and so on, up to
/// the number of files that are kept.
pub proof fn law_unshuffled_epoch_counts_up(loader: CurvineLoaderView, plan: Seq<Seq<usize>>)
    requires
        loader.batch_size > 0,
        loader.plans(plan),
        !loader.shuffle,
        loader.paths.len() <= usize::MAX,
    ensures
        forall|k: int, j: int|
            0 <= k < plan.len() && 0 <= j < plan[k].len() ==> #[trigger] plan[k][j] == k
                * loader.batch_size + j,
        plan.flatten() == Seq::new(
            (if loader.drop_last {
                loader.paths.len() - loader.paths.len() % loader.batch_size
            } else {
                loader.paths.len() as int
            }) as nat,
            |i: int| i as usize,
        ),
{
    epoch::law_unshuffled_plan_counts_up(
        loader.paths.len(),
        loader.batch_size,
        loader.drop_last,
        plan,
    );
}

/// With shuffling, the batches of an epoch are cut from an order that the
/// generator drew for 0, 1, 2 and so on, the number of files: position `j` of
/// batch `k` is what was drawn for position `k * batch_size + j`, and end to end
/// the batches are what was drawn, all of it or its front where the partial batch
/// is dropped.
pub proof fn law_shuffled_epoch_is_cut_from_a_draw(
    loader: CurvineLoaderView,
    plan: Seq<Seq<usize>>,
)
    requires
        loader.batch_size > 0,
        loader.plans(plan),
        loader.shuffle,
        loader.paths.len() <= usize::MAX,
    ensures
        exists|order: Seq<usize>|
            {
                &&& #[trigger] sampler::is_draw(batching::ascending(loader.paths.len()), order)
                &&& order.len() == loader.paths.len()
                &&& plan.flatten() == order.take(
                    if loader.drop_last {
                        loader.paths.len() - loader.paths.len() % loader.batch_size
                    } else {
                        loader.paths.len() as int
                    },
                )
                &&& forall|k: int, j: int|
                    0 <= k < plan.len() && 0 <= j < plan[k].len() ==> #[trigger] plan[k][j]
                        == order[k * loader.batch_size + j]
            },
{
    epoch::law_shuffled_plan_is_cut_from_a_draw(
        loader.paths.len(),
        loader.batch_size,
        loader.drop_last,
        plan,
    );
}

/// In every epoch the batches name each file at most once; without dropping, every
/// file is named.
pub proof fn law_epoch_names_each_file_once(loader: CurvineLoaderView, plan: Seq<Seq<usize>>)
    requires
        loader.batch_size > 0,
        loader.plans(plan),
        loader.paths.len() <= usize::MAX,
    ensures
        plan.flatten().no_duplicates(),
        forall|p: int|
            0 <= p < plan.flatten().len() ==> #[trigger] plan.flatten()[p] < loader.paths.len(),
        !loader.drop_last ==> forall|i: usize|
            i < loader.paths.len() ==> #[trigger] plan.flatten().contains(i),
{
    let n = loader.paths.len();
    epoch::law_epoch_names_each_sample_once(
        n,
        loader.batch_size,
        loader.shuffle,
        loader.drop_last,
        plan,
    );
    let order = choose|order: Seq<usize>| #[trigger]
        epoch::visits(n, loader.shuffle, order) && plan == batching::batches(
            order,
            loader.batch_size,
            loader.drop_last,
        );
    epoch::law_epoch_order(n, loader.shuffle, order);
    batching::law_batches_hold_the_order(order, loader.batch_size, loader.drop_last);
    vstd::arithmetic::div_mod::lemma_mod_decreases(n, loader.batch_size);
}

/// A loader over files is refused for having no file, and for a batch size of
/// zero, in that order, and for nothing else.
pub proof fn law_refusal(loader: CurvineLoaderView)
    ensures
        loader.refusal() is None <==> loader.paths.len() > 0 && loader.batch_size > 0,
        loader.refusal() == Some(LoaderError::EmptyFilePaths) <==> loader.paths.len() == 0,
        loader.refusal() == Some(LoaderError::ZeroBatchSize) <==> loader.paths.len() > 0
            && loader.batch_size == 0,
{
}

/// A prefetch size that is asked for is kept, whatever the batch size. Where zero
/// is asked for, it is ten times the batch size.
pub proof fn law_prefetch_size(prefetch_size: nat, batch_size: nat)
    ensures
        prefetch_size > 0 ==> prefetch_or_default(prefetch_size, batch_size) == prefetch_size,
        prefetch_size == 0 ==> prefetch_or_default(prefetch_size, batch_size) == 10 * batch_size,
{
}

/// Making a loader over files succeeds where there is a file, and room for a file
/// in a batch, and only there. The loader then holds what it was given: the paths
/// in their order, the batch size, the two switches, and the prefetch size, or ten
/// times the batch size where that is zero.
pub proof fn law_new_keeps_what_it_is_given(
    file_paths: Vec<String>,
    batch_size: usize,
    shuffle: bool,
    drop_last: bool,
    prefetch_size: usize,
    result: Result<CurvineDataLoader, LoaderError>,
)
    requires
        call_ensures(
            CurvineDataLoader::new,
            (file_paths, batch_size, shuffle, drop_last, prefetch_size),
            result,
        ),
    ensures
        result is Ok <==> file_paths@.len() > 0 && batch_size > 0,
        result matches Ok(loader) ==> {
            &&& loader@.paths.len() == file_paths@.len()
            &&& forall|i: int|
                0 <= i < file_paths@.len() ==> #[trigger] loader@.paths[i] == file_paths@[i]@
            &&& loader@.batch_size == batch_size
            &&& loader@.shuffle == shuffle
            &&& loader@.drop_last == drop_last
            &&& prefetch_size > 0 ==> loader@.prefetch_size == prefetch_size
            &&& prefetch_size == 0 ==> loader@.prefetch_size == 10 * batch_size
        },
{
}

/// The threads of the runtime that reads the files.
#[derive(Debug, Clone, Copy, PartialEq, Eq)]
pub enum RuntimeThreads {
    /// As many as the runtime takes by itself.
    Default,
    /// So many for input and output, and so many workers.
    Custom { io: usize, workers: usize },
}

/// The threads that are meant where zero stands for a default: 32 threads for
/// input and output, and two workers for each processor, but at least 4. Where
/// the number of processors is not known, two are supposed.
pub open spec fn threads_for(
    io_threads: nat,
    worker_threads: nat,
    processors: Option<usize>,
) -> RuntimeThreads {
    let known = if processors is Some {
        processors->0 as int
    } else {
        2
    };
    if io_threads == 0 && worker_threads == 0 {
        RuntimeThreads::Default
    } else {
        RuntimeThreads::Custom {
            io: if io_threads == 0 {
                32
            } else {
                io_threads as usize
            },
            workers: if worker_threads != 0 {
                worker_threads as usize
            } else if 2 * known < 4 {
                4
            } else {
                (2 * known) as usize
            },
        }
    }
}

/// The runtime takes its own numbers of threads where none is asked for. Else what
/// is asked for is kept, each number for itself; 32 threads for input and output
/// stand for zero of them, and twice the processors, but at least 4, for zero
/// workers.
pub proof fn law_threads_keep_what_is_asked_for(
    io_threads: usize,
    worker_threads: usize,
    processors: Option<usize>,
)
    requires
        processors matches Some(n) ==> 2 * n <= usize::MAX,
    ensures
        threads_for(io_threads as nat, worker_threads as nat, processors) is Default <==> io_threads
            == 0 && worker_threads == 0,
        threads_for(
            io_threads as nat,
            worker_threads as nat,
            processors,
        ) matches RuntimeThreads::Custom { io, workers } ==> {
            &&& io_threads > 0 ==> io == io_threads
            &&& io_threads == 0 ==> io == 32
            &&& worker_threads > 0 ==> workers == worker_threads
            &&& worker_threads == 0 ==> workers >= 4
            &&& worker_threads == 0 ==> match processors {
                Some(n) => workers >= 2 * n && (workers == 2 * n || workers == 4),
                None => workers == 4,
            }
        },
{
}

/// Chooses the threads of the runtime.
pub fn runtime_threads(
    io_threads: usize,
    worker_threads: usize,
    processors: Option<usize>,
) -> (threads: RuntimeThreads)
    requires
        io_threads == 0 && worker_threads == 0 || (processors matches Some(n) ==> 2 * n
            <= usize::MAX),
    ensures
        threads == threads_for(io_threads as nat, worker_threads as nat, processors),
        threads is Default <==> io_threads == 0 && worker_threads == 0,
        threads matches RuntimeThreads::Custom { io, workers } ==> {
            &&& io_threads > 0 ==> io == io_threads
            &&& io_threads == 0 ==> io == 32
            &&& worker_threads > 0 ==> workers == worker_threads
            &&& worker_threads == 0 ==> match processors {
                Some(n) => workers == (if n > 2 {
                    2 * n
                } else {
                    4
                }),
                None => workers == 4,
            }
        },
{
    if io_threads == 0 && worker_threads == 0 {
        return RuntimeThreads::Default;
    }
    let default_threads: usize = match processors {
        Some(n) => 2 * n,
        None => 4,
    };
    let io: usize = if io_threads == 0 {
        32
    } else {
        io_threads
    };
    let workers: usize = if worker_threads != 0 {
        worker_threads
    } else if default_threads < 4 {
        4
    } else {
        default_threads
    };
    RuntimeThreads::Custom { io, workers }
}

/// Iterator over batches of files that have been read.
pub struct CurvineIterator {
    batches: Vec<Vec<FileData>>,
    pos: usize,
}

impl CurvineIterator {
    #[verifier::type_invariant]
    spec fn position_in_range(self) -> bool {
        self.pos <= self.batches@.len()
    }

    /// The batches that are still to be handed out.
    pub closed spec fn remaining(self) -> Seq<Seq<FileData>> {
        Seq::new(
            (self.batches@.len() - self.pos) as nat,
            |k: int| self.batches@[self.pos + k]@,
        )
    }

    /// An iterator that hands out `batches` in order.
    pub fn new(batches: Vec<Vec<FileData>>) -> (iter: Self)
        ensures
            iter.remaining() == model::contents(batches@),
    {
        let iter = CurvineIterator { batches, pos: 0 };
        assert(iter.remaining() =~= model::contents(batches@));
        iter
    }

    /// An iterator over the batches of a plan, put together from the files that
    /// were read for its requests.
    pub fn assemble(
        plan: &Vec<Vec<usize>>,
        requests: &Vec<FileRequest>,
        files: Vec<FileData>,
    ) -> (iter: Self)
        requires
            assembly::requests_of(model::contents(plan@), requests@),
            files@.len() == requests@.len(),
        ensures
            assembly::assembled(model::contents(plan@), files@, iter.remaining()),
            iter.remaining().len() == plan@.len(),
            forall|b: int|
                0 <= b < plan@.len() ==> (#[trigger] iter.remaining()[b]).len() == plan@[b]@.len(),
            iter.remaining().flatten() == files@,
    {
        CurvineIterator::new(assembly::assemble_batches(plan, requests, files))
    }

    /// Hands out the next batch, if there is one.
    pub fn next(&mut self) -> (batch: Option<Vec<FileData>>)
        ensures
            old(self).remaining().len() > 0 ==> {
                &&& batch matches Some(found) && found@ == old(self).remaining()[0]
                &&& final(self).remaining() == old(self).remaining().drop_first()
            },
            old(self).remaining().len() == 0 ==> {
                &&& batch is None
                &&& final(self).remaining() == old(self).remaining()
            },
    {
        proof {
            use_type_invariant(&*self);
        }
        if self.pos >= self.batches.len() {
            return None;
        }
        let mut batch: Vec<FileData> = Vec::new();
        std::mem::swap(&mut batch, &mut self.batches[self.pos]);
        self.pos += 1;
        assert(self.remaining() =~= old(self).remaining().drop_first());
        Some(batch)
    }

    /// The number of batches that are still to be handed out.
    pub fn len(&self) -> (n: usize)
        ensures
            n == self.remaining().len(),
    {
        proof {
            use_type_invariant(self);
        }
        self.batches.len() - self.pos
    }
}

} // verus!
