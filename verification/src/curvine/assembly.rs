//! Which files are read for an epoch, and how they are put back into batches.
use vstd::prelude::*;

use crate::model;

verus! {

/// A file to read, and where in the batches it belongs.
#[derive(Debug, Clone, Copy, PartialEq, Eq)]
pub struct FileRequest {
    pub file_idx: usize,
    pub batch_idx: usize,
    pub pos_in_batch: usize,
}

/// Batch `b` of the plan has a position `p`.
pub open spec fn in_plan(plan: Seq<Seq<usize>>, b: int, p: int) -> bool {
    0 <= b < plan.len() && 0 <= p < plan[b].len()
}

/// The number of items in the batches before batch `b`.
pub open spec fn offset<T>(plan: Seq<Seq<T>>, b: int) -> int {
    plan.take(b).flatten().len() as int
}

/// The file at position `p` of batch `b`.
pub open spec fn request_at(plan: Seq<Seq<usize>>, b: int, p: int) -> FileRequest {
    FileRequest { file_idx: plan[b][p], batch_idx: b as usize, pos_in_batch: p as usize }
}

/// `requests` names the files of a plan batch by batch, and in each batch from
/// the first position to the last.
pub open spec fn requests_of(plan: Seq<Seq<usize>>, requests: Seq<FileRequest>) -> bool {
    &&& requests.len() == plan.flatten().len()
    &&& forall|b: int, p: int| #[trigger]
        in_plan(plan, b, p) ==> {
            &&& 0 <= offset(plan, b) + p < requests.len()
            &&& requests[offset(plan, b) + p] == request_at(plan, b, p)
        }
}

/// The offsets add up.
proof fn lemma_offset_step<T>(plan: Seq<Seq<T>>, b: int)
    requires
        0 <= b < plan.len(),
    ensures
        offset(plan, 0) == 0,
        offset(plan, b + 1) == offset(plan, b) + plan[b].len(),
        offset(plan, plan.len() as int) == plan.flatten().len(),
{
    plan.take(b).lemma_flatten_push(plan[b]);
    assert(plan.take(b + 1) =~= plan.take(b).push(plan[b]));
    assert(plan.take(plan.len() as int) =~= plan);
    assert(plan.take(0) =~= Seq::<Seq<T>>::empty());
}

/// The batches lie one behind the other.
proof fn lemma_offset_order(plan: Seq<Seq<usize>>, a: int, b: int)
    requires
        0 <= a < b <= plan.len(),
    ensures
        offset(plan, a) + plan[a].len() <= offset(plan, b),
    decreases b - a,
{
    lemma_offset_step(plan, a);
    if a + 1 < b {
        lemma_offset_order(plan, a + 1, b);
    }
}

/// Every position belongs to some batch.
proof fn lemma_locate(plan: Seq<Seq<usize>>, k: int) -> (at: (int, int))
    requires
        0 <= k < plan.flatten().len(),
    ensures
        0 <= at.0 < plan.len(),
        0 <= at.1 < plan[at.0].len(),
        offset(plan, at.0) + at.1 == k,
{
    assert(plan.take(plan.len() as int) =~= plan);
    lemma_locate_before(plan, plan.len() as int, k)
}

proof fn lemma_locate_before(plan: Seq<Seq<usize>>, end: int, k: int) -> (at: (int, int))
    requires
        0 <= end <= plan.len(),
        0 <= k < offset(plan, end),
    ensures
        0 <= at.0 < plan.len(),
        0 <= at.1 < plan[at.0].len(),
        offset(plan, at.0) + at.1 == k,
    decreases end,
{
    if end == 0 {
        assert(plan.take(0) =~= Seq::<Seq<usize>>::empty());
        (0, 0)
    } else {
        lemma_offset_step(plan, end - 1);
        if k >= offset(plan, end - 1) {
            (end - 1, k - offset(plan, end - 1))
        } else {
            lemma_locate_before(plan, end - 1, k)
        }
    }
}

/// Lists the files that a plan asks for, in the order in which they are read.
pub fn read_requests(plan: &Vec<Vec<usize>>) -> (requests: Vec<FileRequest>)
    ensures
        requests_of(model::contents(plan@), requests@),
        requests@.len() == model::contents(plan@).flatten().len(),
        forall|k: int|
            0 <= k < requests@.len() ==> {
                &&& (#[trigger] requests@[k]).file_idx == model::contents(plan@).flatten()[k]
                &&& requests@[k].batch_idx < plan@.len()
                &&& requests@[k].pos_in_batch < plan@[requests@[k].batch_idx as int]@.len()
                &&& requests@[k].file_idx
                    == plan@[requests@[k].batch_idx as int]@[requests@[k].pos_in_batch as int]
            },
        forall|k: int, l: int|
            #![trigger requests@[k], requests@[l]]
            0 <= k < l < requests@.len() ==> requests@[k].batch_idx < requests@[l].batch_idx || (
            requests@[k].batch_idx == requests@[l].batch_idx && requests@[k].pos_in_batch
                < requests@[l].pos_in_batch),
{
    let ghost batches = model::contents(plan@);
    let mut requests: Vec<FileRequest> = Vec::new();
    let mut b: usize = 0;
    assert(batches.take(0).flatten().len() == 0);
    while b < plan.len()
        invariant
            b <= plan@.len(),
            batches == model::contents(plan@),
            requests@.len() == offset(batches, b as int),
            forall|c: int, p: int| #[trigger]
                in_plan(batches, c, p) && c < b ==> {
                    &&& 0 <= offset(batches, c) + p < requests@.len()
                    &&& requests@[offset(batches, c) + p] == request_at(batches, c, p)
                },
        decreases plan@.len() - b,
    {
        let ghost before = requests@;
        let mut p: usize = 0;
        assert(batches[b as int] == plan@[b as int]@);
        while p < plan[b].len()
            invariant
                b < plan@.len(),
                batches == model::contents(plan@),
                batches[b as int] == plan@[b as int]@,
                p <= plan@[b as int]@.len(),
                before.len() == offset(batches, b as int),
                requests@.len() == before.len() + p,
                forall|k: int| 0 <= k < before.len() ==> #[trigger] requests@[k] == before[k],
                forall|q: int| #[trigger]
                    in_plan(batches, b as int, q) && q < p ==> requests@[offset(
                        batches,
                        b as int,
                    ) + q] == request_at(batches, b as int, q),
            decreases plan@[b as int]@.len() - p,
        {
            requests.push(
                FileRequest { file_idx: plan[b][p], batch_idx: b, pos_in_batch: p },
            );
            p += 1;
        }
        proof {
            lemma_offset_step(batches, b as int);
        }
        b += 1;
    }
    assert(batches.take(b as int) =~= batches);
    assert(requests@.len() == batches.flatten().len());
    proof {
        assert(plan.len() == batches.len());
        assert forall|c: int| 0 <= c < batches.len() implies (#[trigger] batches[c]).len()
            <= usize::MAX by {
            assert(plan@[c].len() == batches[c].len());
        }
        assert forall|k: int| 0 <= k < requests@.len() implies {
            &&& (#[trigger] requests@[k]).file_idx == batches.flatten()[k]
            &&& requests@[k].batch_idx < plan@.len()
            &&& requests@[k].pos_in_batch < plan@[requests@[k].batch_idx as int]@.len()
            &&& requests@[k].file_idx
                == plan@[requests@[k].batch_idx as int]@[requests@[k].pos_in_batch as int]
        } by {
            law_requests_point_into_the_plan(batches, requests@, k);
            assert(batches[requests@[k].batch_idx as int] == plan@[requests@[k].batch_idx as int]@);
        }
        assert forall|k: int, l: int|
            #![trigger requests@[k], requests@[l]]
            0 <= k < l < requests@.len() implies requests@[k].batch_idx < requests@[l].batch_idx
            || (requests@[k].batch_idx == requests@[l].batch_idx && requests@[k].pos_in_batch
            < requests@[l].pos_in_batch) by {
            law_requests_go_forward(batches, requests@, k, l);
        }
    }
    requests
}

/// `batches` has the shape of the plan, and holds at each position of it the item
/// that was delivered for that position.
pub open spec fn assembled<F>(
    plan: Seq<Seq<usize>>,
    delivered: Seq<F>,
    batches: Seq<Seq<F>>,
) -> bool {
    &&& batches.len() == plan.len()
    &&& forall|b: int| 0 <= b < plan.len() ==> (#[trigger] batches[b]).len() == plan[b].len()
    &&& forall|b: int, p: int| #[trigger]
        in_plan(plan, b, p) ==> batches[b][p] == delivered[offset(plan, b) + p]
}

/// A slot for every position of the plan, all of them free.
fn free_slots<F>(plan: &Vec<Vec<usize>>) -> (slots: Vec<Vec<Option<F>>>)
    ensures
        slots@.len() == plan@.len(),
        forall|b: int|
            0 <= b < plan@.len() ==> (#[trigger] slots@[b])@.len() == plan@[b]@.len(),
        forall|b: int, p: int| #[trigger]
            in_plan(model::contents(plan@), b, p) ==> slots@[b]@[p] is None,
{
    let mut slots: Vec<Vec<Option<F>>> = Vec::with_capacity(plan.len());
    let mut b: usize = 0;
    while b < plan.len()
        invariant
            b <= plan@.len(),
            slots@.len() == b,
            forall|c: int| 0 <= c < b ==> (#[trigger] slots@[c])@.len() == plan@[c]@.len(),
            forall|c: int, p: int|
                0 <= c < b && 0 <= p < slots@[c]@.len() ==> #[trigger] slots@[c]@[p] is None,
        decreases plan@.len() - b,
    {
        let mut row: Vec<Option<F>> = Vec::with_capacity(plan[b].len());
        let mut p: usize = 0;
        while p < plan[b].len()
            invariant
                b < plan@.len(),
                p <= plan@[b as int]@.len(),
                row@.len() == p,
                forall|q: int| 0 <= q < p ==> #[trigger] row@[q] is None,
            decreases plan@[b as int]@.len() - p,
        {
            row.push(None);
            p += 1;
        }
        slots.push(row);
        b += 1;
    }
    slots
}

/// Puts the files that were read back into batches: each goes to the batch and
/// the position that its request names.
pub fn assemble_batches<F>(
    plan: &Vec<Vec<usize>>,
    requests: &Vec<FileRequest>,
    files: Vec<F>,
) -> (batches: Vec<Vec<F>>)
    requires
        requests_of(model::contents(plan@), requests@),
        files@.len() == requests@.len(),
    ensures
        assembled(model::contents(plan@), files@, model::contents(batches@)),
        batches@.len() == plan@.len(),
        forall|b: int| 0 <= b < plan@.len() ==> (#[trigger] batches@[b])@.len() == plan@[b]@.len(),
        model::contents(batches@).flatten() == files@,
{
    let ghost indices = model::contents(plan@);
    let mut slots: Vec<Vec<Option<F>>> = free_slots(plan);
    let mut i: usize = 0;
    for file in iter: files.into_iter()
        invariant
            iter.seq() == files@,
            i == iter.index(),
            indices == model::contents(plan@),
            requests_of(indices, requests@),
            files@.len() == requests@.len(),
            slots@.len() == indices.len(),
            forall|b: int| 0 <= b < indices.len() ==> (#[trigger] slots@[b])@.len() == indices[b].len(),
            forall|b: int, p: int| #[trigger]
                in_plan(indices, b, p) ==> slots@[b]@[p] == (if offset(indices, b) + p < i {
                    Some(files@[offset(indices, b) + p])
                } else {
                    None
                }),
    {
        let request: FileRequest = requests[i];
        let ghost before = slots@;
        let ghost at = lemma_locate(indices, i as int);
        proof {
            assert(in_plan(indices, at.0, at.1));
            assert(request == request_at(indices, at.0, at.1));
            assert(at.0 < plan.len() && at.1 < plan@[at.0].len() && i < requests.len());
            assert(request.batch_idx == at.0 && request.pos_in_batch == at.1);
        }
        slots[request.batch_idx][request.pos_in_batch] = Some(file);
        proof {
            assert forall|b: int, p: int| #[trigger] in_plan(indices, b, p) implies slots@[b]@[p] == (
            if offset(indices, b) + p < i + 1 {
                Some(files@[offset(indices, b) + p])
            } else {
                None
            }) by {
                if b < at.0 {
                    lemma_offset_order(indices, b, at.0);
                    assert(slots@[b] == before[b]);
                } else if at.0 < b {
                    lemma_offset_order(indices, at.0, b);
                    assert(slots@[b] == before[b]);
                }
            }
        }
        i += 1;
    }

    let mut batches: Vec<Vec<F>> = Vec::with_capacity(plan.len());
    for row in rows: slots.into_iter()
        invariant
            rows.seq() == slots@,
            indices.len() == slots@.len(),
            i == files@.len(),
            files@.len() == indices.flatten().len(),
            forall|b: int| 0 <= b < indices.len() ==> (#[trigger] slots@[b])@.len() == indices[b].len(),
            forall|b: int, p: int| #[trigger]
                in_plan(indices, b, p) ==> slots@[b]@[p] == (if offset(indices, b) + p < i {
                    Some(files@[offset(indices, b) + p])
                } else {
                    None
                }),
            batches@.len() == rows.index(),
            forall|b: int|
                0 <= b < rows.index() ==> (#[trigger] batches@[b])@.len() == indices[b].len(),
            forall|b: int, p: int| #[trigger]
                in_plan(indices, b, p) && b < rows.index() ==> batches@[b]@[p] == files@[offset(
                    indices,
                    b,
                ) + p],
    {
        let ghost b = rows.index();
        proof {
            assert(row == slots@[b]);
            lemma_offset_step(indices, b);
            if b + 1 < indices.len() {
                lemma_offset_order(indices, b + 1, indices.len() as int);
            }
            lemma_offset_step(indices, indices.len() - 1);
            assert forall|p: int| 0 <= p < row@.len() implies #[trigger] row@[p] == Some(
                files@[offset(indices, b) + p],
            ) by {
                assert(in_plan(indices, b, p));
            }
        }
        let mut batch: Vec<F> = Vec::with_capacity(row.len());
        for slot in filled: row.into_iter()
            invariant
                filled.seq() == row@,
                forall|p: int|
                    0 <= p < row@.len() ==> #[trigger] row@[p] == Some(
                        files@[offset(indices, b) + p],
                    ),
                batch@.len() == filled.index(),
                forall|p: int|
                    0 <= p < filled.index() ==> #[trigger] batch@[p] == files@[offset(indices, b)
                        + p],
        {
            assert(slot == row@[filled.index()]);
            batch.push(slot.unwrap());
        }
        batches.push(batch);
    }
    proof {
        law_assembled_keeps_every_file(indices, files@, model::contents(batches@));
    }
    batches
}

/// Where a position lies when the batches are put end to end.
proof fn lemma_flatten_at<T>(plan: Seq<Seq<T>>, b: int, p: int)
    requires
        0 <= b < plan.len(),
        0 <= p < plan[b].len(),
    ensures
        0 <= offset(plan, b) + p < plan.flatten().len(),
        plan.flatten()[offset(plan, b) + p] == plan[b][p],
{
    let head = plan.take(b);
    let tail = plan.skip(b);
    assert(plan =~= head + tail);
    vstd::seq_lib::lemma_flatten_concat(head, tail);
    assert(tail.flatten() == tail.first() + tail.drop_first().flatten());
}

proof fn lemma_same_shape_same_offset<S, T>(left: Seq<Seq<S>>, right: Seq<Seq<T>>, b: int)
    requires
        left.len() == right.len(),
        forall|c: int| 0 <= c < left.len() ==> (#[trigger] left[c]).len() == right[c].len(),
        0 <= b <= left.len(),
    ensures
        offset(left, b) == offset(right, b),
    decreases b,
{
    if b == 0 {
        assert(left.take(0) =~= Seq::<Seq<S>>::empty());
        assert(right.take(0) =~= Seq::<Seq<T>>::empty());
    } else {
        lemma_same_shape_same_offset(left, right, b - 1);
        lemma_offset_step(left, b - 1);
        lemma_offset_step(right, b - 1);
    }
}

/// Every file that was read is handed out, once, and in the order in which the
/// files were read.
pub proof fn law_assembled_keeps_every_file<F>(
    plan: Seq<Seq<usize>>,
    files: Seq<F>,
    batches: Seq<Seq<F>>,
)
    requires
        files.len() == plan.flatten().len(),
        assembled(plan, files, batches),
    ensures
        batches.flatten() == files,
{
    assert(plan.take(plan.len() as int) =~= plan);
    assert(batches.take(batches.len() as int) =~= batches);
    lemma_same_shape_same_offset(batches, plan, plan.len() as int);
    assert forall|k: int| 0 <= k < files.len() implies batches.flatten()[k] == files[k] by {
        let at = lemma_locate(plan, k);
        assert(in_plan(plan, at.0, at.1));
        assert(batches[at.0].len() == plan[at.0].len());
        lemma_same_shape_same_offset(batches, plan, at.0);
        lemma_flatten_at(batches, at.0, at.1);
    }
    assert(batches.flatten() =~= files);
}

/// Where each request was answered with the data of the file that it names, each
/// position of each batch holds the data of the file that the plan names there.
pub proof fn law_positions_hold_their_files<F>(
    plan: Seq<Seq<usize>>,
    requests: Seq<FileRequest>,
    files: Seq<F>,
    batches: Seq<Seq<F>>,
    data: spec_fn(usize) -> F,
    b: int,
    p: int,
)
    requires
        requests_of(plan, requests),
        files.len() == requests.len(),
        forall|k: int|
            0 <= k < requests.len() ==> #[trigger] files[k] == data(requests[k].file_idx),
        assembled(plan, files, batches),
        in_plan(plan, b, p),
    ensures
        batches[b].len() == plan[b].len(),
        batches[b][p] == data(plan[b][p]),
{
    assert(files[offset(plan, b) + p] == data(requests[offset(plan, b) + p].file_idx));
}

/// A request names a position of the plan, and the file that stands there.
pub proof fn law_requests_point_into_the_plan(
    plan: Seq<Seq<usize>>,
    requests: Seq<FileRequest>,
    k: int,
)
    requires
        requests_of(plan, requests),
        0 <= k < requests.len(),
        plan.len() <= usize::MAX,
        forall|b: int| 0 <= b < plan.len() ==> (#[trigger] plan[b]).len() <= usize::MAX,
    ensures
        requests[k].file_idx == plan.flatten()[k],
        requests[k].batch_idx < plan.len(),
        requests[k].pos_in_batch < plan[requests[k].batch_idx as int].len(),
        plan[requests[k].batch_idx as int][requests[k].pos_in_batch as int] == requests[k].file_idx,
{
    let at = lemma_locate(plan, k);
    assert(in_plan(plan, at.0, at.1));
    lemma_flatten_at(plan, at.0, at.1);
    assert(plan[at.0].len() <= usize::MAX);
}

/// The requests go forward through the plan: from batch to batch, and in a batch
/// from position to position.
pub proof fn law_requests_go_forward(
    plan: Seq<Seq<usize>>,
    requests: Seq<FileRequest>,
    k: int,
    l: int,
)
    requires
        requests_of(plan, requests),
        0 <= k < l < requests.len(),
        plan.len() <= usize::MAX,
        forall|b: int| 0 <= b < plan.len() ==> (#[trigger] plan[b]).len() <= usize::MAX,
    ensures
        requests[k].batch_idx < requests[l].batch_idx || (requests[k].batch_idx
            == requests[l].batch_idx && requests[k].pos_in_batch < requests[l].pos_in_batch),
{
    let at = lemma_locate(plan, k);
    let to = lemma_locate(plan, l);
    assert(in_plan(plan, at.0, at.1));
    assert(in_plan(plan, to.0, to.1));
    assert(plan[at.0].len() <= usize::MAX);
    assert(plan[to.0].len() <= usize::MAX);
    if to.0 < at.0 {
        lemma_offset_order(plan, to.0, at.0);
    }
}

/// The requests name the files of the plan, batch by batch.
pub proof fn law_requests_follow_the_plan(plan: Seq<Seq<usize>>, requests: Seq<FileRequest>, k: int)
    requires
        requests_of(plan, requests),
        0 <= k < requests.len(),
    ensures
        requests[k].file_idx == plan.flatten()[k],
{
    let at = lemma_locate(plan, k);
    assert(in_plan(plan, at.0, at.1));
    lemma_flatten_at(plan, at.0, at.1);
}

} // verus!
