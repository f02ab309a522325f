//! Putting a file together from the chunks that a reader hands out.
use bytes::{Bytes, BytesMut};
use vstd::prelude::*;
use vstd::slice::slice_to_vec;

verus! {

/// `bytes::Bytes`, a buffer of bytes that is shared and cannot be written to.
#[verifier::external_type_specification]
#[verifier::external_body]
pub struct ExBytes(bytes::Bytes);

/// `bytes::BytesMut`, a buffer of bytes that has one owner.
#[verifier::external_type_specification]
#[verifier::external_body]
pub struct ExBytesMut(bytes::BytesMut);

/// The bytes that a `bytes::Bytes` holds.
pub uninterp spec fn bytes_content(buffer: Bytes) -> Seq<u8>;

/// The bytes that a `bytes::BytesMut` holds.
pub uninterp spec fn bytes_mut_content(buffer: BytesMut) -> Seq<u8>;

/// The shared buffer that `bytes::BytesMut::freeze` makes of a buffer: the one that
/// takes over its memory.
pub uninterp spec fn frozen_buffer(buffer: BytesMut) -> Bytes;

/// `bytes::Bytes::new`: a buffer that holds nothing.
#[verifier::external_body]
fn empty_bytes() -> (buffer: Bytes)
    ensures
        bytes_content(buffer) == Seq::<u8>::empty(),
{
    Bytes::new()
}

/// `<bytes::Bytes as From<Vec<u8>>>::from`: a buffer that holds the bytes of the
/// vector.
#[verifier::external_body]
fn bytes_from_vec(vec: Vec<u8>) -> (buffer: Bytes)
    ensures
        bytes_content(buffer) == vec@,
{
    Bytes::from(vec)
}

/// `bytes::BytesMut::freeze`: the same bytes, shared. The call copies none of them:
/// where the buffer holds any, its pointer and its length are handed on. So what it
/// gives is determined by the buffer, and is named [`frozen_buffer`]. No clause
/// speaks of the memory itself.
#[verifier::external_body]
fn freeze(buffer: BytesMut) -> (frozen: Bytes)
    ensures
        frozen == frozen_buffer(buffer),
        bytes_content(frozen) == bytes_mut_content(buffer),
{
    buffer.freeze()
}

/// `<bytes::Bytes as AsRef<[u8]>>::as_ref`: the bytes of the buffer, in place.
#[verifier::external_body]
fn bytes_slice(buffer: &Bytes) -> (slice: &[u8])
    ensures
        slice@ == bytes_content(*buffer),
{
    buffer.as_ref()
}

/// `<bytes::BytesMut as AsRef<[u8]>>::as_ref`: the bytes of the buffer, in
/// place.
#[verifier::external_body]
fn bytes_mut_slice(buffer: &BytesMut) -> (slice: &[u8])
    ensures
        slice@ == bytes_mut_content(*buffer),
{
    buffer.as_ref()
}

/// One chunk of a file, in the kind of memory in which the reader handed it
/// out.
pub enum DataSlice<'a> {
    /// Nothing.
    Empty,
    /// A shared buffer.
    Bytes(Bytes),
    /// A buffer of its own.
    Buffer(BytesMut),
    /// Some other kind of memory, which can be read but not taken over.
    Other(&'a [u8]),
}

impl<'a> View for DataSlice<'a> {
    type V = Seq<u8>;

    open spec fn view(&self) -> Seq<u8> {
        match *self {
            DataSlice::Empty => seq![],
            DataSlice::Bytes(buffer) => bytes_content(buffer),
            DataSlice::Buffer(buffer) => bytes_mut_content(buffer),
            DataSlice::Other(slice) => slice@,
        }
    }
}

impl<'a> DataSlice<'a> {
    /// Whether the chunk holds no byte.
    pub fn is_empty(&self) -> (empty: bool)
        ensures
            empty == (self@.len() == 0),
    {
        match self {
            DataSlice::Empty => true,
            DataSlice::Bytes(buffer) => bytes_slice(buffer).len() == 0,
            DataSlice::Buffer(buffer) => bytes_mut_slice(buffer).len() == 0,
            DataSlice::Other(slice) => slice.len() == 0,
        }
    }

    /// Appends the bytes of the chunk to `target`.
    pub fn append_to(&self, target: &mut Vec<u8>)
        ensures
            final(target)@ == old(target)@ + self@,
    {
        let ghost before = target@;
        match self {
            DataSlice::Empty => {},
            DataSlice::Bytes(buffer) => target.extend_from_slice(bytes_slice(buffer)),
            DataSlice::Buffer(buffer) => target.extend_from_slice(bytes_mut_slice(buffer)),
            DataSlice::Other(slice) => target.extend_from_slice(slice),
        }
        assert(target@ =~= before + self@);
    }
}

/// Turns a chunk into a shared buffer. Where it lies in one already, that one is
/// handed on, and where it lies in a buffer of its own, that one is frozen; only
/// from other kinds of memory is it copied.
pub fn dataslice_into_bytes(slice: DataSlice) -> (buffer: Bytes)
    ensures
        bytes_content(buffer) == slice@,
        slice matches DataSlice::Bytes(shared) ==> buffer == shared,
        slice matches DataSlice::Buffer(own) ==> buffer == frozen_buffer(own),
{
    match slice {
        DataSlice::Empty => empty_bytes(),
        DataSlice::Bytes(buffer) => buffer,
        DataSlice::Buffer(buffer) => freeze(buffer),
        DataSlice::Other(slice) => bytes_from_vec(slice_to_vec(slice)),
    }
}

/// A chunk is the bytes that its memory holds, whichever kind that is.
pub proof fn law_chunk_is_what_its_memory_holds(
    shared: Bytes,
    own: BytesMut,
    other: &[u8],
)
    ensures
        DataSlice::Empty@.len() == 0,
        DataSlice::Bytes(shared)@ == bytes_content(shared),
        DataSlice::Buffer(own)@ == bytes_mut_content(own),
        DataSlice::Other(other)@ == other@,
{
}

/// The data of a file that has been read to its end.
pub enum FileData {
    /// The file came in one chunk, and is still in the buffer that it came in.
    ZeroCopy(Bytes),
    /// The file came in several chunks, or is empty, and was put together in a
    /// vector.
    Copied(Vec<u8>),
}

impl View for FileData {
    type V = Seq<u8>;

    open spec fn view(&self) -> Seq<u8> {
        match *self {
            FileData::ZeroCopy(buffer) => bytes_content(buffer),
            FileData::Copied(vec) => vec@,
        }
    }
}

/// A file is the bytes of its buffer, or of its vector.
pub proof fn law_file_is_what_its_memory_holds(shared: Bytes, copied: Vec<u8>)
    ensures
        FileData::ZeroCopy(shared)@ == bytes_content(shared),
        FileData::Copied(copied)@ == copied@,
{
}

/// A file of which more is to be read.
pub enum FileRead {
    /// Nothing has been read yet.
    First,
    /// These bytes have been read so far.
    Rest(Vec<u8>),
}

impl View for FileRead {
    type V = Option<Seq<u8>>;

    open spec fn view(&self) -> Option<Seq<u8>> {
        match *self {
            FileRead::First => None,
            FileRead::Rest(bytes) => Some(bytes@),
        }
    }
}

/// What to do next about a file.
pub enum ReadStep {
    /// Read the next chunk, and hand it to the [`FileRead`].
    Read(FileRead),
    /// Nothing: this is the file.
    Done(FileData),
}

/// What a [`ReadStep`] stands for.
pub enum ReadStepView {
    /// The next chunk is to be read, with what has been read so far.
    Read(Option<Seq<u8>>),
    /// The file has been read: its content, and whether it is still in the
    /// buffer that it came in.
    Done { content: Seq<u8>, zero_copy: bool },
}

impl View for ReadStep {
    type V = ReadStepView;

    open spec fn view(&self) -> ReadStepView {
        match *self {
            ReadStep::Read(read) => ReadStepView::Read(read@),
            ReadStep::Done(data) => ReadStepView::Done {
                content: data@,
                zero_copy: data is ZeroCopy,
            },
        }
    }
}

/// What to do about a file of which nothing has been read yet.
pub open spec fn first_step(has_remaining: bool) -> ReadStepView {
    if has_remaining {
        ReadStepView::Read(None)
    } else {
        ReadStepView::Done { content: seq![], zero_copy: false }
    }
}

/// What to do after a chunk, where `read` has been read before it and the reader
/// says whether it has more. An empty chunk ends the file. A first chunk that is
/// the whole file stays where it is; any other is added to what is there.
pub open spec fn step_after(
    read: Option<Seq<u8>>,
    chunk: Seq<u8>,
    has_remaining: bool,
) -> ReadStepView {
    let before = if read is Some {
        read->0
    } else {
        seq![]
    };
    if chunk.len() > 0 && has_remaining {
        ReadStepView::Read(Some(before + chunk))
    } else {
        ReadStepView::Done {
            content: before + chunk,
            zero_copy: read is None && chunk.len() > 0,
        }
    }
}

/// Starts reading a file. `has_remaining` is whether its reader has anything to
/// hand out.
pub fn start_file(has_remaining: bool) -> (step: ReadStep)
    ensures
        step@ == first_step(has_remaining),
        has_remaining ==> step == ReadStep::Read(FileRead::First),
        !has_remaining ==> {
            &&& step matches ReadStep::Done(FileData::Copied(content))
            &&& content@.len() == 0
        },
{
    if has_remaining {
        ReadStep::Read(FileRead::First)
    } else {
        ReadStep::Done(FileData::Copied(Vec::new()))
    }
}

impl FileRead {
    /// Takes in the chunk that was read. `has_remaining` is whether the reader
    /// has more to hand out after it, and `file_len` how long the file is
    /// expected to be, for which room is made where the chunks are put together.
    pub fn on_chunk(self, chunk: DataSlice, has_remaining: bool, file_len: usize) -> (step: ReadStep)
        ensures
            step@ == step_after(self@, chunk@, has_remaining),
            step matches ReadStep::Done(FileData::ZeroCopy(buffer)) ==> match chunk {
                DataSlice::Bytes(shared) => buffer == shared,
                DataSlice::Buffer(own) => buffer == frozen_buffer(own),
                _ => true,
            },
            chunk@.len() > 0 && has_remaining ==> {
                &&& step matches ReadStep::Read(FileRead::Rest(so_far))
                &&& so_far@ == (match self {
                    FileRead::First => chunk@,
                    FileRead::Rest(before) => before@ + chunk@,
                })
            },
            chunk@.len() == 0 || !has_remaining ==> match self {
                FileRead::First if chunk@.len() > 0 => {
                    &&& step matches ReadStep::Done(FileData::ZeroCopy(buffer))
                    &&& bytes_content(buffer) == chunk@
                },
                FileRead::First => {
                    &&& step matches ReadStep::Done(FileData::Copied(content))
                    &&& content@.len() == 0
                },
                FileRead::Rest(before) => {
                    &&& step matches ReadStep::Done(FileData::Copied(content))
                    &&& content@ == before@ + chunk@
                },
            },
    {
        let ghost old_chunk = chunk@;
        match self {
            FileRead::First => {
                if chunk.is_empty() {
                    return ReadStep::Done(FileData::Copied(Vec::new()));
                }
                let first = dataslice_into_bytes(chunk);
                assert(Seq::<u8>::empty() + old_chunk =~= old_chunk);
                if !has_remaining {
                    return ReadStep::Done(FileData::ZeroCopy(first));
                }
                let mut bytes: Vec<u8> = Vec::new();
                let _ = bytes.try_reserve(file_len);
                bytes.extend_from_slice(bytes_slice(&first));
                assert(bytes@ =~= old_chunk);
                ReadStep::Read(FileRead::Rest(bytes))
            },
            FileRead::Rest(bytes) => {
                let mut bytes: Vec<u8> = bytes;
                let ghost before = bytes@;
                if chunk.is_empty() {
                    assert(before + old_chunk =~= before);
                    return ReadStep::Done(FileData::Copied(bytes));
                }
                chunk.append_to(&mut bytes);
                if has_remaining {
                    ReadStep::Read(FileRead::Rest(bytes))
                } else {
                    ReadStep::Done(FileData::Copied(bytes))
                }
            },
        }
    }
}

/// What comes of a file whose reader still hands out these chunks, where `read`
/// has been read before them. The reader has more as long as chunks are left.
pub open spec fn steps_through(read: Option<Seq<u8>>, chunks: Seq<Seq<u8>>) -> ReadStepView
    decreases chunks.len(),
{
    if chunks.len() == 0 {
        ReadStepView::Read(read)
    } else {
        match step_after(read, chunks[0], chunks.len() > 1) {
            ReadStepView::Read(next) => steps_through(next, chunks.drop_first()),
            done => done,
        }
    }
}

/// The chunks before the first empty one.
pub open spec fn until_empty(chunks: Seq<Seq<u8>>) -> Seq<Seq<u8>>
    decreases chunks.len(),
{
    if chunks.len() == 0 || chunks[0].len() == 0 {
        seq![]
    } else {
        seq![chunks[0]] + until_empty(chunks.drop_first())
    }
}

/// The chunks that count are those at the front, none of them empty, and end with
/// the last chunk or before an empty one.
pub proof fn law_until_empty(chunks: Seq<Seq<u8>>)
    ensures
        until_empty(chunks).len() <= chunks.len(),
        until_empty(chunks) == chunks.take(until_empty(chunks).len() as int),
        forall|i: int|
            0 <= i < until_empty(chunks).len() ==> (#[trigger] until_empty(chunks)[i]).len() > 0,
        until_empty(chunks).len() < chunks.len() ==> chunks[until_empty(chunks).len() as int].len()
            == 0,
    decreases chunks.len(),
{
    if chunks.len() > 0 && chunks[0].len() > 0 {
        let rest = chunks.drop_first();
        law_until_empty(rest);
        let kept = until_empty(chunks);
        assert(kept.drop_first() =~= until_empty(rest));
        assert forall|i: int| 0 <= i < kept.len() implies (#[trigger] kept[i]).len() > 0 by {
            if i > 0 {
                assert(kept[i] == until_empty(rest)[i - 1]);
            }
        }
        assert(kept =~= chunks.take(kept.len() as int)) by {
            assert forall|i: int| 0 <= i < kept.len() implies kept[i] == chunks[i] by {
                if i > 0 {
                    assert(kept[i] == until_empty(rest)[i - 1]);
                    assert(until_empty(rest)[i - 1] == rest[i - 1]);
                }
            }
        }
    } else {
        assert(until_empty(chunks) =~= chunks.take(0));
    }
}

proof fn lemma_steps_through(read: Option<Seq<u8>>, chunks: Seq<Seq<u8>>)
    requires
        chunks.len() > 0,
    ensures
        steps_through(read, chunks) == (ReadStepView::Done {
            content: (if read is Some {
                read->0
            } else {
                seq![]
            }) + until_empty(chunks).flatten(),
            zero_copy: read is None && chunks.len() == 1 && chunks[0].len() > 0,
        }),
    decreases chunks.len(),
{
    let before: Seq<u8> = if read is Some {
        read->0
    } else {
        seq![]
    };
    let rest = chunks.drop_first();
    let kept = until_empty(chunks);
    if chunks[0].len() == 0 {
        assert(kept.flatten() =~= Seq::<u8>::empty());
        assert(before + chunks[0] =~= before + kept.flatten());
    } else {
        assert(kept.drop_first() =~= until_empty(rest));
        assert(kept.flatten() == chunks[0] + until_empty(rest).flatten());
        if chunks.len() > 1 {
            lemma_steps_through(Some(before + chunks[0]), rest);
            assert(before + chunks[0] + until_empty(rest).flatten() =~= before + kept.flatten());
        } else {
            assert(until_empty(rest).flatten() =~= Seq::<u8>::empty());
            assert(before + chunks[0] =~= before + kept.flatten());
        }
    }
}

/// A file is what its reader hands out, end to end, up to the first empty chunk.
/// It stays in the buffer that it came in just where it came in one chunk.
pub proof fn law_file_is_its_chunks(chunks: Seq<Seq<u8>>)
    requires
        chunks.len() > 0,
    ensures
        steps_through(None, chunks) == (ReadStepView::Done {
            content: until_empty(chunks).flatten(),
            zero_copy: chunks.len() == 1 && chunks[0].len() > 0,
        }),
{
    lemma_steps_through(None, chunks);
    assert(Seq::<u8>::empty() + until_empty(chunks).flatten() =~= until_empty(chunks).flatten());
}

/// Where no chunk is empty, none of them is left out.
pub proof fn law_no_chunk_is_lost(chunks: Seq<Seq<u8>>)
    requires
        forall|i: int| 0 <= i < chunks.len() ==> (#[trigger] chunks[i]).len() > 0,
    ensures
        until_empty(chunks) == chunks,
    decreases chunks.len(),
{
    if chunks.len() > 0 {
        law_no_chunk_is_lost(chunks.drop_first());
        assert(until_empty(chunks) =~= chunks);
    }
}

} // verus!
