//! The shapes a body can take, what each yields, and the capability that
//! writers ask of a body.

use crate::body::{BodyReader, ChunkIterator};
use crate::header::header_fields;
use vstd::prelude::*;
use vstd::slice::slice_to_vec;
use vstd::string::StringSliceAdditionalSpecFns;

verus! {

/// A message of a chunked encoded body.
#[derive(Debug)]
pub enum Chunk {
    /// Data chunk.
    Data(Vec<u8>),
    /// Trailer fields, sent after the last data chunk.
    Trailers(http::HeaderMap),
}

/// What a chunk holds.
pub enum ChunkView {
    /// The payload of a data chunk.
    Data(Seq<u8>),
    /// The fields of a trailer block.
    Trailers(Seq<(Seq<u8>, Seq<u8>)>),
}

impl View for Chunk {
    type V = ChunkView;

    open spec fn view(&self) -> ChunkView {
        match self {
            Chunk::Data(data) => ChunkView::Data(data@),
            Chunk::Trailers(trailers) => ChunkView::Trailers(header_fields(*trailers)),
        }
    }
}

/// Why a body could not be read to its end.
#[derive(Debug, Clone, Copy, PartialEq, Eq, Structural)]
pub enum BodyError {
    /// The sender of a channel body aborted it.
    Aborted,
    /// The body was closed before the sender was done.
    Closed,
}

/// The size of the buffer through which a reader-backed body is cut into
/// chunks.
pub const READ_BUFFER: usize = 8192;

/// What one item of a chunk source holds.
pub open spec fn item_view(item: Result<Chunk, BodyError>) -> Result<ChunkView, BodyError> {
    match item {
        Ok(chunk) => Ok(chunk@),
        Err(error) => Err(error),
    }
}

/// What the items of a chunk source hold.
pub open spec fn items_view(items: Seq<Result<Chunk, BodyError>>) -> Seq<
    Result<ChunkView, BodyError>,
> {
    items.map_values(|item: Result<Chunk, BodyError>| item_view(item))
}

/// The first error among `items`, if there is one.
pub open spec fn first_error(items: Seq<Result<ChunkView, BodyError>>) -> Option<BodyError>
    decreases items.len(),
{
    if items.len() == 0 {
        None
    } else {
        match items[0] {
            Err(error) => Some(error),
            Ok(_) => first_error(items.skip(1)),
        }
    }
}

/// The chunks of `items` that come before the first error.
pub open spec fn until_error(items: Seq<Result<ChunkView, BodyError>>) -> Seq<ChunkView>
    decreases items.len(),
{
    if items.len() == 0 {
        Seq::empty()
    } else {
        match items[0] {
            Err(_) => Seq::empty(),
            Ok(chunk) => seq![chunk] + until_error(items.skip(1)),
        }
    }
}

/// The payloads of the data chunks among `chunks`, one after the other.
pub open spec fn data_of(chunks: Seq<ChunkView>) -> Seq<u8>
    decreases chunks.len(),
{
    if chunks.len() == 0 {
        Seq::empty()
    } else {
        match chunks[0] {
            ChunkView::Data(data) => data + data_of(chunks.skip(1)),
            ChunkView::Trailers(_) => data_of(chunks.skip(1)),
        }
    }
}

/// `items` without the trailer blocks.
pub open spec fn without_trailers(items: Seq<Result<ChunkView, BodyError>>) -> Seq<
    Result<ChunkView, BodyError>,
>
    decreases items.len(),
{
    if items.len() == 0 {
        Seq::empty()
    } else {
        match items[0] {
            Ok(ChunkView::Trailers(_)) => without_trailers(items.skip(1)),
            _ => seq![items[0]] + without_trailers(items.skip(1)),
        }
    }
}

/// Chunks as the items of a source that does not fail.
pub open spec fn ok_items(chunks: Seq<ChunkView>) -> Seq<Result<ChunkView, BodyError>> {
    chunks.map_values(|chunk: ChunkView| Ok::<ChunkView, BodyError>(chunk))
}

/// The number of trailer fields among `chunks`.
pub open spec fn trailer_count(chunks: Seq<ChunkView>) -> nat
    decreases chunks.len(),
{
    if chunks.len() == 0 {
        0
    } else {
        match chunks[0] {
            ChunkView::Data(_) => trailer_count(chunks.skip(1)),
            ChunkView::Trailers(fields) => fields.len() + trailer_count(chunks.skip(1)),
        }
    }
}

/// `bytes` cut into data chunks of `READ_BUFFER` bytes, the last one shorter
/// where the length asks for it.
pub open spec fn pieces(bytes: Seq<u8>) -> Seq<ChunkView>
    decreases bytes.len(),
{
    if bytes.len() == 0 {
        Seq::empty()
    } else if bytes.len() <= READ_BUFFER {
        seq![ChunkView::Data(bytes)]
    } else {
        seq![ChunkView::Data(bytes.take(READ_BUFFER as int))] + pieces(
            bytes.skip(READ_BUFFER as int),
        )
    }
}

/// The first `limit` bytes of `source`, or all of it where `limit` is absent
/// or past its end.
pub open spec fn limited(source: Seq<u8>, limit: Option<usize>) -> Seq<u8> {
    match limit {
        Some(n) => if n <= source.len() {
            source.take(n as int)
        } else {
            source
        },
        None => source,
    }
}

/// A body as a value: which of the shapes it has and what that shape holds.
pub enum BodyModel {
    /// No bytes.
    Empty,
    /// Bytes held in memory.
    Buffered(Seq<u8>),
    /// A source of chunks, each of which may be an error.
    Iter(Seq<Result<ChunkView, BodyError>>),
    /// A source of bytes, with the length that was declared for it.
    Reader(Seq<u8>, Option<usize>),
}

impl BodyModel {
    /// The length that the body guarantees, where it guarantees one.
    pub open spec fn len(self) -> Option<u64> {
        match self {
            BodyModel::Empty => Some(0u64),
            BodyModel::Buffered(bytes) => Some(bytes.len() as u64),
            BodyModel::Iter(_) => None,
            BodyModel::Reader(_, Some(len)) => Some(len as u64),
            BodyModel::Reader(_, None) => None,
        }
    }

    /// Whether the body is known to hold no byte.
    pub open spec fn is_empty(self) -> bool {
        self.len() == Some(0u64)
    }

    /// The items that iterating the body yields, errors among them.
    pub open spec fn items(self) -> Seq<Result<ChunkView, BodyError>> {
        match self {
            BodyModel::Empty => Seq::empty(),
            BodyModel::Buffered(bytes) => seq![Ok(ChunkView::Data(bytes))],
            BodyModel::Iter(items) => items,
            BodyModel::Reader(source, limit) => ok_items(pieces(limited(source, limit))),
        }
    }

    /// The chunks that the body yields before it fails or ends.
    pub open spec fn chunks(self) -> Seq<ChunkView> {
        until_error(self.items())
    }

    /// The error in which reading the body ends, if it ends in one.
    pub open spec fn failure(self) -> Option<BodyError> {
        first_error(self.items())
    }

    /// What a reader over the body delivers before it fails or ends.
    pub open spec fn stream(self) -> Seq<u8> {
        data_of(self.chunks())
    }

    /// What collecting the body gives: its bytes, or the error in which
    /// reading it ends.
    pub open spec fn bytes(self) -> Result<Seq<u8>, BodyError> {
        match self.failure() {
            Some(error) => Err(error),
            None => Ok(self.stream()),
        }
    }
}

/// Chunks as items hold no error, and are all there before the end.
pub proof fn lemma_ok_items(chunks: Seq<ChunkView>)
    ensures
        first_error(ok_items(chunks)) is None,
        until_error(ok_items(chunks)) == chunks,
    decreases chunks.len(),
{
    if chunks.len() > 0 {
        lemma_ok_items(chunks.skip(1));
        assert(ok_items(chunks).skip(1) == ok_items(chunks.skip(1)));
        assert(seq![chunks[0]] + chunks.skip(1) == chunks);
    } else {
        assert(chunks == Seq::<ChunkView>::empty());
    }
}

/// What a body without error items holds is what its shape says: nothing,
/// the bytes in memory, or the stream up to the declared length.
pub proof fn lemma_plain_bodies(body: BodyModel)
    ensures
        body is Empty ==> body.failure() is None && body.stream() == Seq::<u8>::empty()
            && body.chunks() == Seq::<ChunkView>::empty(),
        body matches BodyModel::Buffered(bytes) ==> body.failure() is None && body.stream()
            == bytes && body.chunks() == seq![ChunkView::Data(bytes)],
        body matches BodyModel::Reader(source, limit) ==> body.failure() is None && body.stream()
            == limited(source, limit) && body.chunks() == pieces(limited(source, limit)),
{
    match body {
        BodyModel::Empty => {},
        BodyModel::Buffered(bytes) => {
            let items = seq![Ok::<ChunkView, BodyError>(ChunkView::Data(bytes))];
            assert(items.skip(1) == Seq::<Result<ChunkView, BodyError>>::empty());
            assert(until_error(items.skip(1)) == Seq::<ChunkView>::empty());
            assert(first_error(items.skip(1)) is None);
            let only = seq![ChunkView::Data(bytes)];
            assert(seq![ChunkView::Data(bytes)] + Seq::<ChunkView>::empty() == only);
            assert(only.skip(1) == Seq::<ChunkView>::empty());
            assert(data_of(only.skip(1)) == Seq::<u8>::empty());
            assert(bytes + Seq::<u8>::empty() == bytes);
        },
        BodyModel::Iter(_) => {},
        BodyModel::Reader(source, limit) => {
            lemma_ok_items(pieces(limited(source, limit)));
            crate::body::lemma_pieces_join(limited(source, limit));
        },
    }
}

/// A streaming body: what a writer needs to put one on the wire.
pub trait HttpBody: Sized {
    /// The body as a value.
    spec fn model(&self) -> BodyModel;

    /// The length of a body, when it is known.
    fn len(&self) -> (len: Option<u64>)
        ensures
            len == self.model().len(),
    ;

    /// Returns whether this body is empty. A body of unknown size is never
    /// considered to be empty.
    fn is_empty(&self) -> (empty: bool)
        ensures
            empty == self.model().is_empty(),
    ;

    /// Consumes this body and returns a reader over its bytes.
    fn into_reader(self) -> (reader: BodyReader)
        ensures
            reader.remaining() == self.model().stream(),
            reader.failure() == self.model().failure(),
    ;

    /// Consumes this body in chunks.
    fn into_chunks(self) -> (chunks: ChunkIterator)
        ensures
            chunks.pending() == self.model().items(),
    ;

    /// Says whether the trailer blocks of this body hold few enough fields
    /// between them to be sent: no more than a header map takes.
    fn trailers_fit(&self) -> (fit: bool)
        ensures
            fit == (trailer_count(self.model().chunks()) <= crate::header::MAX_FIELDS),
    ;

    /// Consumes this body and returns its bytes.
    fn into_bytes(self) -> (bytes: Result<Vec<u8>, BodyError>)
        ensures
            match bytes {
                Ok(bytes) => self.model().bytes() == Ok::<Seq<u8>, BodyError>(bytes@),
                Err(error) => self.model().bytes() == Err::<Seq<u8>, BodyError>(error),
            },
    ;
}

impl HttpBody for () {
    open spec fn model(&self) -> BodyModel {
        BodyModel::Empty
    }

    fn len(&self) -> (len: Option<u64>) {
        Some(0)
    }

    fn is_empty(&self) -> (empty: bool) {
        true
    }

    fn into_reader(self) -> (reader: BodyReader) {
        proof {
            lemma_plain_bodies(BodyModel::Empty);
        }
        BodyReader::ended()
    }

    fn into_chunks(self) -> (chunks: ChunkIterator) {
        ChunkIterator::done()
    }

    fn trailers_fit(&self) -> (fit: bool) {
        proof {
            lemma_plain_bodies(self.model());
            crate::body::lemma_no_trailers(self.model().stream());
            let only = seq![ChunkView::Data(self.model().stream())];
            assert(only.skip(1) == Seq::<ChunkView>::empty());
            assert(trailer_count(only.skip(1)) == 0);
        }
        true
    }

    fn into_bytes(self) -> (bytes: Result<Vec<u8>, BodyError>) {
        proof {
            lemma_plain_bodies(self.model());
        }
        Ok(Vec::new())
    }
}

impl HttpBody for Vec<u8> {
    open spec fn model(&self) -> BodyModel {
        BodyModel::Buffered(self@)
    }

    fn len(&self) -> (len: Option<u64>) {
        Some(Vec::len(self) as u64)
    }

    fn is_empty(&self) -> (empty: bool) {
        Vec::len(self) == 0
    }

    fn into_reader(self) -> (reader: BodyReader) {
        proof {
            lemma_plain_bodies(self.model());
        }
        BodyReader::from(self)
    }

    fn into_chunks(self) -> (chunks: ChunkIterator) {
        ChunkIterator::single(self)
    }

    fn trailers_fit(&self) -> (fit: bool) {
        proof {
            lemma_plain_bodies(self.model());
            crate::body::lemma_no_trailers(self.model().stream());
            let only = seq![ChunkView::Data(self.model().stream())];
            assert(only.skip(1) == Seq::<ChunkView>::empty());
            assert(trailer_count(only.skip(1)) == 0);
        }
        true
    }

    fn into_bytes(self) -> (bytes: Result<Vec<u8>, BodyError>) {
        proof {
            lemma_plain_bodies(self.model());
        }
        Ok(self)
    }
}

impl HttpBody for &'static [u8] {
    open spec fn model(&self) -> BodyModel {
        BodyModel::Buffered(self@)
    }

    fn len(&self) -> (len: Option<u64>) {
        Some(<[u8]>::len(self) as u64)
    }

    fn is_empty(&self) -> (empty: bool) {
        <[u8]>::len(self) == 0
    }

    fn into_reader(self) -> (reader: BodyReader) {
        proof {
            lemma_plain_bodies(self.model());
        }
        BodyReader::from(slice_to_vec(self))
    }

    fn into_chunks(self) -> (chunks: ChunkIterator) {
        ChunkIterator::single(slice_to_vec(self))
    }

    fn trailers_fit(&self) -> (fit: bool) {
        proof {
            lemma_plain_bodies(self.model());
            crate::body::lemma_no_trailers(self.model().stream());
            let only = seq![ChunkView::Data(self.model().stream())];
            assert(only.skip(1) == Seq::<ChunkView>::empty());
            assert(trailer_count(only.skip(1)) == 0);
        }
        true
    }

    fn into_bytes(self) -> (bytes: Result<Vec<u8>, BodyError>) {
        proof {
            lemma_plain_bodies(self.model());
        }
        Ok(slice_to_vec(self))
    }
}

impl HttpBody for &str {
    open spec fn model(&self) -> BodyModel {
        BodyModel::Buffered(self.spec_bytes())
    }

    fn len(&self) -> (len: Option<u64>) {
        Some(self.as_bytes().len() as u64)
    }

    fn is_empty(&self) -> (empty: bool) {
        self.as_bytes().len() == 0
    }

    fn into_reader(self) -> (reader: BodyReader) {
        proof {
            lemma_plain_bodies(self.model());
        }
        BodyReader::from(slice_to_vec(self.as_bytes()))
    }

    fn into_chunks(self) -> (chunks: ChunkIterator) {
        ChunkIterator::single(slice_to_vec(self.as_bytes()))
    }

    fn trailers_fit(&self) -> (fit: bool) {
        proof {
            lemma_plain_bodies(self.model());
            crate::body::lemma_no_trailers(self.model().stream());
            let only = seq![ChunkView::Data(self.model().stream())];
            assert(only.skip(1) == Seq::<ChunkView>::empty());
            assert(trailer_count(only.skip(1)) == 0);
        }
        true
    }

    fn into_bytes(self) -> (bytes: Result<Vec<u8>, BodyError>) {
        proof {
            lemma_plain_bodies(self.model());
        }
        Ok(slice_to_vec(self.as_bytes()))
    }
}

impl HttpBody for String {
    open spec fn model(&self) -> BodyModel {
        BodyModel::Buffered(vstd::utf8::encode_utf8(self@))
    }

    fn len(&self) -> (len: Option<u64>) {
        Some(self.as_str().as_bytes().len() as u64)
    }

    fn is_empty(&self) -> (empty: bool) {
        self.as_str().as_bytes().len() == 0
    }

    fn into_reader(self) -> (reader: BodyReader) {
        proof {
            lemma_plain_bodies(self.model());
        }
        BodyReader::from(slice_to_vec(self.as_str().as_bytes()))
    }

    fn into_chunks(self) -> (chunks: ChunkIterator) {
        ChunkIterator::single(slice_to_vec(self.as_str().as_bytes()))
    }

    fn trailers_fit(&self) -> (fit: bool) {
        proof {
            lemma_plain_bodies(self.model());
            crate::body::lemma_no_trailers(self.model().stream());
            let only = seq![ChunkView::Data(self.model().stream())];
            assert(only.skip(1) == Seq::<ChunkView>::empty());
            assert(trailer_count(only.skip(1)) == 0);
        }
        true
    }

    fn into_bytes(self) -> (bytes: Result<Vec<u8>, BodyError>) {
        proof {
            lemma_plain_bodies(self.model());
        }
        Ok(slice_to_vec(self.as_str().as_bytes()))
    }
}

} // verus!
