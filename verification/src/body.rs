//! Streaming bodies for requests and responses.
//!
//! A [`Body`] is consumed once: as bytes, through a [`BodyReader`], or chunk
//! by chunk through a [`ChunkIterator`]. The three agree on what the body
//! holds, see [`lemma_views_agree`].

use crate::bytes::append;
use crate::header::{append_field, field_accepted, fields_appended, new_headers};
use crate::input::Input;
use vstd::prelude::*;

pub use chunks::ChunkIterator;
pub use http_body::{
    data_of, first_error, item_view, items_view, lemma_ok_items, lemma_plain_bodies, limited,
    ok_items, pieces, trailer_count, until_error, without_trailers, BodyError, BodyModel, Chunk,
    ChunkView, HttpBody, READ_BUFFER,
};
pub use reader::BodyReader;

pub mod chunks;
pub mod http_body;
pub mod reader;

verus! {

/// The body of a request that was received, and a good default body for a
/// response.
pub enum Body {
    /// A body without bytes.
    Empty,
    /// Bytes held in memory.
    Buffered(Vec<u8>),
    /// Chunks that a source handed over, each of which may be an error.
    Iter(Vec<Result<Chunk, BodyError>>),
    /// A stream of bytes, with the length that was declared for it.
    Reader(Input, Option<usize>),
}

impl View for Body {
    type V = BodyModel;

    open spec fn view(&self) -> BodyModel {
        match self {
            Body::Empty => BodyModel::Empty,
            Body::Buffered(bytes) => BodyModel::Buffered(bytes@),
            Body::Iter(items) => BodyModel::Iter(items_view(items@)),
            Body::Reader(source, limit) => BodyModel::Reader(source.remaining(), *limit),
        }
    }
}

/// A copy of `bytes`.
pub fn copy_bytes(bytes: &Vec<u8>) -> (copy: Vec<u8>)
    ensures
        copy@ == bytes@,
{
    let mut copy: Vec<u8> = Vec::new();
    append(&mut copy, bytes);
    copy
}

/// Skipping `n` items of a sequence and then one more skips `n + 1`.
pub proof fn lemma_skip_skip<T>(s: Seq<T>, n: int)
    requires
        0 <= n < s.len(),
    ensures
        s.skip(n).skip(1) == s.skip(n + 1),
        s.skip(n)[0] == s[n],
        s.skip(n).len() == s.len() - n,
{
}

/// Cutting `bytes` into pieces and joining their payloads gives `bytes`.
pub proof fn lemma_pieces_join(bytes: Seq<u8>)
    ensures
        data_of(pieces(bytes)) == bytes,
    decreases bytes.len(),
{
    if bytes.len() == 0 {
        assert(bytes == Seq::<u8>::empty());
    } else if bytes.len() <= READ_BUFFER {
        let only = seq![ChunkView::Data(bytes)];
        assert(only.skip(1) == Seq::<ChunkView>::empty());
        assert(data_of(only.skip(1)) == Seq::<u8>::empty());
        assert(bytes + Seq::<u8>::empty() == bytes);
    } else {
        let head = bytes.take(READ_BUFFER as int);
        let tail = bytes.skip(READ_BUFFER as int);
        lemma_pieces_join(tail);
        let all = seq![ChunkView::Data(head)] + pieces(tail);
        assert(all.skip(1) == pieces(tail));
        assert(head + tail == bytes);
    }
}

/// Bytes cut into pieces have no trailer field among them.
pub proof fn lemma_no_trailers(bytes: Seq<u8>)
    ensures
        trailer_count(pieces(bytes)) == 0,
    decreases bytes.len(),
{
    if bytes.len() == 0 {
    } else if bytes.len() <= READ_BUFFER {
        let only = seq![ChunkView::Data(bytes)];
        assert(only.skip(1) == Seq::<ChunkView>::empty());
        assert(trailer_count(only.skip(1)) == 0);
    } else {
        let tail = bytes.skip(READ_BUFFER as int);
        lemma_no_trailers(tail);
        let all = seq![ChunkView::Data(bytes.take(READ_BUFFER as int))] + pieces(tail);
        assert(all.skip(1) == pieces(tail));
    }
}

/// Leaving out the trailer blocks keeps the data before the first error,
/// and the first error.
pub proof fn lemma_without_trailers(items: Seq<Result<ChunkView, BodyError>>)
    ensures
        first_error(without_trailers(items)) == first_error(items),
        data_of(until_error(without_trailers(items))) == data_of(until_error(items)),
    decreases items.len(),
{
    if items.len() == 0 {
    } else {
        let rest = items.skip(1);
        lemma_without_trailers(rest);
        match items[0] {
            Ok(ChunkView::Trailers(fields)) => {
                let kept = seq![ChunkView::Trailers(fields)] + until_error(rest);
                assert(kept.skip(1) == until_error(rest));
            },
            Ok(ChunkView::Data(data)) => {
                let left = seq![items[0]] + without_trailers(rest);
                assert(left.skip(1) == without_trailers(rest));
                let kept_left = seq![ChunkView::Data(data)] + until_error(without_trailers(rest));
                assert(kept_left.skip(1) == until_error(without_trailers(rest)));
                let kept = seq![ChunkView::Data(data)] + until_error(rest);
                assert(kept.skip(1) == until_error(rest));
            },
            Err(_) => {
                let left = seq![items[0]] + without_trailers(rest);
                assert(left[0] == items[0]);
            },
        }
    }
}

/// The three ways to consume a body agree: where collecting the body gives
/// bytes, they are the payloads of the data chunks that iterating it yields,
/// one after the other, and also what its reader delivers up to the end;
/// and where collecting the body fails, so do its reader and its chunks,
/// with the same error.
pub proof fn lemma_views_agree(body: BodyModel)
    ensures
        body.bytes() matches Ok(bytes) ==> data_of(until_error(body.items())) == bytes
            && body.stream() == bytes && body.failure() is None,
        body.bytes() matches Err(error) ==> body.failure() == Some(error) && first_error(
            body.items(),
        ) == Some(error),
{
}

/// A body that declares a length delivers that many bytes whenever its
/// source holds at least as many.
pub proof fn lemma_declared_length(body: Body)
    requires
        body@.len() is Some,
        body@ matches BodyModel::Reader(source, Some(limit)) ==> source.len() >= limit,
    ensures
        body@.bytes() is Ok,
        body@.bytes()->Ok_0.len() == body@.len()->Some_0,
{
    lemma_plain_bodies(body@);
    match body {
        Body::Buffered(bytes) => {
            assert(bytes.len() == bytes@.len());
        },
        _ => {},
    }
}

impl Body {
    /// Creates an empty body.
    pub fn empty() -> (body: Body)
        ensures
            body@ == BodyModel::Empty,
    {
        Body::Empty
    }

    /// Creates a body from chunks. Each one is written as a chunk of its own
    /// where the message is sent with chunked encoding.
    pub fn from_iter(chunks: Vec<Chunk>) -> (body: Body)
        ensures
            body@ == BodyModel::Iter(
                chunks@.map_values(|chunk: Chunk| Ok::<ChunkView, BodyError>(chunk@)),
            ),
    {
        let ghost wanted = chunks@.map_values(|chunk: Chunk| Ok::<ChunkView, BodyError>(chunk@));
        let mut chunks = chunks;
        let mut items: Vec<Result<Chunk, BodyError>> = Vec::new();
        while chunks.len() > 0
            invariant
                items_view(items@) + chunks@.map_values(
                    |chunk: Chunk| Ok::<ChunkView, BodyError>(chunk@),
                ) == wanted,
            decreases chunks.len(),
        {
            let ghost before = chunks@;
            let ghost done = items@;
            let chunk = chunks.remove(0);
            items.push(Ok(chunk));
            assert(items_view(items@) == items_view(done).push(Ok(chunk@)));
            assert(before.map_values(|chunk: Chunk| Ok::<ChunkView, BodyError>(chunk@)) == seq![
                Ok::<ChunkView, BodyError>(chunk@),
            ] + chunks@.map_values(|chunk: Chunk| Ok::<ChunkView, BodyError>(chunk@)));
        }
        assert(items_view(items@) == wanted);
        Body::Iter(items)
    }

    /// Creates a body from a stream of bytes, with an optional length.
    pub fn from_reader(reader: Input, length: Option<usize>) -> (body: Body)
        ensures
            body@ == BodyModel::Reader(reader.remaining(), length),
    {
        Body::Reader(reader, length)
    }

    /// Creates a body from what was sent into a channel.
    pub fn from_channel(channel: BodyChannel) -> (body: Body)
        ensures
            body@ == BodyModel::Iter(channel.sent()),
    {
        Body::Iter(channel.items)
    }
}

impl HttpBody for Body {
    open spec fn model(&self) -> BodyModel {
        self@
    }

    fn len(&self) -> (len: Option<u64>) {
        match self {
            Body::Empty => Some(0),
            Body::Buffered(bytes) => Some(bytes.len() as u64),
            Body::Iter(_) => None,
            Body::Reader(_, Some(len)) => Some(*len as u64),
            Body::Reader(_, None) => None,
        }
    }

    fn is_empty(&self) -> (empty: bool) {
        match self.len() {
            Some(len) => len == 0,
            None => false,
        }
    }

    fn into_reader(self) -> (reader: BodyReader) {
        BodyReader::from(self)
    }

    fn into_chunks(self) -> (chunks: ChunkIterator) {
        match self {
            Body::Empty => ChunkIterator::done(),
            Body::Buffered(bytes) => ChunkIterator::single(bytes),
            Body::Iter(items) => ChunkIterator::from_items(items),
            Body::Reader(reader, limit) => ChunkIterator::from_reader(reader, limit),
        }
    }

    fn trailers_fit(&self) -> (fit: bool) {
        proof {
            lemma_plain_bodies(self@);
        }
        match self {
            Body::Empty => true,
            Body::Buffered(bytes) => {
                proof {
                    let only = seq![ChunkView::Data(bytes@)];
                    assert(only.skip(1) == Seq::<ChunkView>::empty());
                    assert(trailer_count(only.skip(1)) == 0);
                }
                true
            },
            Body::Iter(items) => crate::body::chunks::trailers_of_items_fit(items),
            Body::Reader(reader, limit) => {
                proof {
                    lemma_no_trailers(limited(reader.remaining(), *limit));
                }
                true
            },
        }
    }

    fn into_bytes(self) -> (bytes: Result<Vec<u8>, BodyError>) {
        proof {
            lemma_plain_bodies(self@);
        }
        match self {
            Body::Empty => Ok(Vec::new()),
            Body::Buffered(bytes) => Ok(bytes),
            Body::Iter(items) => collect_data(&items),
            Body::Reader(reader, limit) => {
                let mut reader = reader;
                let ghost source = reader.remaining();
                let count: usize = match limit {
                    Some(limit) => limit,
                    None => reader.available(),
                };
                let bytes = reader.read(count);
                assert(source.take(source.len() as int) == source);
                Ok(bytes)
            },
        }
    }
}

impl vstd::std_specs::convert::FromSpecImpl<Vec<u8>> for Body {
    open spec fn obeys_from_spec() -> bool {
        true
    }

    open spec fn from_spec(body: Vec<u8>) -> Body {
        Body::Buffered(body)
    }
}

impl From<Vec<u8>> for Body {
    /// A body of bytes held in memory.
    fn from(body: Vec<u8>) -> (made: Body)
        ensures
            made@ == BodyModel::Buffered(body@),
    {
        Body::Buffered(body)
    }
}

impl vstd::std_specs::convert::FromSpecImpl<&[u8]> for Body {
    /// The body is made of a copy, which no specification value stands for:
    /// what the conversion gives is stated on `from` itself.
    open spec fn obeys_from_spec() -> bool {
        false
    }

    open spec fn from_spec(body: &[u8]) -> Body {
        Body::Empty
    }
}

impl From<&[u8]> for Body {
    /// A body of a copy of these bytes.
    fn from(body: &[u8]) -> (made: Body)
        ensures
            made@ == BodyModel::Buffered(body@),
    {
        Body::Buffered(vstd::slice::slice_to_vec(body))
    }
}

impl vstd::std_specs::convert::FromSpecImpl<&str> for Body {
    /// The body is made of a copy, which no specification value stands for:
    /// what the conversion gives is stated on `from` itself.
    open spec fn obeys_from_spec() -> bool {
        false
    }

    open spec fn from_spec(body: &str) -> Body {
        Body::Empty
    }
}

impl From<&str> for Body {
    /// A body of the bytes of this text.
    fn from(body: &str) -> (made: Body)
        ensures
            made@ == BodyModel::Buffered(vstd::utf8::encode_utf8(body@)),
    {
        Body::Buffered(vstd::slice::slice_to_vec(body.as_bytes()))
    }
}

impl vstd::std_specs::convert::FromSpecImpl<String> for Body {
    /// The body is made of a copy, which no specification value stands for:
    /// what the conversion gives is stated on `from` itself.
    open spec fn obeys_from_spec() -> bool {
        false
    }

    open spec fn from_spec(body: String) -> Body {
        Body::Empty
    }
}

impl From<String> for Body {
    /// A body of the bytes of this text.
    fn from(body: String) -> (made: Body)
        ensures
            made@ == BodyModel::Buffered(vstd::utf8::encode_utf8(body@)),
    {
        Body::Buffered(vstd::slice::slice_to_vec(body.as_str().as_bytes()))
    }
}

impl vstd::std_specs::convert::FromSpecImpl<Vec<u8>> for Chunk {
    open spec fn obeys_from_spec() -> bool {
        true
    }

    open spec fn from_spec(chunk: Vec<u8>) -> Chunk {
        Chunk::Data(chunk)
    }
}

impl From<Vec<u8>> for Chunk {
    /// A data chunk of these bytes.
    fn from(chunk: Vec<u8>) -> (made: Chunk) {
        Chunk::Data(chunk)
    }
}

/// Joins the payloads of the data chunks of `items`, or gives the first
/// error among them.
fn collect_data(items: &Vec<Result<Chunk, BodyError>>) -> (bytes: Result<Vec<u8>, BodyError>)
    ensures
        match bytes {
            Ok(bytes) => BodyModel::Iter(items_view(items@)).bytes() == Ok::<Seq<u8>, BodyError>(
                bytes@,
            ),
            Err(error) => BodyModel::Iter(items_view(items@)).bytes() == Err::<
                Seq<u8>,
                BodyError,
            >(error),
        },
{
    let ghost all = items_view(items@);
    let mut out: Vec<u8> = Vec::new();
    let mut i: usize = 0;
    assert(all.skip(0) == all);
    assert(out@ + data_of(until_error(all)) == data_of(until_error(all)));
    while i < items.len()
        invariant
            i <= items.len(),
            all == items_view(items@),
            first_error(all) == first_error(all.skip(i as int)),
            data_of(until_error(all)) == out@ + data_of(until_error(all.skip(i as int))),
        decreases items.len() - i,
    {
        proof {
            lemma_skip_skip(all, i as int);
        }
        let ghost rest = all.skip(i as int);
        match &items[i] {
            Ok(Chunk::Data(data)) => {
                let ghost before = out@;
                append(&mut out, data);
                proof {
                    let kept = seq![ChunkView::Data(data@)] + until_error(rest.skip(1));
                    assert(kept.skip(1) == until_error(rest.skip(1)));
                    assert(before + (data@ + data_of(until_error(rest.skip(1)))) == out@ + data_of(
                        until_error(rest.skip(1)),
                    ));
                }
            },
            Ok(Chunk::Trailers(trailers)) => {
                proof {
                    let kept = seq![all[i as int]->Ok_0] + until_error(rest.skip(1));
                    assert(kept.skip(1) == until_error(rest.skip(1)));
                }
            },
            Err(error) => {
                return Err(*error);
            },
        }
        i += 1;
    }
    assert(all.skip(i as int) == Seq::<Result<ChunkView, BodyError>>::empty());
    assert(out@ + Seq::<u8>::empty() == out@);
    Ok(out)
}

/// The sender half of a channel body: it takes chunks and trailers in the
/// order in which they are to be delivered.
pub struct BodyChannel {
    items: Vec<Result<Chunk, BodyError>>,
    closed: bool,
}

/// Why a trailer could not be sent.
#[derive(Debug, Clone, Copy, PartialEq, Eq, Structural)]
pub enum TrailerError {
    /// The name or the value is no header name or header value.
    InvalidHeader,
    /// The body is closed.
    BodyClosed,
}

impl BodyChannel {
    /// What was sent so far.
    pub closed spec fn sent(&self) -> Seq<Result<ChunkView, BodyError>> {
        items_view(self.items@)
    }

    /// Whether the receiving side is gone.
    pub closed spec fn is_closed(&self) -> bool {
        self.closed
    }

    /// Opens a channel into which nothing was sent yet.
    pub fn new() -> (channel: BodyChannel)
        ensures
            channel.sent() == Seq::<Result<ChunkView, BodyError>>::empty(),
            !channel.is_closed(),
    {
        let channel = BodyChannel { items: Vec::new(), closed: false };
        assert(channel.sent() == Seq::<Result<ChunkView, BodyError>>::empty());
        channel
    }

    /// Marks the receiving side as gone: whatever is sent from now on fails.
    pub fn close(&mut self)
        ensures
            final(self).sent() == old(self).sent(),
            final(self).is_closed(),
    {
        self.closed = true;
    }

    /// Sends a chunk of bytes to this body.
    pub fn send(&mut self, data: Vec<u8>) -> (sent: Result<(), BodyError>)
        ensures
            final(self).is_closed() == old(self).is_closed(),
            old(self).is_closed() ==> {
                &&& sent == Err::<(), BodyError>(BodyError::Closed)
                &&& final(self).sent() == old(self).sent()
            },
            !old(self).is_closed() ==> sent is Ok && final(self).sent() == old(self).sent().push(
                Ok(ChunkView::Data(data@)),
            ),
    {
        if self.closed {
            return Err(BodyError::Closed);
        }
        let ghost before = self.items@;
        self.items.push(Ok(Chunk::Data(data)));
        assert(items_view(self.items@) == items_view(before).push(Ok(ChunkView::Data(data@))));
        Ok(())
    }

    /// Sends trailers to this body. Trailers are buffered, so they need not
    /// come after the last chunk.
    pub fn send_trailers(&mut self, trailers: http::HeaderMap) -> (sent: Result<(), BodyError>)
        ensures
            final(self).is_closed() == old(self).is_closed(),
            old(self).is_closed() ==> {
                &&& sent == Err::<(), BodyError>(BodyError::Closed)
                &&& final(self).sent() == old(self).sent()
            },
            !old(self).is_closed() ==> sent is Ok && final(self).sent() == old(self).sent().push(
                Ok(ChunkView::Trailers(crate::header::header_fields(trailers))),
            ),
    {
        if self.closed {
            return Err(BodyError::Closed);
        }
        let ghost before = self.items@;
        let ghost fields = crate::header::header_fields(trailers);
        self.items.push(Ok(Chunk::Trailers(trailers)));
        assert(items_view(self.items@) == items_view(before).push(Ok(ChunkView::Trailers(fields))));
        Ok(())
    }

    /// Sends one trailer field.
    pub fn send_trailer(&mut self, name: &[u8], value: &[u8]) -> (sent: Result<(), TrailerError>)
        ensures
            final(self).is_closed() == old(self).is_closed(),
            sent == trailer_outcome(name@, value@, old(self).is_closed()),
            sent is Ok ==> final(self).sent() == old(self).sent().push(
                Ok(
                    ChunkView::Trailers(
                        fields_appended(Seq::<(Seq<u8>, Seq<u8>)>::empty(), name@, value@),
                    ),
                ),
            ),
            sent is Err ==> final(self).sent() == old(self).sent(),
    {
        let mut trailers = new_headers();
        if !append_field(&mut trailers, name, value) {
            return Err(TrailerError::InvalidHeader);
        }
        match self.send_trailers(trailers) {
            Ok(()) => Ok(()),
            Err(_) => Err(TrailerError::BodyClosed),
        }
    }

    /// Aborts the body: what was sent is followed by an error.
    pub fn abort(self) -> (body: Body)
        ensures
            body@ == BodyModel::Iter(self.sent().push(Err(BodyError::Aborted))),
    {
        let mut items = self.items;
        let ghost before = items@;
        items.push(Err(BodyError::Aborted));
        assert(items_view(items@) == items_view(before).push(Err(BodyError::Aborted)));
        Body::Iter(items)
    }
}

/// What sending a trailer field gives.
pub open spec fn trailer_outcome(name: Seq<u8>, value: Seq<u8>, closed: bool) -> Result<
    (),
    TrailerError,
> {
    if !field_accepted(name, value) {
        Err(TrailerError::InvalidHeader)
    } else if closed {
        Err(TrailerError::BodyClosed)
    } else {
        Ok(())
    }
}

} // verus!
