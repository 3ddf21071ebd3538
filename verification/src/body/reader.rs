//! Reading a body as a stream of bytes.

use crate::body::http_body::{
    data_of, first_error, lemma_plain_bodies, limited, until_error, without_trailers, BodyError,
    ChunkView,
};
use crate::body::{
    copy_bytes, items_view, lemma_skip_skip, lemma_without_trailers, Body, Chunk,
};
use crate::bytes::append;
use crate::input::Input;
use vstd::prelude::*;

verus! {

/// The pieces of a reader as chunks: each piece a data chunk, each error
/// kept.
pub open spec fn data_items(pieces: Seq<Result<Vec<u8>, BodyError>>) -> Seq<
    Result<ChunkView, BodyError>,
> {
    pieces.map_values(
        |piece: Result<Vec<u8>, BodyError>|
            match piece {
                Ok(data) => Ok(ChunkView::Data(data@)),
                Err(error) => Err(error),
            },
    )
}

/// The length of the first data chunk of `items` that holds a byte and comes
/// before any error; zero where there is none.
pub open spec fn next_run(items: Seq<Result<ChunkView, BodyError>>) -> nat
    decreases items.len(),
{
    if items.len() == 0 {
        0
    } else {
        match items[0] {
            Ok(ChunkView::Data(data)) => if data.len() > 0 {
                data.len()
            } else {
                next_run(items.skip(1))
            },
            Ok(ChunkView::Trailers(_)) => next_run(items.skip(1)),
            Err(_) => 0,
        }
    }
}

/// A limit after `count` bytes were read under it.
pub open spec fn reduced(limit: Option<usize>, count: nat) -> Option<usize> {
    match limit {
        Some(n) => Some((n - count) as usize),
        None => None,
    }
}

/// Reading `count` bytes under a limit leaves what the limit left, less
/// those bytes.
pub proof fn lemma_limited_read(source: Seq<u8>, limit: Option<usize>, count: nat)
    requires
        count <= limited(source, limit).len(),
    ensures
        limited(source.skip(count as int), reduced(limit, count)) == limited(source, limit).skip(
            count as int,
        ),
        source.take(count as int) == limited(source, limit).take(count as int),
{
}

/// No byte is left before the first error exactly where no data chunk
/// before it holds one.
proof fn lemma_next_run(items: Seq<Result<ChunkView, BodyError>>)
    ensures
        next_run(items) == 0 <==> data_of(until_error(items)).len() == 0,
        next_run(items) <= data_of(until_error(items)).len(),
    decreases items.len(),
{
    if items.len() == 0 {
    } else {
        lemma_next_run(items.skip(1));
        match items[0] {
            Ok(chunk) => {
                let kept = seq![chunk] + until_error(items.skip(1));
                assert(kept.skip(1) == until_error(items.skip(1)));
                assert(kept[0] == chunk);
            },
            Err(_) => {},
        }
    }
}

/// Reads a body as a stream of bytes.
pub struct BodyReader {
    current: Option<Input>,
    limit: Option<usize>,
    queue: Vec<Result<Vec<u8>, BodyError>>,
    next: usize,
    ended: Option<BodyError>,
}

impl BodyReader {
    #[verifier::type_invariant]
    spec fn in_range(self) -> bool {
        &&& self.next <= self.queue.len()
        &&& self.current is Some ==> self.ended is None
    }

    /// The pieces that follow the piece being read.
    spec fn queued(self) -> Seq<Result<ChunkView, BodyError>> {
        data_items(self.queue@).skip(self.next as int)
    }

    /// What the reader delivers before it fails or reports the end.
    pub closed spec fn remaining(self) -> Seq<u8> {
        match self.current {
            None => Seq::empty(),
            Some(source) => limited(source.remaining(), self.limit) + data_of(
                until_error(self.queued()),
            ),
        }
    }

    /// The error in which reading ends, if it ends in one.
    pub closed spec fn failure(self) -> Option<BodyError> {
        match self.current {
            None => self.ended,
            Some(_) => first_error(self.queued()),
        }
    }

    /// How many bytes the next read can deliver at most: what is left of the
    /// piece being read or, where nothing is, the length of the next piece
    /// that holds a byte.
    pub closed spec fn run(self) -> nat {
        match self.current {
            None => 0,
            Some(source) => if limited(source.remaining(), self.limit).len() > 0 {
                limited(source.remaining(), self.limit).len()
            } else {
                next_run(self.queued())
            },
        }
    }

    /// The next read delivers nothing exactly where no byte is left.
    pub proof fn lemma_run(self)
        ensures
            self.run() == 0 <==> self.remaining().len() == 0,
            self.run() <= self.remaining().len(),
    {
        lemma_next_run(self.queued());
    }

    /// Creates a reader over a stream of bytes.
    pub fn from_reader(reader: Input) -> (body: BodyReader)
        ensures
            body.remaining() == reader.remaining(),
            body.failure() is None,
    {
        let body = BodyReader::limited_to(reader, None);
        body
    }

    /// Creates a reader over the first `limit` bytes of a stream, or over all
    /// of it where `limit` is absent.
    pub fn limited_to(reader: Input, limit: Option<usize>) -> (body: BodyReader)
        ensures
            body.remaining() == limited(reader.remaining(), limit),
            body.failure() is None,
    {
        let body = BodyReader {
            current: Some(reader),
            limit,
            queue: Vec::new(),
            next: 0,
            ended: None,
        };
        assert(body.queued() == Seq::<Result<ChunkView, BodyError>>::empty());
        assert(limited(reader.remaining(), limit) + Seq::<u8>::empty() == limited(
            reader.remaining(),
            limit,
        ));
        body
    }

    /// Creates a reader over pieces of bytes, delivered one after the other.
    pub fn from_iter(pieces: Vec<Vec<u8>>) -> (body: BodyReader)
        ensures
            body.remaining() == pieces@.map_values(|piece: Vec<u8>| piece@).flatten(),
            body.failure() is None,
    {
        let ghost wanted = pieces@.map_values(|piece: Vec<u8>| piece@);
        let mut queue: Vec<Result<Vec<u8>, BodyError>> = Vec::new();
        let mut i: usize = 0;
        while i < pieces.len()
            invariant
                i <= pieces.len(),
                wanted == pieces@.map_values(|piece: Vec<u8>| piece@),
                data_items(queue@) == wanted.take(i as int).map_values(
                    |piece: Seq<u8>| Ok::<ChunkView, BodyError>(ChunkView::Data(piece)),
                ),
            decreases pieces.len() - i,
        {
            let ghost before = queue@;
            queue.push(Ok(copy_bytes(&pieces[i])));
            i += 1;
            assert(data_items(queue@) == data_items(before).push(
                Ok(ChunkView::Data(wanted[i - 1])),
            ));
            assert(wanted.take(i as int) == wanted.take(i - 1).push(wanted[i - 1]));
        }
        assert(wanted.take(i as int) == wanted);
        proof {
            lemma_flatten_data(wanted);
        }
        assert(data_items(queue@).skip(0) == data_items(queue@));
        let body = BodyReader::queued_after(Vec::new(), queue);
        assert(Seq::<u8>::empty() + wanted.flatten() == wanted.flatten());
        body
    }

    /// A reader that delivers `first` and then the pieces of `queue`, up to
    /// the first error, in which it ends.
    fn queued_after(first: Vec<u8>, queue: Vec<Result<Vec<u8>, BodyError>>) -> (body: BodyReader)
        ensures
            body.remaining() == first@ + data_of(until_error(data_items(queue@))),
            body.failure() == first_error(data_items(queue@)),
    {
        assert(data_items(queue@).skip(0) == data_items(queue@));
        BodyReader {
            current: Some(Input::new(first)),
            limit: None,
            queue,
            next: 0,
            ended: None,
        }
    }

    /// A reader at its end.
    pub fn ended() -> (body: BodyReader)
        ensures
            body.remaining() == Seq::<u8>::empty(),
            body.failure() is None,
    {
        BodyReader { current: None, limit: None, queue: Vec::new(), next: 0, ended: None }
    }

    /// Reads up to `max` bytes: as many as the piece being read still holds
    /// or, at its end, as the next piece with a byte in it does. Where no
    /// byte is left, an empty result with `max > 0` is the end of the body,
    /// and a body that ends in an error fails with it.
    pub fn read(&mut self, max: usize) -> (bytes: Result<Vec<u8>, BodyError>)
        ensures
            match bytes {
                Ok(bytes) => {
                    &&& bytes@.len() == if max <= old(self).run() {
                        max as nat
                    } else {
                        old(self).run()
                    }
                    &&& bytes@ == old(self).remaining().take(bytes@.len() as int)
                    &&& final(self).remaining() == old(self).remaining().skip(bytes@.len() as int)
                    &&& final(self).failure() == old(self).failure()
                    &&& max > 0 && old(self).remaining().len() == 0 ==> old(self).failure() is None
                },
                Err(error) => {
                    &&& max > 0
                    &&& old(self).remaining().len() == 0
                    &&& old(self).failure() == Some(error)
                    &&& final(self).remaining().len() == 0
                    &&& final(self).failure() == Some(error)
                },
            },
    {
        proof {
            use_type_invariant(&*self);
            self.lemma_run();
        }
        if max == 0 {
            assert(self.remaining().take(0) == Seq::<u8>::empty());
            assert(self.remaining().skip(0) == self.remaining());
            return Ok(Vec::new());
        }
        let ghost start = self.remaining();
        let ghost start_run = self.run();
        loop
            invariant
                max > 0,
                self.next <= self.queue.len(),
                self.current is Some ==> self.ended is None,
                start == old(self).remaining(),
                start_run == old(self).run(),
                self.remaining() == start,
                self.run() == start_run,
                self.failure() == old(self).failure(),
                start_run <= start.len(),
            decreases self.queue.len() - self.next + if self.current is Some { 1int } else { 0int },
        {
            let mut current: Option<Input> = None;
            std::mem::swap(&mut self.current, &mut current);
            match current {
                None => {
                    assert(start.take(0) == Seq::<u8>::empty());
                    assert(start.skip(0) == start);
                    return match self.ended {
                        Some(error) => Err(error),
                        None => Ok(Vec::new()),
                    };
                },
                Some(source) => {
                    let mut source = source;
                    let ghost held = source.remaining();
                    let ghost limit = self.limit;
                    let ghost piece = limited(held, limit);
                    let ghost tail = data_of(until_error(self.queued()));
                    let want: usize = match self.limit {
                        Some(limit) => if limit < max {
                            limit
                        } else {
                            max
                        },
                        None => max,
                    };
                    let bytes = source.read(want);
                    proof {
                        lemma_limited_read(held, limit, bytes@.len());
                    }
                    if let Some(limit) = self.limit {
                        self.limit = Some(limit - bytes.len());
                    }
                    assert(self.limit == reduced(limit, bytes@.len()));
                    if bytes.len() > 0 {
                        proof {
                            assert((piece + tail).take(bytes@.len() as int) == piece.take(
                                bytes@.len() as int,
                            ));
                            assert((piece + tail).skip(bytes@.len() as int) == piece.skip(
                                bytes@.len() as int,
                            ) + tail);
                        }
                        self.current = Some(source);
                        return Ok(bytes);
                    }
                    assert(piece.len() == 0);
                    assert(piece + tail == tail);
                    if self.next < self.queue.len() {
                        proof {
                            lemma_skip_skip(data_items(self.queue@), self.next as int);
                        }
                        let ghost rest = self.queued();
                        match &self.queue[self.next] {
                            Ok(data) => {
                                let piece = copy_bytes(data);
                                proof {
                                    let kept = seq![ChunkView::Data(data@)] + until_error(
                                        rest.skip(1),
                                    );
                                    assert(kept.skip(1) == until_error(rest.skip(1)));
                                }
                                self.current = Some(Input::new(piece));
                                self.limit = None;
                                self.next = self.next + 1;
                            },
                            Err(error) => {
                                self.ended = Some(*error);
                                self.current = None;
                            },
                        }
                    } else {
                        assert(self.queued() == Seq::<Result<ChunkView, BodyError>>::empty());
                        self.current = None;
                    }
                },
            }
        }
    }

    /// Reads exactly `count` bytes. Where the body ends or fails before
    /// that, reads it to the end and gives nothing.
    pub fn read_exact(&mut self, count: usize) -> (bytes: Option<Vec<u8>>)
        ensures
            count <= old(self).remaining().len() ==> {
                &&& bytes is Some
                &&& bytes->Some_0@ == old(self).remaining().take(count as int)
                &&& final(self).remaining() == old(self).remaining().skip(count as int)
                &&& final(self).failure() == old(self).failure()
            },
            count > old(self).remaining().len() ==> {
                &&& bytes is None
                &&& final(self).remaining().len() == 0
            },
    {
        let ghost start = self.remaining();
        let mut out: Vec<u8> = Vec::new();
        assert(start.skip(0) == start);
        while out.len() < count
            invariant
                start == old(self).remaining(),
                out@.len() <= count,
                out@.len() <= start.len(),
                out@ == start.take(out@.len() as int),
                self.remaining() == start.skip(out@.len() as int),
                self.failure() == old(self).failure(),
            decreases count - out@.len(),
        {
            proof {
                self.lemma_run();
            }
            let ghost before = out@;
            let ghost left = self.remaining();
            let got = match self.read(count - out.len()) {
                Ok(got) => got,
                Err(_) => {
                    return None;
                },
            };
            if got.len() == 0 {
                return None;
            }
            append(&mut out, &got);
            assert(out@ == start.take(out@.len() as int)) by {
                assert(left.take(got@.len() as int) == start.subrange(
                    before.len() as int,
                    (before.len() + got@.len()) as int,
                ));
            }
            assert(self.remaining() == start.skip(out@.len() as int));
        }
        assert(self.remaining() == start.skip(count as int));
        Some(out)
    }

    /// Reads the body to its end and appends what it delivers to `out`. A
    /// body that ends in an error fails with it, after all that came before
    /// the error is appended.
    pub fn read_to_end(&mut self, out: &mut Vec<u8>) -> (done: Result<(), BodyError>)
        ensures
            final(out)@ == old(out)@ + old(self).remaining(),
            final(self).remaining().len() == 0,
            match done {
                Ok(()) => old(self).failure() is None,
                Err(error) => old(self).failure() == Some(error),
            },
    {
        let ghost start = self.remaining();
        let ghost mut read: nat = 0;
        assert(start.take(0) == Seq::<u8>::empty());
        assert(start.skip(0) == start);
        assert(out@ + Seq::<u8>::empty() == out@);
        loop
            invariant
                start == old(self).remaining(),
                read <= start.len(),
                out@ == old(out)@ + start.take(read as int),
                self.remaining() == start.skip(read as int),
                self.failure() == old(self).failure(),
            decreases start.len() - read,
        {
            proof {
                self.lemma_run();
            }
            let ghost before = out@;
            let ghost rest = self.remaining();
            match self.read(crate::body::http_body::READ_BUFFER) {
                Err(error) => {
                    assert(start.take(start.len() as int) == start);
                    return Err(error);
                },
                Ok(got) => {
                    if got.len() == 0 {
                        assert(start.take(start.len() as int) == start);
                        return Ok(());
                    }
                    append(out, &got);
                    proof {
                        assert(rest.take(got@.len() as int) == start.subrange(
                            read as int,
                            (read + got@.len()) as int,
                        ));
                        assert(start.take(read as int) + start.subrange(
                            read as int,
                            (read + got@.len()) as int,
                        ) == start.take((read + got@.len()) as int));
                        read = read + got@.len();
                    }
                },
            }
        }
    }
}

/// The data chunks and the errors of `items`, in order: what a reader over
/// them goes through.
fn data_pieces(items: &Vec<Result<Chunk, BodyError>>) -> (queue: Vec<Result<Vec<u8>, BodyError>>)
    ensures
        data_items(queue@) == without_trailers(items_view(items@)),
{
    let ghost all = items_view(items@);
    let mut queue: Vec<Result<Vec<u8>, BodyError>> = Vec::new();
    let mut i: usize = 0;
    assert(all.skip(0) == all);
    assert(data_items(queue@) + without_trailers(all) == without_trailers(all));
    while i < items.len()
        invariant
            i <= items.len(),
            all == items_view(items@),
            without_trailers(all) == data_items(queue@) + without_trailers(all.skip(i as int)),
        decreases items.len() - i,
    {
        proof {
            lemma_skip_skip(all, i as int);
        }
        let ghost before = queue@;
        let ghost rest = all.skip(i as int);
        match &items[i] {
            Ok(Chunk::Data(data)) => {
                queue.push(Ok(copy_bytes(data)));
                assert(data_items(queue@) == data_items(before).push(Ok(ChunkView::Data(data@))));
                assert(data_items(before) + (seq![rest[0]] + without_trailers(rest.skip(1)))
                    == data_items(queue@) + without_trailers(rest.skip(1)));
            },
            Ok(Chunk::Trailers(_)) => {},
            Err(error) => {
                queue.push(Err(*error));
                assert(data_items(queue@) == data_items(before).push(Err(*error)));
                assert(data_items(before) + (seq![rest[0]] + without_trailers(rest.skip(1)))
                    == data_items(queue@) + without_trailers(rest.skip(1)));
            },
        }
        i += 1;
    }
    assert(all.skip(i as int) == Seq::<Result<ChunkView, BodyError>>::empty());
    assert(data_items(queue@) + Seq::<Result<ChunkView, BodyError>>::empty() == data_items(queue@));
    queue
}

impl vstd::std_specs::convert::FromSpecImpl<Vec<u8>> for BodyReader {
    /// A reader is no value that a specification can build: what the
    /// conversion gives is stated on `from` itself.
    open spec fn obeys_from_spec() -> bool {
        false
    }

    open spec fn from_spec(bytes: Vec<u8>) -> BodyReader {
        arbitrary()
    }
}

impl From<Vec<u8>> for BodyReader {
    /// A reader over bytes held in memory.
    fn from(bytes: Vec<u8>) -> (reader: BodyReader)
        ensures
            reader.remaining() == bytes@,
            reader.failure() is None,
    {
        BodyReader::from_reader(Input::new(bytes))
    }
}

impl vstd::std_specs::convert::FromSpecImpl<Body> for BodyReader {
    /// A reader is no value that a specification can build: what the
    /// conversion gives is stated on `from` itself.
    open spec fn obeys_from_spec() -> bool {
        false
    }

    open spec fn from_spec(body: Body) -> BodyReader {
        arbitrary()
    }
}

impl From<Body> for BodyReader {
    /// A reader over what `body` holds. From chunks it delivers the data up
    /// to the first error, and ends in that error; from a stream, no more
    /// than the declared length.
    fn from(body: Body) -> (reader: BodyReader)
        ensures
            reader.remaining() == body@.stream(),
            reader.failure() == body@.failure(),
    {
        proof {
            lemma_plain_bodies(body@);
        }
        match body {
            Body::Empty => BodyReader::from(Vec::new()),
            Body::Buffered(bytes) => BodyReader::from(bytes),
            Body::Iter(chunks) => {
                let queue = data_pieces(&chunks);
                proof {
                    lemma_without_trailers(items_view(chunks@));
                    assert(Seq::<u8>::empty() + data_of(until_error(data_items(queue@)))
                        == data_of(until_error(data_items(queue@))));
                }
                BodyReader::queued_after(Vec::new(), queue)
            },
            Body::Reader(stream, limit) => BodyReader::limited_to(stream, limit),
        }
    }
}

/// Pieces that are all data deliver their bytes one after the other, and
/// hold no error.
proof fn lemma_flatten_data(pieces: Seq<Seq<u8>>)
    ensures
        data_of(
            until_error(
                pieces.map_values(
                    |piece: Seq<u8>| Ok::<ChunkView, BodyError>(ChunkView::Data(piece)),
                ),
            ),
        ) == pieces.flatten(),
        first_error(
            pieces.map_values(|piece: Seq<u8>| Ok::<ChunkView, BodyError>(ChunkView::Data(piece))),
        ) is None,
    decreases pieces.len(),
{
    let items = pieces.map_values(
        |piece: Seq<u8>| Ok::<ChunkView, BodyError>(ChunkView::Data(piece)),
    );
    if pieces.len() == 0 {
    } else {
        lemma_flatten_data(pieces.skip(1));
        assert(items.skip(1) == pieces.skip(1).map_values(
            |piece: Seq<u8>| Ok::<ChunkView, BodyError>(ChunkView::Data(piece)),
        ));
        let kept = seq![ChunkView::Data(pieces[0])] + until_error(items.skip(1));
        assert(kept.skip(1) == until_error(items.skip(1)));
        assert(pieces.drop_first() == pieces.skip(1));
    }
}

} // verus!
