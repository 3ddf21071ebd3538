//! Consuming a body chunk by chunk.

use crate::body::http_body::{
    lemma_ok_items, limited, ok_items, pieces, until_error, BodyError, Chunk, ChunkView,
    READ_BUFFER,
};
use crate::body::reader::{lemma_limited_read, reduced};
use crate::body::{items_view, lemma_no_trailers, lemma_skip_skip, trailer_count};
use crate::header::{field_count, MAX_FIELDS};
use crate::input::Input;
use vstd::prelude::*;

verus! {

/// Where the chunks of an iterator come from.
enum ChunkSource {
    /// Nothing is left.
    Done,
    /// One chunk with all the bytes.
    Single(Vec<u8>),
    /// Chunks that a source handed over.
    Iter(Vec<Result<Chunk, BodyError>>),
    /// A stream of bytes, cut into chunks as it is read.
    Reader(Input, Option<usize>),
}

/// Iterates a body in chunks.
pub struct ChunkIterator {
    source: ChunkSource,
}

impl ChunkIterator {
    /// The items still to come, errors among them.
    pub closed spec fn pending(self) -> Seq<Result<ChunkView, BodyError>> {
        match self.source {
            ChunkSource::Done => Seq::empty(),
            ChunkSource::Single(bytes) => seq![Ok(ChunkView::Data(bytes@))],
            ChunkSource::Iter(items) => items_view(items@),
            ChunkSource::Reader(reader, limit) => ok_items(
                pieces(limited(reader.remaining(), limit)),
            ),
        }
    }

    /// An iterator without chunks.
    pub fn done() -> (chunks: ChunkIterator)
        ensures
            chunks.pending() == Seq::<Result<ChunkView, BodyError>>::empty(),
    {
        ChunkIterator { source: ChunkSource::Done }
    }

    /// An iterator that yields `bytes` as one data chunk.
    pub fn single(bytes: Vec<u8>) -> (chunks: ChunkIterator)
        ensures
            chunks.pending() == seq![Ok::<ChunkView, BodyError>(ChunkView::Data(bytes@))],
    {
        ChunkIterator { source: ChunkSource::Single(bytes) }
    }

    /// An iterator that hands `items` on as they are, errors among them.
    pub fn from_items(items: Vec<Result<Chunk, BodyError>>) -> (chunks: ChunkIterator)
        ensures
            chunks.pending() == items_view(items@),
    {
        ChunkIterator { source: ChunkSource::Iter(items) }
    }

    /// An iterator that reads `reader` through a buffer of `READ_BUFFER`
    /// bytes, up to its end or to `length` bytes, and yields each filling as
    /// a data chunk.
    pub fn from_reader(reader: Input, length: Option<usize>) -> (chunks: ChunkIterator)
        ensures
            chunks.pending() == ok_items(pieces(limited(reader.remaining(), length))),
    {
        ChunkIterator { source: ChunkSource::Reader(reader, length) }
    }

    /// Whether the trailer blocks that come before the first error hold no
    /// more than `MAX_FIELDS` fields between them.
    pub fn trailers_fit(&self) -> (fit: bool)
        ensures
            fit == (trailer_count(until_error(self.pending())) <= MAX_FIELDS),
    {
        match &self.source {
            ChunkSource::Done => true,
            ChunkSource::Single(bytes) => {
                proof {
                    crate::body::lemma_plain_bodies(crate::body::BodyModel::Buffered(bytes@));
                    assert(seq![ChunkView::Data(bytes@)].skip(1) == Seq::<ChunkView>::empty());
                    assert(trailer_count(seq![ChunkView::Data(bytes@)].skip(1)) == 0);
                }
                true
            },
            ChunkSource::Reader(reader, limit) => {
                proof {
                    lemma_ok_items(pieces(limited(reader.remaining(), *limit)));
                    lemma_no_trailers(limited(reader.remaining(), *limit));
                }
                true
            },
            ChunkSource::Iter(items) => trailers_of_items_fit(items),
        }
    }

    /// The next item, or `None` at the end. An error of the source is
    /// handed on as it is.
    pub fn next(&mut self) -> (item: Option<Result<Chunk, BodyError>>)
        ensures
            match item {
                None => old(self).pending().len() == 0 && final(self).pending().len() == 0,
                Some(item) => {
                    &&& old(self).pending().len() > 0
                    &&& crate::body::item_view(item) == old(self).pending()[0]
                    &&& final(self).pending() == old(self).pending().skip(1)
                },
            },
    {
        let mut source = ChunkSource::Done;
        std::mem::swap(&mut self.source, &mut source);
        match source {
            ChunkSource::Done => None,
            ChunkSource::Single(bytes) => {
                assert(seq![Ok::<ChunkView, BodyError>(ChunkView::Data(bytes@))].skip(1) == Seq::<
                    Result<ChunkView, BodyError>,
                >::empty());
                Some(Ok(Chunk::Data(bytes)))
            },
            ChunkSource::Iter(items) => {
                let mut items = items;
                if items.len() == 0 {
                    return None;
                }
                let ghost all = items_view(items@);
                let item = items.remove(0);
                assert(items_view(items@) == all.skip(1));
                self.source = ChunkSource::Iter(items);
                Some(item)
            },
            ChunkSource::Reader(reader, limit) => {
                let mut reader = reader;
                let ghost held = reader.remaining();
                let ghost all = limited(held, limit);
                let want: usize = match limit {
                    Some(limit) => if limit < READ_BUFFER {
                        limit
                    } else {
                        READ_BUFFER
                    },
                    None => READ_BUFFER,
                };
                let bytes = reader.read(want);
                proof {
                    lemma_limited_read(held, limit, bytes@.len());
                }
                if bytes.len() == 0 {
                    return None;
                }
                let rest: Option<usize> = match limit {
                    Some(limit) => Some(limit - bytes.len()),
                    None => None,
                };
                assert(rest == reduced(limit, bytes@.len()));
                assert(bytes@ == all.take(bytes@.len() as int));
                proof {
                    if all.len() <= READ_BUFFER {
                        assert(all.take(all.len() as int) == all);
                        assert(seq![ChunkView::Data(all)].skip(1) == Seq::<ChunkView>::empty());
                        assert(all.skip(all.len() as int) == Seq::<u8>::empty());
                    } else {
                        let first = seq![ChunkView::Data(all.take(READ_BUFFER as int))];
                        assert((first + pieces(all.skip(READ_BUFFER as int))).skip(1) == pieces(
                            all.skip(READ_BUFFER as int),
                        ));
                    }
                    assert(ok_items(pieces(all)).skip(1) == ok_items(pieces(all).skip(1)));
                    assert(pieces(Seq::<u8>::empty()) == Seq::<ChunkView>::empty());
                }
                match rest {
                    Some(0) => {},
                    _ => {
                        self.source = ChunkSource::Reader(reader, rest);
                    },
                }
                Some(Ok(Chunk::Data(bytes)))
            },
        }
    }
}

/// Whether the trailer blocks among `items` that come before the first
/// error hold no more than `MAX_FIELDS` fields between them.
pub fn trailers_of_items_fit(items: &Vec<Result<Chunk, BodyError>>) -> (fit: bool)
    ensures
        fit == (trailer_count(until_error(items_view(items@))) <= MAX_FIELDS),
{
    let ghost all = items_view(items@);
    let mut total: usize = 0;
    let mut i: usize = 0;
    assert(all.skip(0) == all);
    while i < items.len()
        invariant
            i <= items.len(),
            all == items_view(items@),
            total <= MAX_FIELDS,
            trailer_count(until_error(all)) == total + trailer_count(
                until_error(all.skip(i as int)),
            ),
        decreases items.len() - i,
    {
        proof {
            lemma_skip_skip(all, i as int);
        }
        let ghost rest = all.skip(i as int);
        match &items[i] {
            Ok(Chunk::Data(data)) => {
                assert((seq![ChunkView::Data(data@)] + until_error(rest.skip(1))).skip(1)
                    == until_error(rest.skip(1)));
            },
            Ok(Chunk::Trailers(trailers)) => {
                assert((seq![rest[0]->Ok_0] + until_error(rest.skip(1))).skip(1) == until_error(
                    rest.skip(1),
                ));
                let count = field_count(trailers);
                if count > MAX_FIELDS - total {
                    return false;
                }
                total = total + count;
            },
            Err(_) => {
                return true;
            },
        }
        i += 1;
    }
    assert(all.skip(i as int) == Seq::<Result<ChunkView, BodyError>>::empty());
    true
}

} // verus!
