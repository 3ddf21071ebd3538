//! The chunked transfer coding: each data chunk as its length in
//! hexadecimal, a line end, the data and a line end; after the last one a
//! zero, the trailer fields and an empty line.

use crate::body::{
    first_error, trailer_count, until_error, BodyError, Chunk, ChunkIterator, ChunkView,
};
use crate::bytes::{append, append_crlf, append_hex, crlf, hex_digits, LF};
use crate::input::{lemma_find_byte, lemma_find_byte_is, line_of, Input};
use crate::header::{
    extend_headers, field_list, fields_extended, header_fields, new_headers, pairs_view,
    MAX_FIELDS,
};
use vstd::prelude::*;

verus! {

/// One header field on the wire: name, colon, space, value, line end.
pub open spec fn field_text(field: (Seq<u8>, Seq<u8>)) -> Seq<u8> {
    field.0 + seq![58u8, 32u8] + field.1 + crlf()
}

/// Header fields on the wire, one line each.
pub open spec fn fields_text(fields: Seq<(Seq<u8>, Seq<u8>)>) -> Seq<u8>
    decreases fields.len(),
{
    if fields.len() == 0 {
        Seq::empty()
    } else {
        fields_text(fields.drop_last()) + field_text(fields.last())
    }
}

/// One data chunk on the wire.
pub open spec fn chunk_text(data: Seq<u8>) -> Seq<u8> {
    hex_digits(data.len()) + crlf() + data + crlf()
}

/// The data chunks among `chunks` on the wire, one after the other.
pub open spec fn chunks_text(chunks: Seq<ChunkView>) -> Seq<u8>
    decreases chunks.len(),
{
    if chunks.len() == 0 {
        Seq::empty()
    } else {
        match chunks[0] {
            ChunkView::Data(data) => chunk_text(data) + chunks_text(chunks.skip(1)),
            ChunkView::Trailers(_) => chunks_text(chunks.skip(1)),
        }
    }
}

/// The trailer fields that are sent after `chunks`: the map that starts with
/// the fields `so_far` and is extended with each trailer block in turn.
pub open spec fn trailers_of(chunks: Seq<ChunkView>, so_far: Seq<(Seq<u8>, Seq<u8>)>) -> Seq<
    (Seq<u8>, Seq<u8>),
>
    decreases chunks.len(),
{
    if chunks.len() == 0 {
        so_far
    } else {
        match chunks[0] {
            ChunkView::Data(_) => trailers_of(chunks.skip(1), so_far),
            ChunkView::Trailers(fields) => trailers_of(
                chunks.skip(1),
                fields_extended(so_far, fields),
            ),
        }
    }
}

/// What ends a chunked body: a zero, a line end, the trailer fields and an
/// empty line.
pub open spec fn last_chunk_text(trailers: Seq<(Seq<u8>, Seq<u8>)>) -> Seq<u8> {
    seq![48u8] + crlf() + fields_text(trailers) + crlf()
}

/// A body in the chunked transfer coding.
pub open spec fn chunked_text(chunks: Seq<ChunkView>) -> Seq<u8> {
    chunks_text(chunks) + last_chunk_text(trailers_of(chunks, Seq::empty()))
}

/// Appends the header fields of `map` to `out`, one line each, in the order
/// in which the map yields them.
pub fn append_fields(out: &mut Vec<u8>, map: &http::HeaderMap)
    ensures
        final(out)@ == old(out)@ + fields_text(header_fields(*map)),
{
    let list = field_list(map);
    let ghost fields = header_fields(*map);
    let mut i: usize = 0;
    assert(fields.take(0) == Seq::<(Seq<u8>, Seq<u8>)>::empty());
    assert(old(out)@ + Seq::<u8>::empty() == old(out)@);
    while i < list.len()
        invariant
            i <= list.len(),
            fields == pairs_view(list@),
            out@ == old(out)@ + fields_text(fields.take(i as int)),
        decreases list.len() - i,
    {
        let ghost before = out@;
        append(out, &list[i].0);
        out.push(58);
        out.push(32);
        append(out, &list[i].1);
        append_crlf(out);
        i += 1;
        proof {
            let upto = fields.take(i as int);
            assert(upto.drop_last() == fields.take(i - 1));
            assert(upto.last() == fields[i - 1]);
            assert(out@ == before + field_text(fields[i - 1]));
            assert(out@ == old(out)@ + fields_text(upto));
        }
    }
    assert(fields.take(i as int) == fields);
}

/// Appends one data chunk to `out`.
pub fn append_chunk(out: &mut Vec<u8>, data: &Vec<u8>)
    ensures
        final(out)@ == old(out)@ + chunk_text(data@),
{
    append_hex(out, data.len() as u64);
    append_crlf(out);
    append(out, data);
    append_crlf(out);
    assert(out@ == old(out)@ + chunk_text(data@));
}

/// Appends what ends a chunked body, with the fields of `trailers`.
pub fn append_last_chunk(out: &mut Vec<u8>, trailers: &http::HeaderMap)
    ensures
        final(out)@ == old(out)@ + last_chunk_text(header_fields(*trailers)),
{
    out.push(48);
    append_crlf(out);
    append_fields(out, trailers);
    append_crlf(out);
    assert(out@ == old(out)@ + last_chunk_text(header_fields(*trailers)));
}

/// What is sent of a body in the chunked transfer coding: the body in
/// full where its source does not fail, and only the data chunks that come
/// before the error where it does.
pub open spec fn sent_chunked(items: Seq<Result<ChunkView, BodyError>>) -> Seq<u8> {
    if first_error(items) is None {
        chunked_text(until_error(items))
    } else {
        chunks_text(until_error(items))
    }
}

/// Appends the items to come in the chunked transfer coding: the data
/// chunks as they come, then the trailers of all the trailer blocks. An
/// error among the items ends the writing where it comes, and is returned.
pub fn append_chunked(out: &mut Vec<u8>, chunks: ChunkIterator) -> (done: Result<(), BodyError>)
    requires
        trailer_count(until_error(chunks.pending())) <= MAX_FIELDS,
    ensures
        final(out)@ == old(out)@ + sent_chunked(chunks.pending()),
        match done {
            Ok(()) => first_error(chunks.pending()) is None,
            Err(error) => first_error(chunks.pending()) == Some(error),
        },
{
    let ghost all = chunks.pending();
    let mut coming = chunks;
    let mut trailers = new_headers();
    assert(old(out)@ + Seq::<u8>::empty() == old(out)@);
    loop
        invariant_except_break
            all == chunks.pending(),
            old(out)@ + chunks_text(until_error(all)) == out@ + chunks_text(
                until_error(coming.pending()),
            ),
            trailers_of(until_error(all), Seq::empty()) == trailers_of(
                until_error(coming.pending()),
                header_fields(trailers),
            ),
            first_error(all) == first_error(coming.pending()),
            header_fields(trailers).len() + trailer_count(until_error(coming.pending()))
                <= MAX_FIELDS,
        ensures
            first_error(all) is None,
            out@ == old(out)@ + chunks_text(until_error(all)),
            header_fields(trailers) == trailers_of(until_error(all), Seq::empty()),
        decreases coming.pending().len(),
    {
        let ghost pending = coming.pending();
        let ghost before = out@;
        let ghost rest = until_error(pending.skip(1));
        match coming.next() {
            Some(Ok(Chunk::Data(data))) => {
                assert((seq![ChunkView::Data(data@)] + rest).skip(1) == rest);
                append_chunk(out, &data);
                assert(before + (chunk_text(data@) + chunks_text(rest)) == out@ + chunks_text(
                    rest,
                ));
            },
            Some(Ok(Chunk::Trailers(more))) => {
                assert((seq![pending[0]->Ok_0] + rest).skip(1) == rest);
                extend_headers(&mut trailers, more);
            },
            Some(Err(error)) => {
                assert(out@ + Seq::<u8>::empty() == out@);
                return Err(error);
            },
            None => {
                assert(pending == Seq::<Result<ChunkView, BodyError>>::empty());
                assert(out@ + Seq::<u8>::empty() == out@);
                break ;
            },
        }
    }
    append_last_chunk(out, &trailers);
    assert(out@ == old(out)@ + chunked_text(until_error(all))) by {
        assert(old(out)@ + (chunks_text(until_error(all)) + last_chunk_text(
            trailers_of(until_error(all), Seq::empty()),
        )) == (old(out)@ + chunks_text(until_error(all))) + last_chunk_text(
            trailers_of(until_error(all), Seq::empty()),
        ));
    }
    Ok(())
}

/// What `httparse` makes of the line that starts a chunk.
#[derive(Debug, Clone, Copy, PartialEq, Eq, Structural)]
pub enum ChunkSize {
    /// The line is complete: where it ends, and the size it announces.
    Complete(usize, u64),
    /// The line is not complete yet.
    Partial,
    /// The line is no chunk size line.
    Invalid,
}

/// What `httparse::parse_chunk_size` returns on these bytes.
pub uninterp spec fn chunk_size_scan(line: Seq<u8>) -> ChunkSize;

/// The line that starts a chunk of `size` bytes, as the encoder writes it:
/// the size in lower-case hexadecimal and a line end.
pub open spec fn size_line(size: u64) -> Seq<u8> {
    hex_digits(size as nat) + crlf()
}

/// Calls `httparse::parse_chunk_size`. Claimed: what it returns goes by the
/// bytes alone; and on a line that is made of the lower-case hexadecimal
/// digits of a number below 2^64, without leading zeros, and a line end, it
/// finds the line complete at its end and gives that number.
#[verifier::external_body]
fn scan_chunk_size(line: &[u8]) -> (size: ChunkSize)
    ensures
        size == chunk_size_scan(line@),
        forall|number: u64|
            line@ == #[trigger] size_line(number) ==> size == ChunkSize::Complete(
                line@.len() as usize,
                number,
            ),
{
    match httparse::parse_chunk_size(line) {
        Ok(httparse::Status::Complete((end, size))) => ChunkSize::Complete(end, size),
        Ok(httparse::Status::Partial) => ChunkSize::Partial,
        Err(_) => ChunkSize::Invalid,
    }
}

/// What the line that starts a chunk means for the decoder.
#[derive(Debug, Clone, Copy, PartialEq, Eq, Structural)]
pub enum ChunkLine {
    /// A chunk of so many bytes follows.
    Data(u64),
    /// The body ends here.
    End,
    /// More of the line has to be read.
    More,
}

/// What the lines read so far mean: a size of zero or a line that is no chunk
/// size line ends the body.
pub open spec fn chunk_line_of(line: Seq<u8>) -> ChunkLine {
    match chunk_size_scan(line) {
        ChunkSize::Complete(_, size) => if size == 0 {
            ChunkLine::End
        } else {
            ChunkLine::Data(size)
        },
        ChunkSize::Partial => ChunkLine::More,
        ChunkSize::Invalid => ChunkLine::End,
    }
}

/// What the line that starts a chunk of `size` bytes means.
pub open spec fn meaning_of_size(size: u64) -> ChunkLine {
    if size == 0 {
        ChunkLine::End
    } else {
        ChunkLine::Data(size)
    }
}

/// Whether the decoder takes `line`, where the encoder has written it for
/// some size, for the line of that size.
pub open spec fn recognized(line: Seq<u8>) -> bool {
    forall|size: u64|
        line == #[trigger] size_line(size) ==> chunk_line_of(line) == meaning_of_size(size)
}

/// Says what the lines read so far mean for the decoder. The line that the
/// encoder writes for a size means that size.
pub fn chunk_line(line: &Vec<u8>) -> (meaning: ChunkLine)
    ensures
        meaning == chunk_line_of(line@),
        recognized(line@),
{
    match scan_chunk_size(line.as_slice()) {
        ChunkSize::Complete(_, size) => if size == 0 {
            ChunkLine::End
        } else {
            ChunkLine::Data(size)
        },
        ChunkSize::Partial => ChunkLine::More,
        ChunkSize::Invalid => ChunkLine::End,
    }
}

/// One step of the decoder on the bytes `rest`, with the lines `buf` already
/// read for this chunk: the chunk that it yields, if any, and the bytes that
/// are left. It reads lines until they make a chunk size line, then the data
/// of that size and the line that ends it. The end of the stream, a size of
/// zero, a line that is no chunk size line, and data cut short all end the
/// body.
pub open spec fn chunk_step(buf: Seq<u8>, rest: Seq<u8>) -> (Option<Seq<u8>>, Seq<u8>)
    decreases rest.len(),
{
    if rest.len() == 0 {
        (None, rest)
    } else {
        let line = line_of(rest, LF);
        let after_line = rest.skip(line.len() as int);
        match chunk_line_of(buf + line) {
            ChunkLine::End => (None, after_line),
            ChunkLine::Data(size) => if size <= after_line.len() {
                let after_data = after_line.skip(size as int);
                (
                    Some(after_line.take(size as int)),
                    after_data.skip(line_of(after_data, LF).len() as int),
                )
            } else {
                (None, Seq::empty())
            },
            ChunkLine::More => if line.len() > 0 {
                chunk_step(buf + line, after_line)
            } else {
                (None, rest)
            },
        }
    }
}

/// All the chunks that the decoder yields on `bytes`, and the bytes that it
/// leaves.
pub open spec fn decoded(bytes: Seq<u8>) -> (Seq<Seq<u8>>, Seq<u8>)
    decreases bytes.len(),
{
    match chunk_step(Seq::empty(), bytes) {
        (None, rest) => (Seq::empty(), rest),
        (Some(chunk), rest) => if rest.len() < bytes.len() {
            (seq![chunk] + decoded(rest).0, decoded(rest).1)
        } else {
            (seq![chunk], rest)
        },
    }
}

/// A line of a stream that is not at its end holds a byte, and no more than
/// the stream does.
pub proof fn lemma_line_len(bytes: Seq<u8>, delim: u8)
    ensures
        line_of(bytes, delim).len() <= bytes.len(),
        bytes.len() > 0 ==> line_of(bytes, delim).len() > 0,
        line_of(bytes, delim) == bytes.take(line_of(bytes, delim).len() as int),
{
    lemma_find_byte(bytes, delim);
    assert(bytes.take(bytes.len() as int) == bytes);
}

/// A step of the decoder that yields a chunk leaves fewer bytes than it
/// found, and never more.
pub proof fn lemma_chunk_step(buf: Seq<u8>, rest: Seq<u8>)
    ensures
        chunk_step(buf, rest).1.len() <= rest.len(),
        chunk_step(buf, rest).0 is Some ==> chunk_step(buf, rest).1.len() < rest.len(),
    decreases rest.len(),
{
    if rest.len() > 0 {
        let line = line_of(rest, LF);
        lemma_line_len(rest, LF);
        let after_line = rest.skip(line.len() as int);
        match chunk_line_of(buf + line) {
            ChunkLine::End => {},
            ChunkLine::Data(size) => {
                if size <= after_line.len() {
                    let after_data = after_line.skip(size as int);
                    lemma_line_len(after_data, LF);
                }
            },
            ChunkLine::More => {
                lemma_chunk_step(buf + line, after_line);
            },
        }
    }
}

/// The digits of a number hold no line feed, and there is at least one.
pub proof fn lemma_hex_digits(number: nat)
    ensures
        hex_digits(number).len() > 0,
        forall|i: int| 0 <= i < hex_digits(number).len() ==> hex_digits(number)[i] != LF,
    decreases number,
{
    if number >= 16 {
        lemma_hex_digits(number / 16);
    }
}

/// What starts with the line of a size has that line as its first line.
pub proof fn lemma_first_line(size: u64, tail: Seq<u8>)
    ensures
        line_of(size_line(size) + tail, LF) == size_line(size),
{
    let digits = hex_digits(size as nat);
    let all = size_line(size) + tail;
    lemma_hex_digits(size as nat);
    assert forall|i: int| 0 <= i < digits.len() + 1 implies all[i] != LF by {
        if i < digits.len() {
            assert(all[i] == digits[i]);
        } else {
            assert(all[i] == crlf()[0]);
        }
    }
    assert(all[digits.len() as int + 1] == crlf()[1]);
    lemma_find_byte_is(all, LF, digits.len() + 1);
    assert(all.take(digits.len() as int + 2) == size_line(size));
}

/// Where the decoder takes the line of a size for what it is, it reads
/// back the chunk that the encoder wrote, and leaves what follows it.
proof fn lemma_reads_chunk_back(data: Seq<u8>, rest: Seq<u8>)
    requires
        0 < data.len() <= u64::MAX,
        recognized(size_line(data.len() as u64)),
    ensures
        chunk_step(Seq::empty(), chunk_text(data) + rest) == (Some(data), rest),
{
    let size = data.len() as u64;
    let line = size_line(size);
    let all = chunk_text(data) + rest;
    let tail = data + crlf() + rest;
    assert(all == line + tail);
    lemma_first_line(size, tail);
    assert(Seq::<u8>::empty() + line == line);
    let after_line = all.skip(line.len() as int);
    assert(after_line == tail);
    assert(after_line.take(size as int) == data);
    let after_data = after_line.skip(size as int);
    assert(after_data == crlf() + rest);
    assert(crlf()[1] == LF);
    assert(after_data[0] == crlf()[0]);
    assert(after_data[1] == LF);
    lemma_find_byte_is(after_data, LF, 1);
    assert(after_data.take(2) == crlf());
    assert(after_data.skip(2) == rest);
}

/// Where the decoder takes the line of the size zero for what it is, it
/// ends the body there, and leaves what follows the line.
proof fn lemma_reads_end_back(rest: Seq<u8>)
    requires
        recognized(size_line(0)),
    ensures
        chunk_step(Seq::empty(), size_line(0) + rest) == (None::<Seq<u8>>, rest),
{
    let line = size_line(0);
    let all = line + rest;
    lemma_first_line(0, rest);
    lemma_hex_digits(0);
    assert(Seq::<u8>::empty() + line == line);
    assert(all.skip(line.len() as int) == rest);
}

/// Reads a body in the chunked transfer coding chunk by chunk.
pub struct ChunkedReader {
    /// The stream that the chunks are read from.
    pub stream: Input,
}

impl ChunkedReader {
    /// A decoder on `stream`.
    pub fn new(stream: Input) -> (reader: ChunkedReader)
        ensures
            reader.stream == stream,
    {
        ChunkedReader { stream }
    }

    /// The next chunk of the body, or `None` where the body ends.
    pub fn next(&mut self) -> (chunk: Option<Vec<u8>>)
        ensures
            match chunk {
                Some(data) => chunk_step(Seq::empty(), old(self).stream.remaining()).0 == Some(
                    data@,
                ),
                None => chunk_step(Seq::empty(), old(self).stream.remaining()).0 is None,
            },
            final(self).stream.remaining() == chunk_step(
                Seq::empty(),
                old(self).stream.remaining(),
            ).1,
            forall|data: Seq<u8>, rest: Seq<u8>|
                0 < data.len() <= u64::MAX && old(self).stream.remaining() == #[trigger] (
                chunk_text(data) + rest) ==> {
                    &&& chunk is Some
                    &&& chunk->Some_0@ == data
                    &&& final(self).stream.remaining() == rest
                },
            forall|rest: Seq<u8>|
                old(self).stream.remaining() == #[trigger] (size_line(0) + rest) ==> chunk is None
                    && final(self).stream.remaining() == rest,
    {
        let ghost start = self.stream.remaining();
        let mut buf: Vec<u8> = Vec::new();
        let mut chunk: Option<Vec<u8>> = None;
        loop
            invariant_except_break
                chunk is None,
                chunk_step(Seq::empty(), start) == chunk_step(buf@, self.stream.remaining()),
                buf@.len() == 0 ==> self.stream.remaining() == start,
                buf@.len() > 0 ==> recognized(line_of(start, LF)) && start.len() > 0,
            ensures
                match chunk {
                    Some(data) => chunk_step(Seq::empty(), start).0 == Some(data@),
                    None => chunk_step(Seq::empty(), start).0 is None,
                },
                self.stream.remaining() == chunk_step(Seq::empty(), start).1,
                start.len() > 0 ==> recognized(line_of(start, LF)),
            decreases self.stream.remaining().len(),
        {
            let ghost before = buf@;
            let ghost rest = self.stream.remaining();
            proof {
                lemma_line_len(rest, LF);
            }
            if self.stream.read_until(LF, &mut buf) == 0 {
                break ;
            }
            assert(before.len() == 0 ==> buf@ == line_of(start, LF)) by {
                assert(Seq::<u8>::empty() + line_of(rest, LF) == line_of(rest, LF));
            }
            match chunk_line(&buf) {
                ChunkLine::End => {
                    break ;
                },
                ChunkLine::Data(size) => {
                    if size > self.stream.available() as u64 {
                        let _ = self.stream.read(self.stream.available());
                        assert(self.stream.remaining() == Seq::<u8>::empty());
                        break ;
                    }
                    let data = self.stream.read(size as usize);
                    let mut end: Vec<u8> = Vec::new();
                    let _ = self.stream.read_until(LF, &mut end);
                    chunk = Some(data);
                    break ;
                },
                ChunkLine::More => {},
            }
        }
        proof {
            assert forall|data: Seq<u8>, rest: Seq<u8>|
                0 < data.len() <= u64::MAX && start == #[trigger] (chunk_text(data)
                    + rest) implies chunk is Some && chunk->Some_0@ == data
                && self.stream.remaining() == rest by {
                let size = data.len() as u64;
                assert(start == size_line(size) + (data + crlf() + rest));
                lemma_first_line(size, data + crlf() + rest);
                lemma_hex_digits(size as nat);
                lemma_reads_chunk_back(data, rest);
            }
            assert forall|rest: Seq<u8>| start == #[trigger] (size_line(0) + rest) implies chunk
                is None && self.stream.remaining() == rest by {
                lemma_first_line(0, rest);
                lemma_hex_digits(0);
                lemma_reads_end_back(rest);
            }
        }
        chunk
    }

    /// Reads the body to its end: all the chunks that it holds. A body that
    /// the encoder wrote from chunks that each hold a byte is read back chunk
    /// for chunk, up to and including the line that ends it.
    pub fn collect(&mut self) -> (chunks: Vec<Vec<u8>>)
        ensures
            chunks@.map_values(|chunk: Vec<u8>| chunk@) == decoded(old(self).stream.remaining()).0,
            final(self).stream.remaining() == decoded(old(self).stream.remaining()).1,
            forall|sent: Seq<Seq<u8>>, rest: Seq<u8>|
                sendable(sent) && old(self).stream.remaining() == #[trigger] framed(sent, rest)
                    ==> {
                    &&& chunks@.map_values(|chunk: Vec<u8>| chunk@) == sent
                    &&& final(self).stream.remaining() == rest
                },
    {
        let ghost start = self.stream.remaining();
        let mut chunks: Vec<Vec<u8>> = Vec::new();
        assert(chunks@.map_values(|chunk: Vec<u8>| chunk@) + decoded(start).0 == decoded(start).0);
        proof {
            assert forall|sent: Seq<Seq<u8>>, rest: Seq<u8>|
                sendable(sent) && start == #[trigger] framed(sent, rest) implies read_so_far(
                sent,
                rest,
                chunks@.map_values(|chunk: Vec<u8>| chunk@),
                self.stream.remaining(),
            ) by {
                assert(chunks@.map_values(|chunk: Vec<u8>| chunk@) == sent.take(0));
                assert(sent.skip(0) == sent);
            }
        }
        loop
            invariant_except_break
                decoded(start).0 == chunks@.map_values(|chunk: Vec<u8>| chunk@) + decoded(
                    self.stream.remaining(),
                ).0,
                decoded(start).1 == decoded(self.stream.remaining()).1,
                forall|sent: Seq<Seq<u8>>, rest: Seq<u8>|
                    sendable(sent) && start == #[trigger] framed(sent, rest) ==> read_so_far(
                        sent,
                        rest,
                        chunks@.map_values(|chunk: Vec<u8>| chunk@),
                        self.stream.remaining(),
                    ),
            ensures
                chunks@.map_values(|chunk: Vec<u8>| chunk@) == decoded(start).0,
                self.stream.remaining() == decoded(start).1,
                forall|sent: Seq<Seq<u8>>, rest: Seq<u8>|
                    sendable(sent) && start == #[trigger] framed(sent, rest) ==> {
                        &&& chunks@.map_values(|chunk: Vec<u8>| chunk@) == sent
                        &&& self.stream.remaining() == rest
                    },
            decreases self.stream.remaining().len(),
        {
            let ghost left = self.stream.remaining();
            let ghost done = chunks@.map_values(|chunk: Vec<u8>| chunk@);
            proof {
                lemma_chunk_step(Seq::empty(), left);
            }
            match self.next() {
                None => {
                    assert(done + Seq::<Seq<u8>>::empty() == done);
                    proof {
                        assert forall|sent: Seq<Seq<u8>>, rest: Seq<u8>|
                            sendable(sent) && start == #[trigger] framed(sent, rest) implies done
                            == sent && self.stream.remaining() == rest by {
                            let at = done.len() as int;
                            assert(read_so_far(sent, rest, done, left));
                            if at < sent.len() {
                                assert(sent.skip(at)[0] == sent[at]);
                                assert(left == chunk_text(sent[at]) + framed(
                                    sent.skip(at).skip(1),
                                    rest,
                                ));
                            } else {
                                assert(left == size_line(0) + rest);
                                assert(sent.take(at) == sent);
                            }
                        }
                    }
                    break ;
                },
                Some(data) => {
                    chunks.push(data);
                    assert(chunks@.map_values(|chunk: Vec<u8>| chunk@) == done.push(data@));
                    assert(done + (seq![data@] + decoded(self.stream.remaining()).0) == done.push(
                        data@,
                    ) + decoded(self.stream.remaining()).0);
                    proof {
                        assert forall|sent: Seq<Seq<u8>>, rest: Seq<u8>|
                            sendable(sent) && start == #[trigger] framed(
                                sent,
                                rest,
                            ) implies read_so_far(
                            sent,
                            rest,
                            done.push(data@),
                            self.stream.remaining(),
                        ) by {
                            let at = done.len() as int;
                            assert(read_so_far(sent, rest, done, left));
                            if at < sent.len() {
                                assert(sent.skip(at)[0] == sent[at]);
                                assert(sent.skip(at).skip(1) == sent.skip(at + 1));
                                assert(left == chunk_text(sent[at]) + framed(
                                    sent.skip(at + 1),
                                    rest,
                                ));
                                assert(sent.take(at + 1) == sent.take(at).push(sent[at]));
                            } else {
                                assert(left == size_line(0) + rest);
                            }
                        }
                    }
                },
            }
        }
        chunks
    }
}

/// Whether the encoder can write each of these chunks as a chunk of its own:
/// each holds a byte, and its length is a size.
pub open spec fn sendable(sent: Seq<Seq<u8>>) -> bool {
    forall|i: int| 0 <= i < sent.len() ==> 0 < (#[trigger] sent[i]).len() <= u64::MAX
}

/// The chunks `sent` as the encoder writes them, the line that ends the
/// body, and then `rest`.
pub open spec fn framed(sent: Seq<Seq<u8>>, rest: Seq<u8>) -> Seq<u8>
    decreases sent.len(),
{
    if sent.len() == 0 {
        size_line(0) + rest
    } else {
        chunk_text(sent[0]) + framed(sent.skip(1), rest)
    }
}

/// Where the decoder stands on a stream that was `framed(sent, rest)` once
/// it has read the chunks `done`: they are the first of `sent`, and what is
/// left are the others, framed.
pub open spec fn read_so_far(
    sent: Seq<Seq<u8>>,
    rest: Seq<u8>,
    done: Seq<Seq<u8>>,
    left: Seq<u8>,
) -> bool {
    &&& done.len() <= sent.len()
    &&& done == sent.take(done.len() as int)
    &&& left == framed(sent.skip(done.len() as int), rest)
}

/// A body of data chunks in the chunked transfer coding is these chunks
/// framed, followed by the empty line that ends the trailers.
pub proof fn lemma_chunked_text_is_framed(sent: Seq<Seq<u8>>, rest: Seq<u8>)
    ensures
        chunked_text(sent.map_values(|data: Seq<u8>| ChunkView::Data(data))) + rest == framed(
            sent,
            crlf() + rest,
        ),
    decreases sent.len(),
{
    let chunks = sent.map_values(|data: Seq<u8>| ChunkView::Data(data));
    lemma_data_trailers(sent);
    assert(fields_text(Seq::empty()) == Seq::<u8>::empty());
    let tail = last_chunk_text(Seq::empty());
    assert(tail + rest == size_line(0) + (crlf() + rest)) by {
        assert(hex_digits(0) == seq![48u8]);
        assert(seq![48u8] + crlf() + Seq::<u8>::empty() + crlf() + rest == (seq![48u8] + crlf())
            + (crlf() + rest));
    }
    if sent.len() == 0 {
        assert(chunks_text(chunks) == Seq::<u8>::empty());
        assert(Seq::<u8>::empty() + tail + rest == tail + rest);
    } else {
        lemma_chunked_text_is_framed(sent.skip(1), rest);
        let after = sent.skip(1).map_values(|data: Seq<u8>| ChunkView::Data(data));
        assert(chunks.skip(1) == after);
        lemma_data_trailers(sent.skip(1));
        assert((chunk_text(sent[0]) + chunks_text(after)) + tail + rest == chunk_text(sent[0]) + (
        chunks_text(after) + tail + rest));
    }
}

/// Data chunks send no trailers.
proof fn lemma_data_trailers(sent: Seq<Seq<u8>>)
    ensures
        trailers_of(
            sent.map_values(|data: Seq<u8>| ChunkView::Data(data)),
            Seq::empty(),
        ) == Seq::<(Seq<u8>, Seq<u8>)>::empty(),
    decreases sent.len(),
{
    let chunks = sent.map_values(|data: Seq<u8>| ChunkView::Data(data));
    if sent.len() > 0 {
        lemma_data_trailers(sent.skip(1));
        assert(chunks.skip(1) == sent.skip(1).map_values(|data: Seq<u8>| ChunkView::Data(data)));
    }
}

} // verus!
