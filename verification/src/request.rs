//! Requests on the wire: reading the head of a message off a stream, parsing
//! a request, and writing one.

use crate::body::{Body, BodyModel, Chunk, ChunkView, HttpBody, BodyError, trailer_count};
use crate::bytes::{append, append_crlf, crlf, CR, LF};
use crate::chunked::{append_fields, decoded, fields_text, lemma_line_len, ChunkedReader};
use crate::header::{
    append_field, chunked_coding, chunked_coding_in, content_length, content_length_in,
    field_accepted, fields_appended, fields_with_chunked_coding, fields_with_content_length, fits,
    header_fields, new_headers, set_chunked_coding, set_content_length, Lookup, MAX_FIELDS,
};
use crate::input::{line_of, Input};
use crate::message::{
    append_version, get_token, head_token, method_accepted, uri_rendering, version_of_minor,
    version_text, Method, Request, Uri, Version,
};
use crate::header::{absent, content_length_name, transfer_encoding_name};
use crate::response::{
    body_wire, content_length_of, declared_length, framing_field, has_chunked_coding,
    length_framing,
    says_chunked, send_body, sendable, tells, Encoding, WriteError, SMALL_BODY,
};
use httparse::Error;
use vstd::prelude::*;

verus! {

/// What `httparse` found wrong with the head of a message.
#[derive(Debug, Clone, Copy, PartialEq, Eq, Structural)]
pub enum Malformed {
    /// Invalid byte in header name.
    HeaderName,
    /// Invalid byte in header value.
    HeaderValue,
    /// Invalid byte in new line.
    NewLine,
    /// Invalid byte in response status.
    Status,
    /// Invalid byte where token is required.
    Token,
    /// More headers than the parser has room for.
    TooManyHeaders,
    /// Invalid byte in HTTP version.
    Version,
}

/// Why a message could not be parsed.
#[derive(Debug, Clone, Copy, PartialEq, Eq, Structural)]
pub enum ParseError {
    /// The stream ended before the first byte of a message.
    ConnectionClosed,
    /// The stream ended in the middle of what had to be read.
    Io,
    /// The start line or the headers are malformed.
    Invalid(Malformed),
    /// The head ended before method, target and version were complete.
    IncompleteRequest,
    /// The message is written in a version that is not served.
    UnsupportedHttpVersion(u8),
    /// A `Transfer-Encoding` that does not end in `chunked`.
    InvalidTransferEncoding,
    /// A framing header that does not decode.
    InvalidHeader,
    /// The line that starts a chunk does not parse.
    InvalidChunkSize,
    /// The target or a header field was refused.
    Unknown,
}

/// The number of header slots that the parser is given.
pub const HEADER_SLOTS: usize = 64;

/// Whether `buf` ends in an empty line: in `CR LF CR LF` or in `LF LF`.
pub open spec fn head_ended(buf: Seq<u8>) -> bool {
    let n = buf.len() as int;
    ||| n >= 4 && buf[n - 4] == CR && buf[n - 3] == LF && buf[n - 2] == CR && buf[n - 1] == LF
    ||| n >= 2 && buf[n - 2] == LF && buf[n - 1] == LF
}

/// Whether `buf` ends in an empty line.
pub fn head_complete(buf: &Vec<u8>) -> (ended: bool)
    ensures
        ended == head_ended(buf@),
{
    let n: usize = buf.len();
    if n >= 4 && buf[n - 4] == CR && buf[n - 3] == LF && buf[n - 2] == CR && buf[n - 1] == LF {
        return true;
    }
    n >= 2 && buf[n - 2] == LF && buf[n - 1] == LF
}

/// The head of the message that `rest` starts with, after the lines `buf`
/// of it: the lines up to and including the first one after which what was
/// read ends in an empty line, or all the lines where none does.
pub open spec fn head_block(buf: Seq<u8>, rest: Seq<u8>) -> Seq<u8>
    decreases rest.len(),
{
    if rest.len() == 0 {
        buf
    } else {
        let line = line_of(rest, LF);
        if head_ended(buf + line) || line.len() == 0 {
            buf + line
        } else {
            head_block(buf + line, rest.skip(line.len() as int))
        }
    }
}

/// Reads the head of a message: line by line, until what was read ends in an
/// empty line or the stream ends.
pub fn read_head(stream: &mut Input) -> (buf: Vec<u8>)
    ensures
        buf@ == head_block(Seq::empty(), old(stream).remaining()),
        buf@.len() <= old(stream).remaining().len(),
        final(stream).remaining() == old(stream).remaining().skip(buf@.len() as int),
{
    let ghost start = stream.remaining();
    let mut buf: Vec<u8> = Vec::new();
    assert(start.skip(0) == start);
    loop
        invariant
            start == old(stream).remaining(),
            buf@.len() <= start.len(),
            stream.remaining() == start.skip(buf@.len() as int),
            head_block(Seq::empty(), start) == head_block(buf@, stream.remaining()),
        decreases stream.remaining().len(),
    {
        let ghost rest = stream.remaining();
        proof {
            lemma_line_len(rest, LF);
        }
        if stream.read_until(LF, &mut buf) == 0 {
            return buf;
        }
        assert(stream.remaining() == start.skip(buf@.len() as int));
        if head_complete(&buf) {
            return buf;
        }
    }
}

/// What the parser has filled in of a request.
pub struct RawRequest {
    /// The method, once it was read.
    pub method: Option<Vec<u8>>,
    /// The target, once it was read.
    pub path: Option<Vec<u8>>,
    /// The minor version, once it was read.
    pub version: Option<u8>,
    /// The header slots: the headers that were read, then empty slots.
    pub slots: Vec<(Vec<u8>, Vec<u8>)>,
}

/// What a [`RawRequest`] holds.
pub struct RawRequestView {
    /// The method, once it was read.
    pub method: Option<Seq<u8>>,
    /// The target, once it was read.
    pub path: Option<Seq<u8>>,
    /// The minor version, once it was read.
    pub version: Option<u8>,
    /// The header slots.
    pub slots: Seq<(Seq<u8>, Seq<u8>)>,
}

/// What an optional byte string holds.
pub open spec fn bytes_view(bytes: Option<Vec<u8>>) -> Option<Seq<u8>> {
    match bytes {
        Some(bytes) => Some(bytes@),
        None => None,
    }
}

impl View for RawRequest {
    type V = RawRequestView;

    open spec fn view(&self) -> RawRequestView {
        RawRequestView {
            method: bytes_view(self.method),
            path: bytes_view(self.path),
            version: self.version,
            slots: crate::header::pairs_view(self.slots@),
        }
    }
}

/// What `httparse::Request::parse` makes of these bytes with 64 header
/// slots: what it has filled in, or the error that it reports.
pub uninterp spec fn request_scan(buf: Seq<u8>) -> Result<RawRequestView, Malformed>;

/// Calls `httparse::Request::parse` with 64 empty header slots and copies
/// what it has filled in, whether or not the head was complete; an error is
/// given by the name of its variant. Claimed: what is filled in, and the
/// error, go by the bytes alone; there are 64 slots.
#[verifier::external_body]
fn scan_request(buf: &[u8]) -> (scan: Result<RawRequest, Malformed>)
    ensures
        match scan {
            Ok(raw) => request_scan(buf@) == Ok::<RawRequestView, Malformed>(raw@)
                && raw.slots@.len() == HEADER_SLOTS,
            Err(error) => request_scan(buf@) == Err::<RawRequestView, Malformed>(error),
        },
{
    let mut slots = [httparse::EMPTY_HEADER; 64];
    let mut request = httparse::Request::new(&mut slots);
    request.parse(buf).map_err(|error| match error {
        Error::HeaderName => Malformed::HeaderName,
        Error::HeaderValue => Malformed::HeaderValue,
        Error::NewLine => Malformed::NewLine,
        Error::Status => Malformed::Status,
        Error::Token => Malformed::Token,
        Error::TooManyHeaders => Malformed::TooManyHeaders,
        Error::Version => Malformed::Version,
    })?;
    let (method, path, version) = (request.method, request.path, request.version);
    let slots = slots.iter().map(|slot| (slot.name.as_bytes().to_vec(), slot.value.to_vec()));
    Ok(RawRequest { method: method.map(Vec::from), path: path.map(Vec::from), version, slots: slots.collect() })
}

/// The headers among the slots: those before the first slot that is empty.
pub open spec fn filled(slots: Seq<(Seq<u8>, Seq<u8>)>) -> Seq<(Seq<u8>, Seq<u8>)>
    decreases slots.len(),
{
    if slots.len() == 0 || (slots[0].0.len() == 0 && slots[0].1.len() == 0) {
        Seq::empty()
    } else {
        seq![slots[0]] + filled(slots.skip(1))
    }
}

/// The fields of the map that starts with `so_far` and to which `headers`
/// are appended in turn; none where `http` refuses one of them.
pub open spec fn built_fields(
    headers: Seq<(Seq<u8>, Seq<u8>)>,
    so_far: Seq<(Seq<u8>, Seq<u8>)>,
) -> Option<Seq<(Seq<u8>, Seq<u8>)>>
    decreases headers.len(),
{
    if headers.len() == 0 {
        Some(so_far)
    } else if !field_accepted(headers[0].0, headers[0].1) {
        None
    } else {
        built_fields(headers.skip(1), fields_appended(so_far, headers[0].0, headers[0].1))
    }
}

/// The fields of the header map of a message whose parser left these slots.
pub open spec fn parsed_fields(slots: Seq<(Seq<u8>, Seq<u8>)>) -> Option<Seq<(Seq<u8>, Seq<u8>)>> {
    built_fields(filled(slots), Seq::empty())
}

/// `filled` keeps no more than there are slots.
pub proof fn lemma_filled_len(slots: Seq<(Seq<u8>, Seq<u8>)>)
    ensures
        filled(slots).len() <= slots.len(),
    decreases slots.len(),
{
    if slots.len() == 0 || (slots[0].0.len() == 0 && slots[0].1.len() == 0) {
    } else {
        lemma_filled_len(slots.skip(1));
    }
}

/// Builds the header map of a message from the slots that the parser left.
pub fn build_headers(slots: &Vec<(Vec<u8>, Vec<u8>)>) -> (headers: Option<http::HeaderMap>)
    requires
        slots@.len() <= MAX_FIELDS,
    ensures
        match headers {
            Some(map) => parsed_fields(crate::header::pairs_view(slots@)) == Some(
                header_fields(map),
            ) && header_fields(map).len() <= slots@.len(),
            None => parsed_fields(crate::header::pairs_view(slots@)) is None,
        },
{
    let ghost all = crate::header::pairs_view(slots@);
    let mut map = new_headers();
    let mut i: usize = 0;
    assert(all.skip(0) == all);
    while i < slots.len()
        invariant
            i <= slots.len(),
            slots@.len() <= MAX_FIELDS,
            all == crate::header::pairs_view(slots@),
            header_fields(map).len() <= i,
            parsed_fields(all) == built_fields(filled(all.skip(i as int)), header_fields(map)),
        decreases slots.len() - i,
    {
        let ghost rest = all.skip(i as int);
        assert(rest[0] == all[i as int]);
        assert(rest.skip(1) == all.skip(i + 1));
        let name = &slots[i].0;
        let value = &slots[i].1;
        if name.len() == 0 && value.len() == 0 {
            return Some(map);
        }
        assert((seq![rest[0]] + filled(rest.skip(1))).skip(1) == filled(rest.skip(1)));
        if !append_field(&mut map, name.as_slice(), value.as_slice()) {
            return None;
        }
        i += 1;
    }
    assert(all.skip(i as int) == Seq::<(Seq<u8>, Seq<u8>)>::empty());
    Some(map)
}

/// How the body of a message that was received is delimited.
#[derive(Debug, Clone, Copy, PartialEq, Eq, Structural)]
pub enum BodyKind {
    /// In chunks.
    Chunked,
    /// By the declared length.
    Length(u64),
    /// There is no body.
    Empty,
    /// By the end of the stream.
    UntilClose,
}

/// How the body of a request with these fields is delimited: in chunks where
/// a `Transfer-Encoding` ends in `chunked`, and no other `Transfer-Encoding`
/// is taken; else by `Content-Length` where there is one; else there is no
/// body.
pub open spec fn request_body_kind(fields: Seq<(Seq<u8>, Seq<u8>)>) -> Result<
    BodyKind,
    ParseError,
> {
    match chunked_coding_in(fields) {
        Lookup::Invalid => Err(ParseError::InvalidHeader),
        Lookup::Found(chunked) => if chunked {
            Ok(BodyKind::Chunked)
        } else {
            Err(ParseError::InvalidTransferEncoding)
        },
        Lookup::Absent => match content_length_in(fields) {
            Lookup::Invalid => Err(ParseError::InvalidHeader),
            Lookup::Found(len) => Ok(BodyKind::Length(len)),
            Lookup::Absent => Ok(BodyKind::Empty),
        },
    }
}

/// Says how the body of a request with these headers is delimited.
pub fn body_kind_of_request(headers: &http::HeaderMap) -> (kind: Result<BodyKind, ParseError>)
    ensures
        kind == request_body_kind(header_fields(*headers)),
{
    match chunked_coding(headers) {
        Lookup::Invalid => Err(ParseError::InvalidHeader),
        Lookup::Found(chunked) => if chunked {
            Ok(BodyKind::Chunked)
        } else {
            Err(ParseError::InvalidTransferEncoding)
        },
        Lookup::Absent => match content_length(headers) {
            Lookup::Invalid => Err(ParseError::InvalidHeader),
            Lookup::Found(len) => Ok(BodyKind::Length(len)),
            Lookup::Absent => Ok(BodyKind::Empty),
        },
    }
}

/// The head of a request that was parsed.
pub struct RequestHead {
    /// The request method.
    pub method: Method,
    /// The request target.
    pub uri: Uri,
    /// The version of the protocol.
    pub version: Version,
    /// The header fields.
    pub headers: http::HeaderMap,
    /// How the body is delimited.
    pub body: BodyKind,
}

/// What a [`RequestHead`] holds.
pub struct RequestHeadView {
    /// The token of the method.
    pub method: Seq<u8>,
    /// The text of the target.
    pub uri: Seq<u8>,
    /// The authority of the target, where it has one: text, host and port.
    pub authority: Option<(Seq<u8>, Seq<u8>, Option<u16>)>,
    /// The version of the protocol.
    pub version: Version,
    /// The header fields.
    pub fields: Seq<(Seq<u8>, Seq<u8>)>,
    /// How the body is delimited.
    pub body: BodyKind,
}

impl View for RequestHead {
    type V = RequestHeadView;

    open spec fn view(&self) -> RequestHeadView {
        RequestHeadView {
            method: self.method@,
            uri: self.uri@,
            authority: self.uri.authority(),
            version: self.version,
            fields: header_fields(self.headers),
            body: self.body,
        }
    }
}

/// The head of the request that the parser has filled in, or why there is
/// none: a head without method, target or version is incomplete, and so is
/// one whose method is no method; a version other than 1.0 and 1.1 is not
/// served; a target or a header that `http` refuses is an unknown failure;
/// then the framing headers decide.
pub open spec fn request_head_of(raw: RawRequestView) -> Result<RequestHeadView, ParseError> {
    if raw.method is None || raw.path is None || raw.version is None {
        Err(ParseError::IncompleteRequest)
    } else if version_of_minor(raw.version->Some_0) is None {
        Err(ParseError::UnsupportedHttpVersion(raw.version->Some_0))
    } else if !method_accepted(raw.method->Some_0) {
        Err(ParseError::IncompleteRequest)
    } else if uri_rendering(raw.path->Some_0) is None || parsed_fields(raw.slots) is None {
        Err(ParseError::Unknown)
    } else {
        match request_body_kind(parsed_fields(raw.slots)->Some_0) {
            Err(error) => Err(error),
            Ok(body) => Ok(
                RequestHeadView {
                    method: raw.method->Some_0,
                    uri: uri_rendering(raw.path->Some_0)->Some_0,
                    authority: crate::message::uri_parts(raw.path->Some_0)->Some_0.1,
                    version: version_of_minor(raw.version->Some_0)->Some_0,
                    fields: parsed_fields(raw.slots)->Some_0,
                    body,
                },
            ),
        }
    }
}

/// The head of the request that `buf` holds, or why it holds none: what the
/// parser found wrong, or else what its fillings come to.
pub open spec fn request_head_in(buf: Seq<u8>) -> Result<RequestHeadView, ParseError> {
    match request_scan(buf) {
        Err(error) => Err(ParseError::Invalid(error)),
        Ok(raw) => request_head_of(raw),
    }
}

/// Parses the head of a request: start line and headers, and from the
/// headers how the body is delimited.
pub fn parse_request_head(buf: &Vec<u8>) -> (head: Result<RequestHead, ParseError>)
    ensures
        match head {
            Ok(head) => request_head_in(buf@) == Ok::<RequestHeadView, ParseError>(head@),
            Err(error) => request_head_in(buf@) == Err::<RequestHeadView, ParseError>(error),
        },
        head matches Ok(head) ==> header_fields(head.headers).len() <= HEADER_SLOTS,
{
    let raw = match scan_request(buf.as_slice()) {
        Ok(raw) => raw,
        Err(error) => {
            return Err(ParseError::Invalid(error));
        },
    };
    let RawRequest { method, path, version, slots } = raw;
    let method = match method {
        Some(method) => method,
        None => {
            return Err(ParseError::IncompleteRequest);
        },
    };
    let path = match path {
        Some(path) => path,
        None => {
            return Err(ParseError::IncompleteRequest);
        },
    };
    let version = match version {
        Some(0) => Version::Http10,
        Some(1) => Version::Http11,
        Some(version) => {
            return Err(ParseError::UnsupportedHttpVersion(version));
        },
        None => {
            return Err(ParseError::IncompleteRequest);
        },
    };
    let method = match Method::from_bytes(method.as_slice()) {
        Some(method) => method,
        None => {
            return Err(ParseError::IncompleteRequest);
        },
    };
    let uri = Uri::from_bytes(path.as_slice());
    let headers = build_headers(&slots);
    let (uri, headers) = match (uri, headers) {
        (Some(uri), Some(headers)) => (uri, headers),
        _ => {
            return Err(ParseError::Unknown);
        },
    };
    let body = match body_kind_of_request(&headers) {
        Ok(body) => body,
        Err(error) => {
            return Err(error);
        },
    };
    Ok(RequestHead { method, uri, version, headers, body })
}

/// A length as a count of bytes in memory.
pub open spec fn as_count(len: u64) -> usize {
    if len > usize::MAX {
        usize::MAX
    } else {
        len as usize
    }
}

/// The chunks of a decoded body as the items of a body.
pub open spec fn data_chunks(chunks: Seq<Seq<u8>>) -> Seq<Result<ChunkView, BodyError>> {
    chunks.map_values(|chunk: Seq<u8>| Ok::<ChunkView, BodyError>(ChunkView::Data(chunk)))
}

/// The body that is read off `bytes` for a message, and the bytes that the
/// stream is left with. A body in chunks is decoded, with all that the
/// decoder reads gone from the stream. A body shorter than `SMALL_BODY` is
/// read whole, and it is an error where the stream ends before. A longer
/// one, and one that ends with the stream, wraps the stream: it holds what
/// the stream has for it, and nothing is read off the stream.
pub open spec fn incoming_body(kind: BodyKind, bytes: Seq<u8>) -> (
    Result<BodyModel, ParseError>,
    Seq<u8>,
) {
    match kind {
        BodyKind::Chunked => (Ok(BodyModel::Iter(data_chunks(decoded(bytes).0))), decoded(bytes).1),
        BodyKind::Length(len) => if len < SMALL_BODY {
            if len <= bytes.len() {
                (Ok(BodyModel::Buffered(bytes.take(len as int))), bytes.skip(len as int))
            } else {
                (Err(ParseError::Io), Seq::empty())
            }
        } else {
            (
                Ok(
                    BodyModel::Reader(
                        bytes.take(body_span(kind, bytes) as int),
                        Some(as_count(len)),
                    ),
                ),
                bytes,
            )
        },
        BodyKind::Empty => (Ok(BodyModel::Empty), bytes),
        BodyKind::UntilClose => (Ok(BodyModel::Reader(bytes, None)), bytes),
    }
}

/// How many of the bytes that the stream is left with belong to a body that
/// wraps the stream: they are read when the body is read, and passed over
/// when it is dropped.
pub open spec fn body_span(kind: BodyKind, bytes: Seq<u8>) -> nat {
    match kind {
        BodyKind::Length(len) => if len < SMALL_BODY {
            0
        } else if len <= bytes.len() {
            len as nat
        } else {
            bytes.len()
        },
        BodyKind::UntilClose => bytes.len(),
        _ => 0,
    }
}

/// Reads the body of a message off the stream. A body that wraps the
/// stream leaves its bytes on it: see [`pass_body`].
pub fn read_body(stream: &mut Input, kind: BodyKind) -> (body: Result<Body, ParseError>)
    ensures
        match body {
            Ok(body) => incoming_body(kind, old(stream).remaining()).0 == Ok::<
                BodyModel,
                ParseError,
            >(body@),
            Err(error) => incoming_body(kind, old(stream).remaining()).0 == Err::<
                BodyModel,
                ParseError,
            >(error),
        },
        final(stream).remaining() == incoming_body(kind, old(stream).remaining()).1,
        body matches Ok(body) ==> trailer_count(body@.chunks()) == 0,
{
    let ghost start = stream.remaining();
    match kind {
        BodyKind::Chunked => {
            let mut input = Input::new(Vec::new());
            std::mem::swap(stream, &mut input);
            let mut reader = ChunkedReader::new(input);
            let chunks = reader.collect();
            let ChunkedReader { stream: input } = reader;
            *stream = input;
            assert(stream.remaining() == decoded(start).1);
            let body = data_body(chunks);
            assert(body@ == BodyModel::Iter(data_chunks(decoded(start).0)));
            Ok(body)
        },
        BodyKind::Length(len) => {
            if len < SMALL_BODY {
                match stream.read_exact(len as usize) {
                    Some(bytes) => {
                        proof {
                            crate::body::lemma_plain_bodies(BodyModel::Buffered(bytes@));
                            let only = seq![ChunkView::Data(bytes@)];
                            assert(only.skip(1) == Seq::<ChunkView>::empty());
                            assert(trailer_count(only.skip(1)) == 0);
                        }
                        Ok(Body::Buffered(bytes))
                    },
                    None => {
                        assert(stream.remaining() == Seq::<u8>::empty());
                        Err(ParseError::Io)
                    },
                }
            } else {
                let declared: usize = if len > usize::MAX as u64 {
                    usize::MAX
                } else {
                    len as usize
                };
                let held = stream.available();
                let bytes = stream.peek(if declared < held {
                    declared
                } else {
                    held
                });
                assert(start.take(start.len() as int) == start);
                proof {
                    crate::body::lemma_plain_bodies(BodyModel::Reader(bytes@, Some(declared)));
                    crate::body::lemma_no_trailers(crate::body::limited(bytes@, Some(declared)));
                }
                Ok(Body::Reader(Input::new(bytes), Some(declared)))
            }
        },
        BodyKind::Empty => {
            Ok(Body::Empty)
        },
        BodyKind::UntilClose => {
            let bytes = stream.peek(stream.available());
            assert(start.take(start.len() as int) == start);
            proof {
                crate::body::lemma_plain_bodies(BodyModel::Reader(bytes@, None));
                crate::body::lemma_no_trailers(bytes@);
            }
            Ok(Body::Reader(Input::new(bytes), None))
        },
    }
}

/// Passes over the bytes of a body that wraps the stream, once the body has
/// been read or dropped: the stream is left where the next message starts.
pub fn pass_body(stream: &mut Input, kind: BodyKind)
    ensures
        final(stream).remaining() == old(stream).remaining().skip(
            body_span(kind, old(stream).remaining()) as int,
        ),
{
    let ghost start = stream.remaining();
    let held = stream.available();
    assert(start.skip(0) == start);
    match kind {
        BodyKind::Length(len) => {
            if len >= SMALL_BODY {
                let count: usize = if len > held as u64 {
                    held
                } else {
                    len as usize
                };
                let _ = stream.read(count);
            }
        },
        BodyKind::UntilClose => {
            let _ = stream.read(held);
        },
        _ => {},
    }
}

/// A body that yields `chunks` as its data chunks.
fn data_body(chunks: Vec<Vec<u8>>) -> (body: Body)
    ensures
        body@ == BodyModel::Iter(data_chunks(chunks@.map_values(|chunk: Vec<u8>| chunk@))),
        trailer_count(body@.chunks()) == 0,
{
    let ghost old_chunks = chunks@.map_values(|chunk: Vec<u8>| chunk@);
    let ghost wanted = data_chunks(old_chunks);
    let mut chunks = chunks;
    let mut items: Vec<Result<Chunk, BodyError>> = Vec::new();
    while chunks.len() > 0
        invariant
            wanted == data_chunks(old_chunks),
            crate::body::items_view(items@) + data_chunks(
                chunks@.map_values(|chunk: Vec<u8>| chunk@),
            ) == wanted,
        decreases chunks.len(),
    {
        let ghost before = chunks@.map_values(|chunk: Vec<u8>| chunk@);
        let ghost done = crate::body::items_view(items@);
        let chunk = chunks.remove(0);
        items.push(Ok(Chunk::Data(chunk)));
        assert(crate::body::items_view(items@) == done.push(Ok(ChunkView::Data(chunk@))));
        assert(data_chunks(before) == seq![Ok::<ChunkView, BodyError>(ChunkView::Data(chunk@))]
            + data_chunks(chunks@.map_values(|chunk: Vec<u8>| chunk@)));
    }
    assert(crate::body::items_view(items@) == wanted);
    proof {
        lemma_data_chunks(old_chunks);
    }
    Body::Iter(items)
}

/// What a request holds.
pub struct RequestView {
    /// The token of the method.
    pub method: Seq<u8>,
    /// The text of the target.
    pub uri: Seq<u8>,
    /// The authority of the target, where it has one: text, host and port.
    pub authority: Option<(Seq<u8>, Seq<u8>, Option<u16>)>,
    /// The version of the protocol.
    pub version: Version,
    /// The header fields.
    pub fields: Seq<(Seq<u8>, Seq<u8>)>,
    /// The body.
    pub body: BodyModel,
}

impl View for Request<Body> {
    type V = RequestView;

    open spec fn view(&self) -> RequestView {
        RequestView {
            method: self.method@,
            uri: self.uri@,
            authority: self.uri.authority(),
            version: self.version,
            fields: header_fields(self.headers),
            body: self.body@,
        }
    }
}

/// The request that `bytes` start with, or why there is none: nothing to
/// read is a closed connection; then the head decides, and then the body.
pub open spec fn request_in(bytes: Seq<u8>) -> Result<RequestView, ParseError> {
    let head = head_block(Seq::empty(), bytes);
    let rest = bytes.skip(head.len() as int);
    if head.len() == 0 {
        Err(ParseError::ConnectionClosed)
    } else {
        match request_head_in(head) {
            Err(error) => Err(error),
            Ok(head) => match incoming_body(head.body, rest).0 {
                Err(error) => Err(error),
                Ok(body) => Ok(
                    RequestView {
                        method: head.method,
                        uri: head.uri,
                        authority: head.authority,
                        version: head.version,
                        fields: head.fields,
                        body,
                    },
                ),
            },
        }
    }
}

/// The bytes that the stream is left with once the request that `bytes`
/// start with is parsed: those after its head and, where its body is read
/// with it, after its body. Where the head does not parse, those after the
/// head.
pub open spec fn after_request(bytes: Seq<u8>) -> Seq<u8> {
    let head = head_block(Seq::empty(), bytes);
    let rest = bytes.skip(head.len() as int);
    if head.len() == 0 {
        rest
    } else {
        match request_head_in(head) {
            Err(_) => rest,
            Ok(head) => incoming_body(head.body, rest).1,
        }
    }
}

/// The bytes that follow the request that `bytes` start with, body and all:
/// where the next request starts. Where the head does not parse, those
/// after the head.
pub open spec fn past_request(bytes: Seq<u8>) -> Seq<u8> {
    let head = head_block(Seq::empty(), bytes);
    let rest = bytes.skip(head.len() as int);
    if head.len() == 0 {
        rest
    } else {
        match request_head_in(head) {
            Err(_) => rest,
            Ok(head) => incoming_body(head.body, rest).1.skip(
                body_span(head.body, incoming_body(head.body, rest).1) as int,
            ),
        }
    }
}

/// Parses one request off the stream. A body of `SMALL_BODY` bytes or
/// more wraps the stream, and nothing after the head is read; else the
/// stream is left at the first byte after the request.
pub fn parse_request(stream: &mut Input) -> (request: Result<Request<Body>, ParseError>)
    ensures
        match request {
            Ok(request) => request_in(old(stream).remaining()) == Ok::<RequestView, ParseError>(
                request@,
            ),
            Err(error) => request_in(old(stream).remaining()) == Err::<RequestView, ParseError>(
                error,
            ),
        },
        final(stream).remaining() == after_request(old(stream).remaining()),
        request matches Ok(request) ==> fits(request.headers) && trailer_count(
            request.body@.chunks(),
        ) == 0,
{
    let buf = read_head(stream);
    if buf.len() == 0 {
        return Err(ParseError::ConnectionClosed);
    }
    let head = match parse_request_head(&buf) {
        Ok(head) => head,
        Err(error) => {
            return Err(error);
        },
    };
    let RequestHead { method, uri, version, headers, body } = head;
    let body = match read_body(stream, body) {
        Ok(body) => body,
        Err(error) => {
            return Err(error);
        },
    };
    Ok(Request { method, uri, version, headers, body })
}

/// How a request with these fields, this version and method and a body of
/// this known length is framed. A request that neither declares a length
/// nor has a body of known length is sent in chunks where it is `HTTP/1.1`
/// and neither `GET` nor `HEAD`, and cannot be sent otherwise.
pub open spec fn request_framing(
    fields: Seq<(Seq<u8>, Seq<u8>)>,
    version: Version,
    method: Seq<u8>,
    known: Option<u64>,
) -> Result<Encoding, WriteError> {
    if says_chunked(fields) && version == Version::Http11 {
        Ok(Encoding::Chunked)
    } else {
        match length_framing(declared_length(fields), known) {
            Some(framing) => framing,
            None => if method != get_token() && method != head_token() && version
                == Version::Http11 {
                Ok(Encoding::Chunked)
            } else {
                Err(WriteError::UnknownBodySize)
            },
        }
    }
}

/// The fields that a request is sent with: those it was given, with the
/// framing header that was missing.
pub open spec fn request_fields(
    fields: Seq<(Seq<u8>, Seq<u8>)>,
    version: Version,
    known: Option<u64>,
) -> Seq<(Seq<u8>, Seq<u8>)> {
    if says_chunked(fields) && version == Version::Http11 {
        fields
    } else if declared_length(fields) is Some {
        fields
    } else if known is Some {
        fields_with_content_length(fields, known->Some_0)
    } else {
        fields_with_chunked_coding(fields)
    }
}

/// Whether a request without `Content-Length` and `Transfer-Encoding` is
/// framed by the length of its body where that is known, and in chunks
/// where it is not and the request is `HTTP/1.1` and neither `GET` nor
/// `HEAD`, and sent with its fields and then the field that tells of the
/// framing; and finds no framing otherwise.
pub open spec fn bare_request_framed(
    fields: Seq<(Seq<u8>, Seq<u8>)>,
    version: Version,
    method: Seq<u8>,
    known: Option<u64>,
) -> bool {
    absent(fields, content_length_name()) && absent(fields, transfer_encoding_name()) ==> {
        let chunks = method != get_token() && method != head_token() && version
            == Version::Http11;
        let encoding = match known {
            Some(len) => Encoding::FixedLength(len),
            None => Encoding::Chunked,
        };
        if known is Some || chunks {
            &&& request_framing(fields, version, method, known) == Ok::<Encoding, WriteError>(
                encoding,
            )
            &&& request_fields(fields, version, known) == fields.push(framing_field(encoding))
        } else {
            request_framing(fields, version, method, known) == Err::<Encoding, WriteError>(
                WriteError::UnknownBodySize,
            )
        }
    }
}

/// Decides how a request is framed and brings its fields in line with the
/// decision. Where no framing is found the fields stay as they were.
pub fn frame_request(
    headers: &mut http::HeaderMap,
    version: Version,
    method: &Method,
    known: Option<u64>,
) -> (framing: Result<Encoding, WriteError>)
    requires
        fits(*old(headers)),
    ensures
        framing == request_framing(header_fields(*old(headers)), version, method@, known),
        framing is Ok ==> header_fields(*final(headers)) == request_fields(
            header_fields(*old(headers)),
            version,
            known,
        ),
        framing is Err ==> header_fields(*final(headers)) == header_fields(*old(headers)),
        framing matches Ok(encoding) ==> tells(header_fields(*final(headers)), encoding),
        bare_request_framed(header_fields(*old(headers)), version, method@, known),
{
    let chunked = has_chunked_coding(headers);
    let declared = content_length_of(headers);
    if chunked && version == Version::Http11 {
        return Ok(Encoding::Chunked);
    }
    match (declared, known) {
        (Some(len), Some(body_len)) => {
            if len != body_len {
                return Err(WriteError::FramingMismatch);
            }
            Ok(Encoding::FixedLength(len))
        },
        (Some(len), None) => Ok(Encoding::FixedLength(len)),
        (None, Some(body_len)) => {
            set_content_length(headers, body_len);
            Ok(Encoding::FixedLength(body_len))
        },
        (None, None) => {
            if !method.is_get() && !method.is_head() && version == Version::Http11 {
                set_chunked_coding(headers);
                Ok(Encoding::Chunked)
            } else {
                Err(WriteError::UnknownBodySize)
            }
        },
    }
}

/// The head of a request on the wire: request line, fields, empty line.
pub open spec fn request_head(
    method: Seq<u8>,
    uri: Seq<u8>,
    version: Version,
    fields: Seq<(Seq<u8>, Seq<u8>)>,
) -> Seq<u8> {
    method + seq![32u8] + uri + seq![32u8] + version_text(version) + crlf() + fields_text(fields)
        + crlf()
}

/// The error that keeps a request from being written at all, if any: no
/// framing, or a version other than `HTTP/1.0` and `HTTP/1.1`.
pub open spec fn request_refused(
    fields: Seq<(Seq<u8>, Seq<u8>)>,
    version: Version,
    method: Seq<u8>,
    known: Option<u64>,
) -> Option<WriteError> {
    match request_framing(fields, version, method, known) {
        Err(error) => Some(error),
        Ok(_) => if version == Version::Http11 || version == Version::Http10 {
            None
        } else {
            Some(WriteError::UnsupportedVersion)
        },
    }
}

/// What `write_request` writes.
pub open spec fn request_wire<B: HttpBody>(req: Request<B>) -> Seq<u8> {
    let fields = header_fields(req.headers);
    let known = req.body.model().len();
    if request_refused(fields, req.version, req.method@, known) is Some {
        Seq::empty()
    } else {
        request_head(req.method@, req.uri@, req.version, request_fields(fields, req.version, known))
            + body_wire(
            request_framing(fields, req.version, req.method@, known)->Ok_0,
            req.body.model(),
        ).0
    }
}

/// The error that `write_request` ends in, if any.
pub open spec fn request_error<B: HttpBody>(req: Request<B>) -> Option<WriteError> {
    let fields = header_fields(req.headers);
    let known = req.body.model().len();
    match request_refused(fields, req.version, req.method@, known) {
        Some(error) => Some(error),
        None => body_wire(
            request_framing(fields, req.version, req.method@, known)->Ok_0,
            req.body.model(),
        ).1,
    }
}

/// Writes a request: the head with the framing header that the request
/// needs, then the body as the framing says. Fails, before anything is
/// written, where no framing is found or the version is not served; and,
/// after the head is written, where the body fails or delivered fewer bytes
/// than the fixed length of the framing.
///
/// The header map must have room for the one field that framing adds, and
/// the trailers of the body must fit into one header map: `http` panics
/// beyond that. [`write_request_checked`] tests both.
pub fn write_request<B: HttpBody>(req: Request<B>, stream: &mut Vec<u8>) -> (written: Result<
    (),
    WriteError,
>)
    requires
        fits(req.headers),
        sendable(req.body.model()),
    ensures
        final(stream)@ == old(stream)@ + request_wire(req),
        bare_request_framed(
            header_fields(req.headers),
            req.version,
            req.method@,
            req.body.model().len(),
        ),
        request_refused(
            header_fields(req.headers),
            req.version,
            req.method@,
            req.body.model().len(),
        ) is None ==> tells(
            request_fields(header_fields(req.headers), req.version, req.body.model().len()),
            request_framing(
                header_fields(req.headers),
                req.version,
                req.method@,
                req.body.model().len(),
            )->Ok_0,
        ),
        match written {
            Ok(()) => request_error(req) is None,
            Err(error) => request_error(req) == Some(error),
        },
{
    let Request { method, uri, version, headers, body } = req;
    let mut headers = headers;
    let known = body.len();
    let encoding = match frame_request(&mut headers, version, &method, known) {
        Ok(encoding) => encoding,
        Err(error) => {
            assert(stream@ + Seq::<u8>::empty() == stream@);
            return Err(error);
        },
    };
    if !(matches!(version, Version::Http11) || matches!(version, Version::Http10)) {
        assert(stream@ + Seq::<u8>::empty() == stream@);
        return Err(WriteError::UnsupportedVersion);
    }
    let ghost start = stream@;
    append(stream, method.as_bytes());
    stream.push(32);
    append(stream, uri.as_bytes());
    stream.push(32);
    append_version(stream, version);
    append_crlf(stream);
    append_fields(stream, &headers);
    append_crlf(stream);
    assert(stream@ == start + request_head(method@, uri@, version, header_fields(headers)));
    let written = send_body(body, encoding, stream);
    assert(stream@ == start + (request_head(method@, uri@, version, header_fields(headers))
        + body_wire(encoding, body.model()).0));
    written
}

/// The head holds no more than the lines that were read before and the
/// bytes that follow.
pub proof fn lemma_head_within(buf: Seq<u8>, rest: Seq<u8>)
    ensures
        head_block(buf, rest).len() <= buf.len() + rest.len(),
    decreases rest.len(),
{
    if rest.len() > 0 {
        lemma_line_len(rest, LF);
        let line = line_of(rest, LF);
        if head_ended(buf + line) || line.len() == 0 {
        } else {
            lemma_head_within(buf + line, rest.skip(line.len() as int));
        }
    }
}

/// The head holds at least the lines that were read before, and more where
/// bytes follow.
pub proof fn lemma_head_grows(buf: Seq<u8>, rest: Seq<u8>)
    ensures
        head_block(buf, rest).len() >= buf.len(),
        rest.len() > 0 ==> head_block(buf, rest).len() > buf.len(),
    decreases rest.len(),
{
    if rest.len() > 0 {
        lemma_line_len(rest, LF);
        let line = line_of(rest, LF);
        if head_ended(buf + line) || line.len() == 0 {
        } else {
            lemma_head_grows(buf + line, rest.skip(line.len() as int));
        }
    }
}

/// Writes a request where its header map and the trailers of its body are
/// within what `http` takes, and gives nothing, with the stream as it was,
/// where they are not.
pub fn write_request_checked<B: HttpBody>(req: Request<B>, stream: &mut Vec<u8>) -> (written:
    Option<Result<(), WriteError>>)
    ensures
        written is Some <==> fits(req.headers) && sendable(req.body.model()),
        written is None ==> final(stream)@ == old(stream)@,
        written matches Some(written) ==> {
            &&& final(stream)@ == old(stream)@ + request_wire(req)
            &&& match written {
                Ok(()) => request_error(req) is None,
                Err(error) => request_error(req) == Some(error),
            }
        },
{
    if !crate::header::has_room(&req.headers, 1) || !req.body.trailers_fit() {
        return None;
    }
    Some(write_request(req, stream))
}

/// A body that is sent with a fixed length is read back as it was sent,
/// and what follows it on the stream is left for the next message.
pub proof fn lemma_fixed_length_round_trip(payload: Seq<u8>, rest: Seq<u8>)
    requires
        payload.len() <= usize::MAX,
    ensures
        incoming_body(BodyKind::Length(payload.len() as u64), payload + rest).0 is Ok,
        incoming_body(BodyKind::Length(payload.len() as u64), payload + rest).0->Ok_0.bytes()
            == Ok::<Seq<u8>, BodyError>(payload),
        incoming_body(BodyKind::Length(payload.len() as u64), payload + rest).1.skip(
            body_span(
                BodyKind::Length(payload.len() as u64),
                incoming_body(BodyKind::Length(payload.len() as u64), payload + rest).1,
            ) as int,
        ) == rest,
{
    let all = payload + rest;
    let kind = BodyKind::Length(payload.len() as u64);
    assert(all.take(payload.len() as int) == payload);
    assert(all.skip(payload.len() as int) == rest);
    assert(payload.take(payload.len() as int) == payload);
    assert(rest.skip(0) == rest);
    crate::body::lemma_plain_bodies(incoming_body(kind, all).0->Ok_0);
}

/// On a stream of pipelined requests, a request whose body is delimited by
/// its length ends where its head and that many bytes end: the next request
/// starts at the byte after it.
pub proof fn lemma_request_boundary(bytes: Seq<u8>, len: u64)
    requires
        head_block(Seq::empty(), bytes).len() > 0,
        request_head_in(head_block(Seq::empty(), bytes)) matches Ok(head) && head.body
            == BodyKind::Length(len),
        head_block(Seq::empty(), bytes).len() + len <= bytes.len(),
    ensures
        past_request(bytes) == bytes.skip(head_block(Seq::empty(), bytes).len() + len),
{
    let head = head_block(Seq::empty(), bytes).len() as int;
    let rest = bytes.skip(head);
    assert(rest.skip(len as int) == bytes.skip(head + len));
    assert(rest.skip(len as int).skip(0) == rest.skip(len as int));
}

/// A body of data chunks alone has no trailer field.
pub proof fn lemma_data_chunks(chunks: Seq<Seq<u8>>)
    ensures
        trailer_count(crate::body::until_error(data_chunks(chunks))) == 0,
    decreases chunks.len(),
{
    let items = data_chunks(chunks);
    if chunks.len() > 0 {
        lemma_data_chunks(chunks.skip(1));
        assert(items.skip(1) == data_chunks(chunks.skip(1)));
        let kept = seq![ChunkView::Data(chunks[0])] + crate::body::until_error(items.skip(1));
        assert(kept.skip(1) == crate::body::until_error(items.skip(1)));
    }
}

} // verus!
