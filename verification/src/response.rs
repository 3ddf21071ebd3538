//! Responses on the wire: how a response is framed, what is written for it,
//! and what becomes of the connection afterwards.

use crate::body::{trailer_count, BodyError, BodyModel, HttpBody};
use crate::bytes::{append, append_crlf, crlf, decimal_digits};
use crate::chunked::{append_chunked, append_fields, field_text, fields_text, sent_chunked};
use crate::header::{
    absent, chunked_coding, chunked_coding_in, chunked_token, close_token, connection_name,
    connection_option, connection_option_in, content_length, content_length_in,
    content_length_name, fields_with_chunked_coding, fields_with_connection_close,
    fields_with_content_length, fields_without_transfer_encoding, fits, header_fields,
    remove_transfer_encoding, set_chunked_coding, set_connection_close, set_content_length,
    transfer_encoding_name, Lookup, MAX_FIELDS,
};
use crate::body::Body;
use crate::input::Input;
use crate::message::{
    append_version, status_text, version_of_minor, version_text, Response, StatusCode, Version,
};
use crate::request::{
    build_headers, head_block, incoming_body, parsed_fields, read_body, read_head, BodyKind,
    Malformed, ParseError, HEADER_SLOTS,
};
use httparse::Error;
use vstd::prelude::*;

verus! {

/// How the body of a message is delimited on the wire.
#[derive(Debug, Clone, Copy, PartialEq, Eq, Structural)]
pub enum Encoding {
    /// Exactly so many bytes follow the head.
    FixedLength(u64),
    /// The body is sent in chunks.
    Chunked,
    /// The body ends where the connection is closed.
    CloseDelimited,
}

/// What becomes of the connection once a response is written.
pub enum Outcome<U> {
    /// The connection is to be closed.
    Close,
    /// The connection serves the next request.
    KeepAlive,
    /// The connection leaves HTTP and is handed to this handler.
    Upgrade(U),
}

/// Why a message could not be written.
#[derive(Debug, Clone, Copy, PartialEq, Eq, Structural)]
pub enum WriteError {
    /// The declared `Content-Length` differs from the length of the body.
    FramingMismatch,
    /// Neither a length nor the chunked coding can delimit the body.
    UnknownBodySize,
    /// The version is neither `HTTP/1.0` nor `HTTP/1.1`.
    UnsupportedVersion,
    /// The body failed while it was read.
    Body(BodyError),
}

/// Below this length a body of fixed length is collected before it is
/// written, and a body that is read is buffered whole.
pub const SMALL_BODY: u64 = 1024;

/// Whether the fields say that the message is sent in chunks.
pub open spec fn says_chunked(fields: Seq<(Seq<u8>, Seq<u8>)>) -> bool {
    chunked_coding_in(fields) == Lookup::Found(true)
}

/// Whether the fields say that the connection is to be closed.
pub open spec fn says_close(fields: Seq<(Seq<u8>, Seq<u8>)>) -> bool {
    connection_option_in(fields, "close"@) == Some(true)
}

/// Whether the fields ask to keep the connection.
pub open spec fn says_keep_alive(fields: Seq<(Seq<u8>, Seq<u8>)>) -> bool {
    connection_option_in(fields, "keep-alive"@) == Some(true)
}

/// The length that the fields declare, where they declare one that decodes.
pub open spec fn declared_length(fields: Seq<(Seq<u8>, Seq<u8>)>) -> Option<u64> {
    match content_length_in(fields) {
        Lookup::Found(len) => Some(len),
        _ => None,
    }
}

/// Whether the fields say that the message is sent in chunks.
pub fn has_chunked_coding(headers: &http::HeaderMap) -> (chunked: bool)
    ensures
        chunked == says_chunked(header_fields(*headers)),
        absent(header_fields(*headers), transfer_encoding_name()) ==> chunked_coding_in(
            header_fields(*headers),
        ) is Absent,
{
    match chunked_coding(headers) {
        Lookup::Found(chunked) => chunked,
        _ => false,
    }
}

/// Whether the fields say that the connection is to be closed.
pub fn has_connection_close(headers: &http::HeaderMap) -> (close: bool)
    ensures
        close == says_close(header_fields(*headers)),
        absent(header_fields(*headers), connection_name()) ==> connection_option_in(
            header_fields(*headers),
            "close"@,
        ) is None,
{
    match connection_option(headers, "close") {
        Some(close) => close,
        None => false,
    }
}

/// Whether the fields ask to keep the connection.
pub fn has_keep_alive(headers: &http::HeaderMap) -> (keep: bool)
    ensures
        keep == says_keep_alive(header_fields(*headers)),
{
    match connection_option(headers, "keep-alive") {
        Some(keep) => keep,
        None => false,
    }
}

/// The length that the fields declare, where they declare one that decodes.
pub fn content_length_of(headers: &http::HeaderMap) -> (len: Option<u64>)
    ensures
        len == declared_length(header_fields(*headers)),
        absent(header_fields(*headers), content_length_name()) ==> content_length_in(
            header_fields(*headers),
        ) is Absent,
{
    match content_length(headers) {
        Lookup::Found(len) => Some(len),
        _ => None,
    }
}

/// How a message is framed that declares the length `declared` in its
/// fields and whose body has the length `known`, where one of them is there.
pub open spec fn length_framing(declared: Option<u64>, known: Option<u64>) -> Option<
    Result<Encoding, WriteError>,
> {
    match (declared, known) {
        (Some(len), Some(body_len)) => if len != body_len {
            Some(Err(WriteError::FramingMismatch))
        } else {
            Some(Ok(Encoding::FixedLength(len)))
        },
        (Some(len), None) => Some(Ok(Encoding::FixedLength(len))),
        (None, Some(body_len)) => Some(Ok(Encoding::FixedLength(body_len))),
        (None, None) => None,
    }
}

/// How a response with these fields, this version and a body of this known
/// length is framed.
pub open spec fn response_framing(
    fields: Seq<(Seq<u8>, Seq<u8>)>,
    version: Version,
    known: Option<u64>,
) -> Result<Encoding, WriteError> {
    if says_chunked(fields) && version == Version::Http11 {
        Ok(Encoding::Chunked)
    } else {
        match length_framing(declared_length(fields), known) {
            Some(framing) => framing,
            None => if !says_close(fields) && version == Version::Http11 {
                Ok(Encoding::Chunked)
            } else {
                Ok(Encoding::CloseDelimited)
            },
        }
    }
}

/// The fields that a response is sent with: those it was given, with the
/// framing header that was missing, and for `HTTP/1.0` without the chunked
/// coding.
pub open spec fn response_fields(
    fields: Seq<(Seq<u8>, Seq<u8>)>,
    version: Version,
    known: Option<u64>,
) -> Seq<(Seq<u8>, Seq<u8>)> {
    let framed = if says_chunked(fields) && version == Version::Http11 {
        fields
    } else if declared_length(fields) is Some {
        fields
    } else if known is Some {
        fields_with_content_length(fields, known->Some_0)
    } else if !says_close(fields) && version == Version::Http11 {
        fields_with_chunked_coding(fields)
    } else if !says_close(fields) {
        fields_with_connection_close(fields)
    } else {
        fields
    };
    if version == Version::Http10 && says_chunked(fields) {
        fields_without_transfer_encoding(framed)
    } else {
        framed
    }
}

/// Whether the fields hold no framing header: no `Content-Length`, no
/// `Transfer-Encoding` and no `Connection`.
pub open spec fn bare(fields: Seq<(Seq<u8>, Seq<u8>)>) -> bool {
    &&& absent(fields, content_length_name())
    &&& absent(fields, transfer_encoding_name())
    &&& absent(fields, connection_name())
}

/// A message without fields holds no framing header.
pub proof fn lemma_no_fields_are_bare()
    ensures
        bare(Seq::empty()),
{
    let none = Seq::<(Seq<u8>, Seq<u8>)>::empty();
    assert(none.filter(|field: (Seq<u8>, Seq<u8>)| field.0 == content_length_name()) == none) by {
        reveal(Seq::filter);
    }
    assert(none.filter(|field: (Seq<u8>, Seq<u8>)| field.0 == transfer_encoding_name()) == none)
        by {
        reveal(Seq::filter);
    }
    assert(none.filter(|field: (Seq<u8>, Seq<u8>)| field.0 == connection_name()) == none) by {
        reveal(Seq::filter);
    }
}

/// How a response without framing headers is framed: by the length of its
/// body where that is known, else in chunks for `HTTP/1.1`, and by the end
/// of the connection for other versions.
pub open spec fn bare_framing(version: Version, known: Option<u64>) -> Encoding {
    match known {
        Some(len) => Encoding::FixedLength(len),
        None => if version == Version::Http11 {
            Encoding::Chunked
        } else {
            Encoding::CloseDelimited
        },
    }
}

/// The header field that tells of a framing: `content-length` with the
/// length in decimal, `transfer-encoding: chunked`, or `connection: close`.
pub open spec fn framing_field(encoding: Encoding) -> (Seq<u8>, Seq<u8>) {
    match encoding {
        Encoding::FixedLength(len) => (content_length_name(), decimal_digits(len as nat)),
        Encoding::Chunked => (transfer_encoding_name(), chunked_token()),
        Encoding::CloseDelimited => (connection_name(), close_token()),
    }
}

/// Whether a response without framing headers is framed by `bare_framing`
/// and sent with its fields and then the field that tells of the framing.
pub open spec fn bare_response_framed(
    fields: Seq<(Seq<u8>, Seq<u8>)>,
    version: Version,
    known: Option<u64>,
) -> bool {
    bare(fields) ==> {
        &&& response_framing(fields, version, known) == Ok::<Encoding, WriteError>(
            bare_framing(version, known),
        )
        &&& response_fields(fields, version, known) == fields.push(
            framing_field(bare_framing(version, known)),
        )
    }
}

/// Whether fields tell a receiver of the framing that the sender uses: a
/// fixed length is the length that they declare, chunks are announced by
/// the chunked coding, and a body that ends with the connection by
/// `Connection: close`.
pub open spec fn tells(fields: Seq<(Seq<u8>, Seq<u8>)>, encoding: Encoding) -> bool {
    match encoding {
        Encoding::FixedLength(len) => declared_length(fields) == Some(len),
        Encoding::Chunked => says_chunked(fields),
        Encoding::CloseDelimited => says_close(fields),
    }
}

/// Decides how a response is framed and brings its fields in line with the
/// decision. Where the declared length and the length of the body differ,
/// the fields stay as they were.
pub fn frame_response(
    headers: &mut http::HeaderMap,
    version: Version,
    known: Option<u64>,
) -> (framing: Result<Encoding, WriteError>)
    requires
        fits(*old(headers)),
    ensures
        framing == response_framing(header_fields(*old(headers)), version, known),
        framing is Ok ==> header_fields(*final(headers)) == response_fields(
            header_fields(*old(headers)),
            version,
            known,
        ),
        framing is Err ==> header_fields(*final(headers)) == header_fields(*old(headers)),
        header_fields(*final(headers)).len() <= header_fields(*old(headers)).len() + 1,
        framing matches Ok(encoding) ==> tells(header_fields(*final(headers)), encoding),
        bare_response_framed(header_fields(*old(headers)), version, known),
{
    let chunked = has_chunked_coding(headers);
    let close = has_connection_close(headers);
    let declared = content_length_of(headers);
    let encoding = if chunked && version == Version::Http11 {
        Encoding::Chunked
    } else {
        match (declared, known) {
            (Some(len), Some(body_len)) => {
                if len != body_len {
                    return Err(WriteError::FramingMismatch);
                }
                Encoding::FixedLength(len)
            },
            (Some(len), None) => Encoding::FixedLength(len),
            (None, Some(body_len)) => {
                set_content_length(headers, body_len);
                Encoding::FixedLength(body_len)
            },
            (None, None) => {
                if !close && version == Version::Http11 {
                    set_chunked_coding(headers);
                    Encoding::Chunked
                } else {
                    if !close {
                        set_connection_close(headers);
                    }
                    Encoding::CloseDelimited
                }
            },
        }
    };
    if version == Version::Http10 && chunked {
        remove_transfer_encoding(headers);
    }
    Ok(encoding)
}

/// The head of a response on the wire: status line, fields, empty line.
pub open spec fn response_head(version: Version, code: u16, fields: Seq<(Seq<u8>, Seq<u8>)>) -> Seq<
    u8,
> {
    version_text(version) + seq![32u8] + status_text(code) + crlf() + fields_text(fields)
        + crlf()
}

/// The error in which reading a body ends, as the error of writing it.
pub open spec fn failed(body: BodyModel) -> Option<WriteError> {
    match body.failure() {
        Some(error) => Some(WriteError::Body(error)),
        None => None,
    }
}

/// What is written for a body under a framing, and the error that the
/// writing ends in, if any. A body that fails is written up to its error,
/// but that a body shorter than `SMALL_BODY` is collected first, and not
/// written where it fails. A body that delivers fewer bytes than the fixed
/// length is written as far as it goes, and is an error.
pub open spec fn body_wire(encoding: Encoding, body: BodyModel) -> (Seq<u8>, Option<WriteError>) {
    match encoding {
        Encoding::FixedLength(len) => if body.failure() is Some {
            (
                if len < SMALL_BODY {
                    Seq::empty()
                } else {
                    body.stream()
                },
                failed(body),
            )
        } else {
            (body.stream(), short_of(body.stream(), len))
        },
        Encoding::CloseDelimited => (body.stream(), failed(body)),
        Encoding::Chunked => (sent_chunked(body.items()), failed(body)),
    }
}

/// The error of a body that delivered `bytes` where `len` were declared.
pub open spec fn short_of(bytes: Seq<u8>, len: u64) -> Option<WriteError> {
    if bytes.len() < len {
        Some(WriteError::FramingMismatch)
    } else {
        None
    }
}

/// Whether the trailer blocks of a body hold few enough fields between them
/// to be merged into one header map.
pub open spec fn sendable(body: BodyModel) -> bool {
    trailer_count(body.chunks()) <= MAX_FIELDS
}

/// Writes a body as its framing asks.
pub fn send_body<B: HttpBody>(body: B, encoding: Encoding, stream: &mut Vec<u8>) -> (written:
    Result<(), WriteError>)
    requires
        sendable(body.model()),
    ensures
        final(stream)@ == old(stream)@ + body_wire(encoding, body.model()).0,
        match written {
            Ok(()) => body_wire(encoding, body.model()).1 is None,
            Err(error) => body_wire(encoding, body.model()).1 == Some(error),
        },
{
    match encoding {
        Encoding::FixedLength(len) => {
            let ghost start = stream@;
            let before: usize = stream.len();
            if len < SMALL_BODY {
                match body.into_bytes() {
                    Ok(bytes) => {
                        append(stream, &bytes);
                    },
                    Err(error) => {
                        assert(stream@ + Seq::<u8>::empty() == stream@);
                        return Err(WriteError::Body(error));
                    },
                }
            } else {
                let mut reader = body.into_reader();
                match reader.read_to_end(stream) {
                    Ok(()) => {},
                    Err(error) => {
                        return Err(WriteError::Body(error));
                    },
                }
            }
            if ((stream.len() - before) as u64) < len {
                Err(WriteError::FramingMismatch)
            } else {
                Ok(())
            }
        },
        Encoding::CloseDelimited => {
            let mut reader = body.into_reader();
            match reader.read_to_end(stream) {
                Ok(()) => Ok(()),
                Err(error) => Err(WriteError::Body(error)),
            }
        },
        Encoding::Chunked => {
            match append_chunked(stream, body.into_chunks()) {
                Ok(()) => Ok(()),
                Err(error) => Err(WriteError::Body(error)),
            }
        },
    }
}

/// What becomes of the connection after a response: it is handed over where
/// a handler is attached, closed where the body ends with the connection or
/// the fields say so, and kept otherwise.
pub open spec fn outcome_of<U>(
    upgrade: Option<U>,
    encoding: Encoding,
    fields: Seq<(Seq<u8>, Seq<u8>)>,
) -> Outcome<U> {
    match upgrade {
        Some(handler) => Outcome::Upgrade(handler),
        None => if encoding == Encoding::CloseDelimited || says_close(fields) {
            Outcome::Close
        } else {
            Outcome::KeepAlive
        },
    }
}

/// The framing under which a response is written, or the error that keeps
/// it from being written at all: a declared length that is not the known
/// length of the body.
pub open spec fn response_refused(
    fields: Seq<(Seq<u8>, Seq<u8>)>,
    version: Version,
    known: Option<u64>,
) -> Result<Encoding, WriteError> {
    response_framing(fields, version, known)
}

/// What `write_response` writes.
pub open spec fn response_wire(
    fields: Seq<(Seq<u8>, Seq<u8>)>,
    version: Version,
    code: u16,
    body: BodyModel,
    write_body: bool,
) -> Seq<u8> {
    match response_refused(fields, version, body.len()) {
        Err(_) => Seq::empty(),
        Ok(encoding) => {
            let head = response_head(version, code, response_fields(fields, version, body.len()));
            if write_body {
                head + body_wire(encoding, body).0
            } else {
                head
            }
        },
    }
}

/// The error that `write_response` ends in, if any.
pub open spec fn response_error(
    fields: Seq<(Seq<u8>, Seq<u8>)>,
    version: Version,
    body: BodyModel,
    write_body: bool,
) -> Option<WriteError> {
    match response_refused(fields, version, body.len()) {
        Err(error) => Some(error),
        Ok(encoding) => if write_body {
            body_wire(encoding, body).1
        } else {
            None
        },
    }
}

/// Writes a response: the head with the framing headers that the response
/// needs, then, where `write_body` asks for it, the body as the framing
/// says. The fields that are written tell of the framing, whether or not
/// the body is written. Fails, before anything is written, where the
/// declared length is not the known length of the body; and, after the head
/// is written, where the body fails or delivered fewer bytes than the fixed
/// length of the framing.
///
/// The header map must have room for the one field that framing adds, and
/// the trailers of the body must fit into one header map: `http` panics
/// beyond that. [`write_response_checked`] tests both.
pub fn write_response<B: HttpBody, U>(
    res: Response<B, U>,
    stream: &mut Vec<u8>,
    write_body: bool,
) -> (outcome: Result<Outcome<U>, WriteError>)
    requires
        fits(res.headers),
        sendable(res.body.model()),
    ensures
        final(stream)@ == old(stream)@ + response_wire(
            header_fields(res.headers),
            res.version,
            res.status.code(),
            res.body.model(),
            write_body,
        ),
        bare_response_framed(header_fields(res.headers), res.version, res.body.model().len()),
        response_refused(header_fields(res.headers), res.version, res.body.model().len())
            matches Ok(encoding) ==> tells(
            response_fields(header_fields(res.headers), res.version, res.body.model().len()),
            encoding,
        ),
        match outcome {
            Err(error) => response_error(
                header_fields(res.headers),
                res.version,
                res.body.model(),
                write_body,
            ) == Some(error),
            Ok(outcome) => {
                &&& response_error(
                    header_fields(res.headers),
                    res.version,
                    res.body.model(),
                    write_body,
                ) is None
                &&& outcome == outcome_of(
                    res.upgrade,
                    response_refused(
                        header_fields(res.headers),
                        res.version,
                        res.body.model().len(),
                    )->Ok_0,
                    response_fields(
                        header_fields(res.headers),
                        res.version,
                        res.body.model().len(),
                    ),
                )
            },
        },
{
    let Response { status, version, headers, upgrade, body } = res;
    let mut headers = headers;
    let known = body.len();
    let encoding = match frame_response(&mut headers, version, known) {
        Ok(encoding) => encoding,
        Err(error) => {
            assert(stream@ + Seq::<u8>::empty() == stream@);
            return Err(error);
        },
    };
    let ghost start = stream@;
    append_version(stream, version);
    stream.push(32);
    status.append_to(stream);
    append_crlf(stream);
    append_fields(stream, &headers);
    append_crlf(stream);
    assert(stream@ == start + response_head(version, status.code(), header_fields(headers)));
    if write_body {
        let written = send_body(body, encoding, stream);
        assert(stream@ == start + (response_head(version, status.code(), header_fields(headers))
            + body_wire(encoding, body.model()).0));
        match written {
            Ok(()) => {},
            Err(error) => {
                return Err(error);
            },
        }
    }
    let close = has_connection_close(&headers);
    let outcome = match upgrade {
        Some(handler) => Outcome::Upgrade(handler),
        None => if matches!(encoding, Encoding::CloseDelimited) || close {
            Outcome::Close
        } else {
            Outcome::KeepAlive
        },
    };
    Ok(outcome)
}

/// Writes a response where its header map and the trailers of its body are
/// within what `http` takes, and gives nothing, with the stream as it was,
/// where they are not.
pub fn write_response_checked<B: HttpBody, U>(
    res: Response<B, U>,
    stream: &mut Vec<u8>,
    write_body: bool,
) -> (outcome: Option<Result<Outcome<U>, WriteError>>)
    ensures
        outcome is Some <==> fits(res.headers) && sendable(res.body.model()),
        outcome is None ==> final(stream)@ == old(stream)@,
        outcome matches Some(outcome) ==> {
            &&& final(stream)@ == old(stream)@ + response_wire(
                header_fields(res.headers),
                res.version,
                res.status.code(),
                res.body.model(),
                write_body,
            )
            &&& match outcome {
                Err(error) => response_error(
                    header_fields(res.headers),
                    res.version,
                    res.body.model(),
                    write_body,
                ) == Some(error),
                Ok(outcome) => {
                    &&& response_error(
                        header_fields(res.headers),
                        res.version,
                        res.body.model(),
                        write_body,
                    ) is None
                    &&& outcome == outcome_of(
                        res.upgrade,
                        response_refused(
                            header_fields(res.headers),
                            res.version,
                            res.body.model().len(),
                        )->Ok_0,
                        response_fields(
                            header_fields(res.headers),
                            res.version,
                            res.body.model().len(),
                        ),
                    )
                },
            }
        },
{
    if !crate::header::has_room(&res.headers, 1) || !res.body.trailers_fit() {
        return None;
    }
    Some(write_response(res, stream, write_body))
}

/// Whether `bytes` end with the line end of a line and an empty line.
pub open spec fn ends_with_empty_line(bytes: Seq<u8>) -> bool {
    bytes.len() >= 4 && bytes.skip(bytes.len() - 4) == crlf() + crlf()
}

/// The head of a response ends with its empty line, whatever its fields.
pub proof fn lemma_head_ends(version: Version, code: u16, fields: Seq<(Seq<u8>, Seq<u8>)>)
    ensures
        ends_with_empty_line(response_head(version, code, fields)),
{
    let line = version_text(version) + seq![32u8] + status_text(code);
    let head = response_head(version, code, fields);
    let end = crlf() + crlf();
    if fields.len() == 0 {
        assert(fields_text(fields) == Seq::<u8>::empty());
        assert(head == line + end);
        assert(head.skip(head.len() - 4) == end);
    } else {
        let last = fields.last();
        let before = line + crlf() + fields_text(fields.drop_last()) + last.0 + seq![58u8, 32u8]
            + last.1;
        assert(fields_text(fields) == fields_text(fields.drop_last()) + field_text(last));
        assert(head == before + end);
        assert(head.skip(head.len() - 4) == end);
    }
}

/// A response for a `HEAD` request is the head of the response that the
/// body would have been sent with, and nothing after its empty line.
pub proof fn lemma_head_only(
    fields: Seq<(Seq<u8>, Seq<u8>)>,
    version: Version,
    code: u16,
    body: BodyModel,
)
    requires
        response_refused(fields, version, body.len()) is Ok,
    ensures
        response_wire(fields, version, code, body, false) == response_head(
            version,
            code,
            response_fields(fields, version, body.len()),
        ),
        response_wire(fields, version, code, body, true) == response_wire(
            fields,
            version,
            code,
            body,
            false,
        ) + body_wire(response_refused(fields, version, body.len())->Ok_0, body).0,
        response_error(fields, version, body, false) is None,
        ends_with_empty_line(response_wire(fields, version, code, body, false)),
{
    lemma_head_ends(version, code, response_fields(fields, version, body.len()));
}

/// A response that declares a length which its body cannot supply fails to
/// be written: where the framing is a fixed length and the body delivers
/// fewer bytes, writing the response with its body ends in an error.
pub proof fn lemma_short_body_fails(
    fields: Seq<(Seq<u8>, Seq<u8>)>,
    version: Version,
    body: BodyModel,
    len: u64,
)
    requires
        response_refused(fields, version, body.len()) == Ok::<Encoding, WriteError>(
            Encoding::FixedLength(len),
        ),
        body.stream().len() < len,
    ensures
        response_error(fields, version, body, true) is Some,
{
    if body.bytes() is Ok {
        crate::body::lemma_views_agree(body);
    }
}

/// What the parser has filled in of a response.
pub struct RawResponse {
    /// The minor version, once it was read.
    pub version: Option<u8>,
    /// The status code, once it was read.
    pub code: Option<u16>,
    /// The header slots: the headers that were read, then empty slots.
    pub slots: Vec<(Vec<u8>, Vec<u8>)>,
}

/// What a [`RawResponse`] holds.
pub struct RawResponseView {
    /// The minor version, once it was read.
    pub version: Option<u8>,
    /// The status code, once it was read.
    pub code: Option<u16>,
    /// The header slots.
    pub slots: Seq<(Seq<u8>, Seq<u8>)>,
}

impl View for RawResponse {
    type V = RawResponseView;

    open spec fn view(&self) -> RawResponseView {
        RawResponseView {
            version: self.version,
            code: self.code,
            slots: crate::header::pairs_view(self.slots@),
        }
    }
}

/// What `httparse::Response::parse` makes of these bytes with 64 header
/// slots: what it has filled in, or the error that it reports.
pub uninterp spec fn response_scan(buf: Seq<u8>) -> Result<RawResponseView, Malformed>;

/// Calls `httparse::Response::parse` with 64 empty header slots and copies
/// what it has filled in, whether or not the head was complete; an error is
/// given by the name of its variant. Claimed: what is filled in, and the
/// error, go by the bytes alone; there are 64 slots.
#[verifier::external_body]
fn scan_response(buf: &[u8]) -> (scan: Result<RawResponse, Malformed>)
    ensures
        match scan {
            Ok(raw) => response_scan(buf@) == Ok::<RawResponseView, Malformed>(raw@)
                && raw.slots@.len() == HEADER_SLOTS,
            Err(error) => response_scan(buf@) == Err::<RawResponseView, Malformed>(error),
        },
{
    let mut slots = [httparse::EMPTY_HEADER; 64];
    let mut response = httparse::Response::new(&mut slots);
    response.parse(buf).map_err(|error| match error {
        Error::HeaderName => Malformed::HeaderName,
        Error::HeaderValue => Malformed::HeaderValue,
        Error::NewLine => Malformed::NewLine,
        Error::Status => Malformed::Status,
        Error::Token => Malformed::Token,
        Error::TooManyHeaders => Malformed::TooManyHeaders,
        Error::Version => Malformed::Version,
    })?;
    let (version, code) = (response.version, response.code);
    let slots = slots.iter().map(|slot| (slot.name.as_bytes().to_vec(), slot.value.to_vec()));
    Ok(RawResponse { version, code, slots: slots.collect() })
}

/// How the body of a response with these fields is delimited: as that of a
/// request, but that without framing headers it ends with the stream where
/// the fields say that the connection is to be closed.
pub open spec fn response_body_kind(fields: Seq<(Seq<u8>, Seq<u8>)>) -> Result<
    BodyKind,
    ParseError,
> {
    match chunked_coding_in(fields) {
        Lookup::Invalid => Err(ParseError::InvalidHeader),
        Lookup::Found(chunked) => if chunked {
            Ok(BodyKind::Chunked)
        } else {
            Err(ParseError::InvalidTransferEncoding)
        },
        Lookup::Absent => match content_length_in(fields) {
            Lookup::Invalid => Err(ParseError::InvalidHeader),
            Lookup::Found(len) => Ok(BodyKind::Length(len)),
            Lookup::Absent => if says_close(fields) {
                Ok(BodyKind::UntilClose)
            } else {
                Ok(BodyKind::Empty)
            },
        },
    }
}

/// Says how the body of a response with these headers is delimited.
pub fn body_kind_of_response(headers: &http::HeaderMap) -> (kind: Result<BodyKind, ParseError>)
    ensures
        kind == response_body_kind(header_fields(*headers)),
{
    match chunked_coding(headers) {
        Lookup::Invalid => Err(ParseError::InvalidHeader),
        Lookup::Found(chunked) => if chunked {
            Ok(BodyKind::Chunked)
        } else {
            Err(ParseError::InvalidTransferEncoding)
        },
        Lookup::Absent => match content_length(headers) {
            Lookup::Invalid => Err(ParseError::InvalidHeader),
            Lookup::Found(len) => Ok(BodyKind::Length(len)),
            Lookup::Absent => if has_connection_close(headers) {
                Ok(BodyKind::UntilClose)
            } else {
                Ok(BodyKind::Empty)
            },
        },
    }
}

/// The head of a response that was parsed.
pub struct ResponseHead {
    /// The status code.
    pub status: StatusCode,
    /// The version of the protocol.
    pub version: Version,
    /// The header fields.
    pub headers: http::HeaderMap,
    /// How the body is delimited.
    pub body: BodyKind,
}

/// What a [`ResponseHead`] holds.
pub struct ResponseHeadView {
    /// The status code.
    pub code: u16,
    /// The version of the protocol.
    pub version: Version,
    /// The header fields.
    pub fields: Seq<(Seq<u8>, Seq<u8>)>,
    /// How the body is delimited.
    pub body: BodyKind,
}

impl View for ResponseHead {
    type V = ResponseHeadView;

    open spec fn view(&self) -> ResponseHeadView {
        ResponseHeadView {
            code: self.status.code(),
            version: self.version,
            fields: header_fields(self.headers),
            body: self.body,
        }
    }
}

/// The head of the response that the parser has filled in, or why there is
/// none: a head without a status from 100 to 999 or without version is
/// incomplete; a version other than 1.0 and 1.1 is not served; a header that
/// `http` refuses is an unknown failure; then the framing headers decide.
pub open spec fn response_head_of(raw: RawResponseView) -> Result<ResponseHeadView, ParseError> {
    if raw.code is None || !(100 <= raw.code->Some_0 < 1000) || raw.version is None {
        Err(ParseError::IncompleteRequest)
    } else if version_of_minor(raw.version->Some_0) is None {
        Err(ParseError::UnsupportedHttpVersion(raw.version->Some_0))
    } else if parsed_fields(raw.slots) is None {
        Err(ParseError::Unknown)
    } else {
        match response_body_kind(parsed_fields(raw.slots)->Some_0) {
            Err(error) => Err(error),
            Ok(body) => Ok(
                ResponseHeadView {
                    code: raw.code->Some_0,
                    version: version_of_minor(raw.version->Some_0)->Some_0,
                    fields: parsed_fields(raw.slots)->Some_0,
                    body,
                },
            ),
        }
    }
}

/// The head of the response that `buf` holds, or why it holds none: what
/// the parser found wrong, or else what its fillings come to.
pub open spec fn response_head_in(buf: Seq<u8>) -> Result<ResponseHeadView, ParseError> {
    match response_scan(buf) {
        Err(error) => Err(ParseError::Invalid(error)),
        Ok(raw) => response_head_of(raw),
    }
}

/// Parses the head of a response: status line and headers, and from the
/// headers how the body is delimited.
pub fn parse_response_head(buf: &Vec<u8>) -> (head: Result<ResponseHead, ParseError>)
    ensures
        match head {
            Ok(head) => response_head_in(buf@) == Ok::<ResponseHeadView, ParseError>(head@),
            Err(error) => response_head_in(buf@) == Err::<ResponseHeadView, ParseError>(error),
        },
        head matches Ok(head) ==> header_fields(head.headers).len() <= HEADER_SLOTS,
{
    let raw = match scan_response(buf.as_slice()) {
        Ok(raw) => raw,
        Err(error) => {
            return Err(ParseError::Invalid(error));
        },
    };
    let RawResponse { version, code, slots } = raw;
    let status = match code {
        Some(code) => match StatusCode::from_u16(code) {
            Some(status) => status,
            None => {
                return Err(ParseError::IncompleteRequest);
            },
        },
        None => {
            return Err(ParseError::IncompleteRequest);
        },
    };
    let version = match version {
        Some(0) => Version::Http10,
        Some(1) => Version::Http11,
        Some(version) => {
            return Err(ParseError::UnsupportedHttpVersion(version));
        },
        None => {
            return Err(ParseError::IncompleteRequest);
        },
    };
    let headers = match build_headers(&slots) {
        Some(headers) => headers,
        None => {
            return Err(ParseError::Unknown);
        },
    };
    let body = match body_kind_of_response(&headers) {
        Ok(body) => body,
        Err(error) => {
            return Err(error);
        },
    };
    Ok(ResponseHead { status, version, headers, body })
}

/// What a response that was received holds.
pub struct ResponseView {
    /// The status code.
    pub code: u16,
    /// The version of the protocol.
    pub version: Version,
    /// The header fields.
    pub fields: Seq<(Seq<u8>, Seq<u8>)>,
    /// The body.
    pub body: BodyModel,
}

/// What a response holds, but for what takes its connection over.
pub open spec fn response_view<U>(response: Response<Body, U>) -> ResponseView {
    ResponseView {
        code: response.status.code(),
        version: response.version,
        fields: header_fields(response.headers),
        body: response.body@,
    }
}

/// The response that `bytes` start with, or why there is none: nothing to
/// read is a closed connection; then the head decides, and then the body.
pub open spec fn response_in(bytes: Seq<u8>) -> Result<ResponseView, ParseError> {
    let head = head_block(Seq::empty(), bytes);
    let rest = bytes.skip(head.len() as int);
    if head.len() == 0 {
        Err(ParseError::ConnectionClosed)
    } else {
        match response_head_in(head) {
            Err(error) => Err(error),
            Ok(head) => match incoming_body(head.body, rest).0 {
                Err(error) => Err(error),
                Ok(body) => Ok(
                    ResponseView {
                        code: head.code,
                        version: head.version,
                        fields: head.fields,
                        body,
                    },
                ),
            },
        }
    }
}

/// The bytes that are left of `bytes` once the response that they start
/// with is parsed: those after its head and its body. Where the head does
/// not parse, those after the head.
pub open spec fn after_response(bytes: Seq<u8>) -> Seq<u8> {
    let head = head_block(Seq::empty(), bytes);
    let rest = bytes.skip(head.len() as int);
    if head.len() == 0 {
        rest
    } else {
        match response_head_in(head) {
            Err(_) => rest,
            Ok(head) => incoming_body(head.body, rest).1,
        }
    }
}

/// Parses one response off the stream. A body of `SMALL_BODY` bytes or
/// more, and one that ends with the stream, wraps the stream, and nothing
/// after the head is read; else the stream is left at the first byte after
/// the response.
pub fn parse_response<U>(stream: &mut Input) -> (response: Result<Response<Body, U>, ParseError>)
    ensures
        match response {
            Ok(response) => response.upgrade is None && response_in(old(stream).remaining())
                == Ok::<ResponseView, ParseError>(response_view(response)),
            Err(error) => response_in(old(stream).remaining()) == Err::<
                ResponseView,
                ParseError,
            >(error),
        },
        final(stream).remaining() == after_response(old(stream).remaining()),
        response matches Ok(response) ==> fits(response.headers) && trailer_count(
            response.body@.chunks(),
        ) == 0,
{
    let buf = read_head(stream);
    if buf.len() == 0 {
        return Err(ParseError::ConnectionClosed);
    }
    let head = match parse_response_head(&buf) {
        Ok(head) => head,
        Err(error) => {
            return Err(error);
        },
    };
    let ResponseHead { status, version, headers, body } = head;
    let body = match read_body(stream, body) {
        Ok(body) => body,
        Err(error) => {
            return Err(error);
        },
    };
    Ok(Response { status, version, headers, upgrade: None, body })
}

} // verus!
