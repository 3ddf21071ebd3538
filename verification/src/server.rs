//! The server side of a connection: its settings, and the rules by which
//! requests are answered one after the other.

use crate::body::{Body, BodyModel, HttpBody};
use crate::bytes::append_crlf;
use crate::chunked::decoded;
use crate::header::{
    date_in, expectation, expectation_in, fields_with_connection_close, fields_with_date,
    has_date, has_room, header_fields, new_headers, room_for, set_connection_close, set_date,
    LAST_SECOND,
};
use crate::input::Input;
use crate::message::{
    append_version, connect_token, head_token, Method, Request, Response, StatusCode, Version,
};
use crate::request::{
    body_span, head_block, incoming_body, parse_request_head, pass_body, read_body, read_head,
    request_head_in, ParseError, RequestHead, RequestHeadView,
};
use crate::response::{
    has_connection_close, has_keep_alive, outcome_of, response_error, response_head,
    response_refused, response_wire, says_close, says_keep_alive, sendable, write_response,
    Outcome, WriteError,
};
use std::time::Duration;
use vstd::prelude::*;

verus! {

/// The settings of a server.
pub struct ServerBuilder {
    max_threads: usize,
    read_timeout: Option<Duration>,
}

/// The number of worker threads of a server that was not told another.
pub const DEFAULT_MAX_THREADS: usize = 512;

impl ServerBuilder {
    /// The most worker threads that the server may create.
    pub closed spec fn threads(self) -> usize {
        self.max_threads
    }

    /// How long a connection may stay silent before it is given up.
    pub closed spec fn timeout(self) -> Option<Duration> {
        self.read_timeout
    }

    /// Defines the most threads this server may create. Defaults to `512`.
    pub fn max_threads(self, max_threads: usize) -> (builder: ServerBuilder)
        ensures
            builder.threads() == max_threads,
            builder.timeout() == self.timeout(),
    {
        ServerBuilder { max_threads, read_timeout: self.read_timeout }
    }

    /// Sets the time limit that connections are kept alive for when no data
    /// is received. Defaults to no time limit at all.
    pub fn read_timeout(self, timeout: Option<Duration>) -> (builder: ServerBuilder)
        ensures
            builder.timeout() == timeout,
            builder.threads() == self.threads(),
    {
        ServerBuilder { max_threads: self.max_threads, read_timeout: timeout }
    }

    /// The most worker threads that the server may create.
    pub fn threads_limit(&self) -> (max_threads: usize)
        ensures
            max_threads == self.threads(),
    {
        self.max_threads
    }

    /// How long a connection may stay silent before it is given up.
    pub fn timeout_limit(&self) -> (timeout: Option<Duration>)
        ensures
            timeout == self.timeout(),
    {
        self.read_timeout
    }
}

impl Default for ServerBuilder {
    fn default() -> (builder: ServerBuilder)
        ensures
            builder.threads() == DEFAULT_MAX_THREADS,
            builder.timeout() is None,
    {
        ServerBuilder { max_threads: DEFAULT_MAX_THREADS, read_timeout: None }
    }
}

/// Maps requests to responses.
pub trait Service {
    /// The body of the responses.
    type Body: HttpBody;

    /// What takes a connection over where a response switches protocols.
    type Upgrade;

    /// Why a request could not be answered.
    type Error;

    /// Answers a request.
    fn call(&mut self, request: Request<Body>) -> Result<
        Response<Self::Body, Self::Upgrade>,
        Self::Error,
    >;

    /// Says, for a request that expects `100-continue`, with which status to
    /// answer the expectation: 100 lets the request go on, any other status
    /// is the answer to the request. Unless a handler says otherwise, the
    /// request goes on.
    fn should_continue(&mut self, request: &Request<Body>) -> (status: StatusCode)
        default_ensures
            status.code() == 100,
    {
        StatusCode::continue_()
    }
}

/// What a request asks of its connection.
#[derive(Debug, Clone, Copy, PartialEq, Eq, Structural)]
pub struct Control {
    /// The request says `Connection: close`.
    pub asks_for_close: bool,
    /// The request says `Connection: keep-alive`.
    pub asks_for_keep_alive: bool,
    /// The connection is to be closed after the response.
    pub demands_close: bool,
    /// The request says `Expect: 100-continue`.
    pub expects_continue: bool,
}

/// What a request of this version and with these fields asks of its
/// connection. `HTTP/0.9` always closes, `HTTP/1.0` closes unless the
/// request asks to keep the connection, and later versions close where the
/// request asks for it.
pub open spec fn control_for(version: Version, fields: Seq<(Seq<u8>, Seq<u8>)>) -> Control {
    Control {
        asks_for_close: says_close(fields),
        asks_for_keep_alive: says_keep_alive(fields),
        demands_close: match version {
            Version::Http09 => true,
            Version::Http10 => !says_keep_alive(fields),
            _ => says_close(fields),
        },
        expects_continue: expectation_in(fields) == Some(true),
    }
}

/// Says what a request asks of its connection.
pub fn control_of(version: Version, headers: &http::HeaderMap) -> (control: Control)
    ensures
        control == control_for(version, header_fields(*headers)),
{
    let asks_for_close = has_connection_close(headers);
    let asks_for_keep_alive = has_keep_alive(headers);
    let demands_close = match version {
        Version::Http09 => true,
        Version::Http10 => !asks_for_keep_alive,
        _ => asks_for_close,
    };
    let expects_continue = match expectation(headers) {
        Some(expects) => expects,
        None => false,
    };
    Control { asks_for_close, asks_for_keep_alive, demands_close, expects_continue }
}

/// Whether the body of a response is written: not for `HEAD`, for `CONNECT`
/// only with a status in the 2xx range, and always otherwise.
pub open spec fn writes_body(method: Seq<u8>, code: u16) -> bool {
    if method == head_token() {
        false
    } else if method == connect_token() {
        200 <= code < 300
    } else {
        true
    }
}

/// Says whether the body of the response to a request is written.
pub fn should_write_body(method: &Method, status: StatusCode) -> (write: bool)
    ensures
        write == writes_body(method@, status.code()),
{
    if method.is_head() {
        false
    } else if method.is_connect() {
        status.is_success()
    } else {
        true
    }
}

/// The fields that a response is answered with: those that the handler
/// gave, with `Connection: close` for an `HTTP/1.0` request that did not ask
/// to keep the connection, and with the date where none was given.
pub open spec fn answer_fields(
    fields: Seq<(Seq<u8>, Seq<u8>)>,
    version: Version,
    asks_for_keep_alive: bool,
    now: u64,
) -> Seq<(Seq<u8>, Seq<u8>)> {
    let closing = if version == Version::Http10 && !asks_for_keep_alive {
        fields_with_connection_close(fields)
    } else {
        fields
    };
    if date_in(closing) {
        closing
    } else {
        fields_with_date(closing, now)
    }
}

/// What is to be done once a response is written.
pub enum Step<U> {
    /// The next request is served.
    Next,
    /// The connection is closed.
    Close,
    /// The connection is handed to this handler.
    Upgrade(U),
}

/// What is to be done after a response with this outcome: a connection that
/// could be kept is closed where the request demanded it.
pub open spec fn step_after<U>(outcome: Outcome<U>, demands_close: bool) -> Step<U> {
    match outcome {
        Outcome::KeepAlive => if demands_close {
            Step::Close
        } else {
            Step::Next
        },
        Outcome::Close => Step::Close,
        Outcome::Upgrade(handler) => Step::Upgrade(handler),
    }
}

/// Says what is to be done after a response with this outcome.
pub fn next_step<U>(outcome: Outcome<U>, demands_close: bool) -> (step: Step<U>)
    ensures
        step == step_after(outcome, demands_close),
{
    match outcome {
        Outcome::KeepAlive => if demands_close {
            Step::Close
        } else {
            Step::Next
        },
        Outcome::Close => Step::Close,
        Outcome::Upgrade(handler) => Step::Upgrade(handler),
    }
}

/// What `respond` writes for a response with these fields, status and body
/// to a request of this version and method.
pub open spec fn answer_wire(
    fields: Seq<(Seq<u8>, Seq<u8>)>,
    code: u16,
    body: BodyModel,
    version: Version,
    method: Seq<u8>,
    asks_for_keep_alive: bool,
    now: u64,
) -> Seq<u8> {
    response_wire(
        answer_fields(fields, version, asks_for_keep_alive, now),
        version,
        code,
        body,
        writes_body(method, code),
    )
}

/// The error that `respond` ends in, if any.
pub open spec fn answer_error(
    fields: Seq<(Seq<u8>, Seq<u8>)>,
    code: u16,
    body: BodyModel,
    version: Version,
    method: Seq<u8>,
    asks_for_keep_alive: bool,
    now: u64,
) -> Option<WriteError> {
    response_error(
        answer_fields(fields, version, asks_for_keep_alive, now),
        version,
        body,
        writes_body(method, code),
    )
}

/// What is to be done once a response is sent in answer to a request, or
/// the error that sending it ends in.
pub open spec fn answer_step<U>(
    upgrade: Option<U>,
    fields: Seq<(Seq<u8>, Seq<u8>)>,
    code: u16,
    body: BodyModel,
    version: Version,
    method: Seq<u8>,
    control: Control,
    now: u64,
) -> Result<Step<U>, WriteError> {
    let sent = answer_fields(fields, version, control.asks_for_keep_alive, now);
    match answer_error(fields, code, body, version, method, control.asks_for_keep_alive, now) {
        Some(error) => Err(error),
        None => Ok(
            step_after(
                outcome_of(
                    upgrade,
                    response_refused(sent, version, body.len())->Ok_0,
                    crate::response::response_fields(sent, version, body.len()),
                ),
                control.demands_close,
            ),
        ),
    }
}

/// Sends the response that a handler gave to a request of this version and
/// method: in the version of the request, with `Connection: close` where an
/// `HTTP/1.0` request did not ask to keep the connection, with the date of
/// `now` seconds after the epoch where the response has none, and without
/// body where the method asks for none. Says what is to be done next.
///
/// The header map must have room for the three fields that answering can
/// add, and the trailers of the body must fit into one header map.
pub fn respond<B: HttpBody, U>(
    res: Response<B, U>,
    version: Version,
    method: &Method,
    control: &Control,
    now: u64,
    out: &mut Vec<u8>,
) -> (step: Result<Step<U>, WriteError>)
    requires
        now <= LAST_SECOND,
        room_for(res.headers, 3),
        sendable(res.body.model()),
    ensures
        final(out)@ == old(out)@ + answer_wire(
            header_fields(res.headers),
            res.status.code(),
            res.body.model(),
            version,
            method@,
            control.asks_for_keep_alive,
            now,
        ),
        step == answer_step(
            res.upgrade,
            header_fields(res.headers),
            res.status.code(),
            res.body.model(),
            version,
            method@,
            *control,
            now,
        ),
{
    let Response { status, version: _, headers, upgrade, body } = res;
    let mut headers = headers;
    if matches!(version, Version::Http10) && !control.asks_for_keep_alive {
        set_connection_close(&mut headers);
    }
    if !has_date(&headers) {
        set_date(&mut headers, now);
    }
    let write_body = should_write_body(method, status);
    let res = Response { status, version, headers, upgrade, body };
    match write_response(res, out, write_body) {
        Ok(outcome) => Ok(next_step(outcome, control.demands_close)),
        Err(error) => Err(error),
    }
}

/// A request of `HTTP/1.0` that does not ask to keep the connection, and
/// any request of `HTTP/0.9`, is the last on its connection: whatever the
/// response, the next request is not served.
pub proof fn lemma_old_versions_close<U>(
    version: Version,
    fields: Seq<(Seq<u8>, Seq<u8>)>,
    outcome: Outcome<U>,
)
    requires
        version == Version::Http09 || (version == Version::Http10 && !says_keep_alive(fields)),
    ensures
        !(step_after(outcome, control_for(version, fields).demands_close) is Next),
{
}

/// A request of `HTTP/1.1` keeps its connection unless it asks to close it:
/// after a response that can keep the connection, the next request is
/// served.
pub proof fn lemma_keep_alive_by_default<U>(fields: Seq<(Seq<u8>, Seq<u8>)>)
    requires
        !says_close(fields),
    ensures
        step_after(
            Outcome::<U>::KeepAlive,
            control_for(Version::Http11, fields).demands_close,
        ) is Next,
{
}

/// Why serving a connection ended in failure.
pub enum ServeError<E> {
    /// A request could not be parsed.
    Parse(ParseError),
    /// The handler failed.
    Service(E),
    /// A response could not be written.
    Write(WriteError),
    /// The response of the handler carries more fields, or its body more
    /// trailer fields, than a header map takes.
    Unfit,
}

/// The head that lets a request go on that expects `100-continue`.
pub open spec fn continue_text() -> Seq<u8> {
    response_head(Version::Http11, 100, Seq::empty())
}

/// Appends the head that lets a request go on that expects `100-continue`.
pub fn append_continue(out: &mut Vec<u8>)
    ensures
        final(out)@ == old(out)@ + continue_text(),
{
    append_version(out, Version::Http11);
    out.push(32);
    StatusCode::continue_().append_to(out);
    append_crlf(out);
    assert(crate::chunked::fields_text(Seq::empty()) == Seq::<u8>::empty());
    append_crlf(out);
    assert(out@ == old(out)@ + continue_text());
}

/// What is written to answer the expectation of a request with `status`:
/// the head `100 Continue` for the status 100, and for any other status the
/// response of that status, without fields of its own and without body.
pub open spec fn expectation_wire(code: u16) -> Seq<u8> {
    if code == 100 {
        continue_text()
    } else {
        response_wire(Seq::empty(), Version::Http11, code, BodyModel::Empty, true)
    }
}

/// The error that answering the expectation of a request with `status`
/// ends in, if any.
pub open spec fn expectation_error(code: u16) -> Option<WriteError> {
    if code == 100 {
        None
    } else {
        response_error(Seq::empty(), Version::Http11, BodyModel::Empty, true)
    }
}

/// Answers a request that expects `100-continue` with the status that the
/// handler chose, and says whether the request goes on: it does with the
/// status 100, and is done with any other.
pub fn answer_expectation(status: StatusCode, out: &mut Vec<u8>) -> (goes_on: Result<
    bool,
    WriteError,
>)
    ensures
        final(out)@ == old(out)@ + expectation_wire(status.code()),
        match goes_on {
            Ok(goes_on) => expectation_error(status.code()) is None && goes_on == (status.code()
                == 100),
            Err(error) => expectation_error(status.code()) == Some(error),
        },
{
    if status.as_u16() == 100 {
        append_continue(out);
        Ok(true)
    } else {
        let refusal: Response<(), ()> = Response {
            status,
            version: Version::Http11,
            headers: new_headers(),
            upgrade: None,
            body: (),
        };
        proof {
            crate::body::lemma_plain_bodies(BodyModel::Empty);
        }
        match write_response(refusal, out, true) {
            Ok(_) => Ok(false),
            Err(error) => Err(error),
        }
    }
}

/// The decoder of chunked bodies leaves no more bytes than it found.
pub proof fn lemma_decoded_rest(bytes: Seq<u8>)
    ensures
        decoded(bytes).1.len() <= bytes.len(),
    decreases bytes.len(),
{
    crate::chunked::lemma_chunk_step(Seq::empty(), bytes);
    match crate::chunked::chunk_step(Seq::empty(), bytes) {
        (None, rest) => {},
        (Some(chunk), rest) => {
            if rest.len() < bytes.len() {
                lemma_decoded_rest(rest);
            }
        },
    }
}

/// What answering a request of this version and method comes to with what
/// the handler gave, with `pre` written: where the handler failed, its
/// failure, with nothing written; where its response has no room for the
/// fields that answering adds, or its body more trailer fields than can be
/// sent, `Unfit`, with nothing written; else the response is sent as
/// [`respond`] sends it, and the step is the one that follows from it.
pub open spec fn concluded<B: HttpBody, U, E>(
    given: Result<Response<B, U>, E>,
    version: Version,
    method: Seq<u8>,
    control: Control,
    now: u64,
    pre: Seq<u8>,
    after: Seq<u8>,
    step: Result<Step<U>, ServeError<E>>,
) -> bool {
    match given {
        Err(error) => {
            &&& after == pre
            &&& step is Err && step->Err_0 is Service && step->Err_0->Service_0 == error
        },
        Ok(res) => if room_for(res.headers, 3) && sendable(res.body.model()) {
            &&& after == pre + answer_wire(
                header_fields(res.headers),
                res.status.code(),
                res.body.model(),
                version,
                method,
                control.asks_for_keep_alive,
                now,
            )
            &&& match answer_step(
                res.upgrade,
                header_fields(res.headers),
                res.status.code(),
                res.body.model(),
                version,
                method,
                control,
                now,
            ) {
                Ok(next) => step is Ok && step->Ok_0 == next,
                Err(error) => step is Err && step->Err_0 is Write && step->Err_0->Write_0
                    == error,
            }
        } else {
            after == pre && step is Err && step->Err_0 is Unfit
        },
    }
}

/// Answers a request of this version and method with what the handler gave:
/// the failure of the handler ends the connection with that failure, a
/// response that cannot be sent ends it with `Unfit`, and any other response
/// is sent, and decides what is done next.
pub fn conclude<B: HttpBody, U, E>(
    given: Result<Response<B, U>, E>,
    version: Version,
    method: &Method,
    control: &Control,
    now: u64,
    out: &mut Vec<u8>,
) -> (step: Result<Step<U>, ServeError<E>>)
    requires
        now <= LAST_SECOND,
    ensures
        concluded(given, version, method@, *control, now, old(out)@, final(out)@, step),
{
    let res = match given {
        Ok(res) => res,
        Err(error) => {
            return Err(ServeError::Service(error));
        },
    };
    if !has_room(&res.headers, 3) || !res.body.trailers_fit() {
        return Err(ServeError::Unfit);
    }
    match respond(res, version, method, control, now, out) {
        Ok(step) => Ok(step),
        Err(error) => Err(ServeError::Write(error)),
    }
}

/// Whether the expectation of a request was refused with the status `code`:
/// the response of that status is written, nothing of the body is read, and
/// the next request is served.
pub open spec fn refused<S: Service>(
    code: u16,
    before: Seq<u8>,
    after: Seq<u8>,
    step: Result<Step<S::Upgrade>, ServeError<S::Error>>,
) -> bool {
    &&& code != 100
    &&& after == before + expectation_wire(code)
    &&& match expectation_error(code) {
        None => step is Ok && step->Ok_0 is Next,
        Some(error) => step is Err && step->Err_0 is Write && step->Err_0->Write_0 == error,
    }
}

/// What serving a request with the head `head` comes to once it goes on,
/// with `tail` on the stream after the head and `pre` written: the body is
/// read, and a failure to read it fails the connection; else the handler
/// is asked, and the request is answered with what it gave, as
/// [`concluded`] says. The stream is left after the body.
pub open spec fn went_on<S: Service>(
    head: RequestHeadView,
    tail: Seq<u8>,
    pre: Seq<u8>,
    after: Seq<u8>,
    rest: Seq<u8>,
    step: Result<Step<S::Upgrade>, ServeError<S::Error>>,
    now: u64,
) -> bool {
    let left = incoming_body(head.body, tail).1;
    match incoming_body(head.body, tail).0 {
        Err(error) => {
            &&& after == pre
            &&& rest == left
            &&& step is Err && step->Err_0 is Parse && step->Err_0->Parse_0 == error
        },
        Ok(_) => {
            &&& rest == left.skip(body_span(head.body, left) as int)
            &&& exists|given: Result<Response<S::Body, S::Upgrade>, S::Error>| #[trigger]
                concluded(
                    given,
                    head.version,
                    head.method,
                    control_for(head.version, head.fields),
                    now,
                    pre,
                    after,
                    step,
                )
        },
    }
}

/// What serving one request comes to, on a stream that holds `bytes`, with
/// `before` written: `after` is written then, the stream holds `rest`, and
/// `step` says what is to be done.
///
/// Without a byte on the stream the connection is closed. A head that does
/// not parse fails the connection, with the stream after the head. A
/// request that expects `100-continue` is put to the handler first: with a
/// status other than 100 that status is the answer, and the body is left
/// unread; with 100 the head `100 Continue` is written and the request goes
/// on as any other does.
pub open spec fn exchanged<S: Service>(
    bytes: Seq<u8>,
    before: Seq<u8>,
    after: Seq<u8>,
    rest: Seq<u8>,
    step: Result<Step<S::Upgrade>, ServeError<S::Error>>,
    now: u64,
) -> bool {
    let block = head_block(Seq::empty(), bytes);
    let tail = bytes.skip(block.len() as int);
    if block.len() == 0 {
        after == before && rest == tail && step is Ok && step->Ok_0 is Close
    } else {
        match request_head_in(block) {
            Err(error) => {
                &&& after == before
                &&& rest == tail
                &&& step is Err && step->Err_0 is Parse && step->Err_0->Parse_0 == error
            },
            Ok(head) => if control_for(head.version, head.fields).expects_continue {
                ||| rest == tail && exists|code: u16| #[trigger]
                    refused::<S>(code, before, after, step)
                ||| went_on::<S>(head, tail, before + continue_text(), after, rest, step, now)
            } else {
                went_on::<S>(head, tail, before, after, rest, step, now)
            },
        }
    }
}

/// Serves one request: reads its head off the stream, puts its expectation
/// to the handler where it has one, reads its body, asks the handler, and
/// sends the answer. Once the handler is done with the request, the bytes
/// of a body that wraps the stream are passed over.
pub fn exchange<S: Service>(stream: &mut Input, out: &mut Vec<u8>, app: &mut S, now: u64) -> (step:
    Result<Step<S::Upgrade>, ServeError<S::Error>>)
    requires
        now <= LAST_SECOND,
    ensures
        exchanged::<S>(
            old(stream).remaining(),
            old(out)@,
            final(out)@,
            final(stream).remaining(),
            step,
            now,
        ),
        old(out)@.is_prefix_of(final(out)@),
        final(stream).remaining().len() <= old(stream).remaining().len(),
        old(stream).remaining().len() > 0 ==> final(stream).remaining().len()
            < old(stream).remaining().len(),
{
    let ghost bytes = stream.remaining();
    let ghost before = out@;
    proof {
        crate::request::lemma_head_grows(Seq::empty(), bytes);
        crate::request::lemma_head_within(Seq::empty(), bytes);
    }
    let buf = read_head(stream);
    let ghost tail = stream.remaining();
    if buf.len() == 0 {
        return Ok(Step::Close);
    }
    let head = match parse_request_head(&buf) {
        Ok(head) => head,
        Err(error) => {
            return Err(ServeError::Parse(error));
        },
    };
    let ghost seen = head@;
    let RequestHead { method, uri, version, headers, body: kind } = head;
    let control = control_of(version, &headers);
    let asked = Method::from_token(method.as_bytes());
    let mut request = Request { method, uri, version, headers, body: Body::Empty };
    assert(out@ + Seq::<u8>::empty() == out@);
    if control.expects_continue {
        let status = app.should_continue(&request);
        match answer_expectation(status, out) {
            Ok(true) => {},
            Ok(false) => {
                assert(refused::<S>(status.code(), before, out@, Ok(Step::Next)));
                return Ok(Step::Next);
            },
            Err(error) => {
                assert(refused::<S>(status.code(), before, out@, Err(ServeError::Write(error))));
                return Err(ServeError::Write(error));
            },
        }
    }
    let ghost pre = out@;
    proof {
        lemma_decoded_rest(tail);
    }
    let body = match read_body(stream, kind) {
        Ok(body) => body,
        Err(error) => {
            return Err(ServeError::Parse(error));
        },
    };
    request.body = body;
    let answer = app.call(request);
    pass_body(stream, kind);
    let ghost given = answer;
    let step = conclude(answer, version, &asked, &control, now, out);
    assert(concluded(given, seen.version, seen.method, control, now, pre, out@, step));
    step
}

/// What serving a connection comes to, on a stream that holds `bytes`, with
/// `before` written: request after request is served as [`exchanged`] says,
/// each from where the one before it left the stream and the output, as long
/// as the step is to serve the next one. The end of the stream and a step
/// to close end the serving, a step to hand the connection over ends it
/// with the handler, and a failure ends it with that failure.
pub open spec fn served<S: Service>(
    bytes: Seq<u8>,
    before: Seq<u8>,
    after: Seq<u8>,
    rest: Seq<u8>,
    end: Result<Option<S::Upgrade>, ServeError<S::Error>>,
    now: u64,
) -> bool
    decreases bytes.len(),
{
    if bytes.len() == 0 {
        after == before && rest == bytes && end is Ok && end->Ok_0 is None
    } else {
        exists|mid: Seq<u8>, left: Seq<u8>, step: Result<Step<S::Upgrade>, ServeError<S::Error>>|
            #[trigger] exchanged::<S>(bytes, before, mid, left, step, now) && match step {
                Ok(Step::Next) => left.len() < bytes.len() && served::<S>(
                    left,
                    mid,
                    after,
                    rest,
                    end,
                    now,
                ),
                Ok(Step::Close) => after == mid && rest == left && end is Ok && end->Ok_0 is None,
                Ok(Step::Upgrade(handler)) => after == mid && rest == left && end is Ok
                    && end->Ok_0 == Some(handler),
                Err(error) => after == mid && rest == left && end is Err && end->Err_0 == error,
            }
    }
}

/// Requests that follow one another on a connection are answered in turn:
/// where a request is served and the next one is due, and what follows it
/// on the stream is served from there, the whole is served, with the later
/// answers written after the earlier one and the stream left where the last
/// request ended.
pub proof fn lemma_served_in_turn<S: Service>(
    bytes: Seq<u8>,
    before: Seq<u8>,
    mid: Seq<u8>,
    left: Seq<u8>,
    after: Seq<u8>,
    rest: Seq<u8>,
    end: Result<Option<S::Upgrade>, ServeError<S::Error>>,
    now: u64,
)
    requires
        bytes.len() > 0,
        left.len() < bytes.len(),
        exchanged::<S>(bytes, before, mid, left, Ok(Step::Next), now),
        served::<S>(left, mid, after, rest, end, now),
    ensures
        served::<S>(bytes, before, after, rest, end, now),
{
}

/// A request after which the connection is closed or handed over is the
/// last that is served: nothing is written after its answer, and the stream
/// is left where that request ended, whatever follows on it.
pub proof fn lemma_served_last<S: Service>(
    bytes: Seq<u8>,
    before: Seq<u8>,
    mid: Seq<u8>,
    left: Seq<u8>,
    step: Result<Step<S::Upgrade>, ServeError<S::Error>>,
    now: u64,
)
    requires
        bytes.len() > 0,
        exchanged::<S>(bytes, before, mid, left, step, now),
        !(step matches Ok(Step::Next)),
    ensures
        served::<S>(
            bytes,
            before,
            mid,
            left,
            match step {
                Ok(Step::Upgrade(handler)) => Ok(Some(handler)),
                Ok(_) => Ok(None),
                Err(error) => Err(error),
            },
            now,
        ),
{
}

/// The answer to a `HEAD` request is the head of the answer that any other
/// request but `CONNECT` gets to the same response, and that answer is the
/// head and then the body.
pub proof fn lemma_head_answer(
    fields: Seq<(Seq<u8>, Seq<u8>)>,
    code: u16,
    body: BodyModel,
    version: Version,
    method: Seq<u8>,
    asks_for_keep_alive: bool,
    now: u64,
)
    requires
        method != head_token(),
        method != connect_token(),
        answer_error(fields, code, body, version, head_token(), asks_for_keep_alive, now) is None,
    ensures
        answer_wire(fields, code, body, version, method, asks_for_keep_alive, now) == answer_wire(
            fields,
            code,
            body,
            version,
            head_token(),
            asks_for_keep_alive,
            now,
        ) + crate::response::body_wire(
            response_refused(
                answer_fields(fields, version, asks_for_keep_alive, now),
                version,
                body.len(),
            )->Ok_0,
            body,
        ).0,
        crate::response::ends_with_empty_line(
            answer_wire(fields, code, body, version, head_token(), asks_for_keep_alive, now),
        ),
{
    crate::response::lemma_head_only(
        answer_fields(fields, version, asks_for_keep_alive, now),
        version,
        code,
        body,
    );
}

/// Serves a connection: request after request, each read where the one
/// before it ended, until the stream ends between two requests, a response
/// asks to close the connection or hands it over, or the connection fails.
/// Returns the handler that takes the connection over, if a response
/// switched protocols; nothing is read off the stream after that response.
pub fn serve<S: Service>(stream: &mut Input, out: &mut Vec<u8>, app: &mut S, now: u64) -> (end:
    Result<Option<S::Upgrade>, ServeError<S::Error>>)
    requires
        now <= LAST_SECOND,
    ensures
        served::<S>(
            old(stream).remaining(),
            old(out)@,
            final(out)@,
            final(stream).remaining(),
            end,
            now,
        ),
        old(out)@.is_prefix_of(final(out)@),
{
    let ghost start = stream.remaining();
    loop
        invariant
            now <= LAST_SECOND,
            start == old(stream).remaining(),
            old(out)@.is_prefix_of(out@),
            forall|
                after: Seq<u8>,
                rest: Seq<u8>,
                end: Result<Option<S::Upgrade>, ServeError<S::Error>>,
            |
                #[trigger] served::<S>(stream.remaining(), out@, after, rest, end, now)
                    ==> served::<S>(start, old(out)@, after, rest, end, now),
        decreases stream.remaining().len(),
    {
        let ghost bytes = stream.remaining();
        let ghost before = out@;
        if stream.is_exhausted() {
            assert(served::<S>(bytes, before, before, bytes, Ok(None), now));
            return Ok(None);
        }
        let step = exchange(stream, out, app, now);
        let ghost mid = out@;
        let ghost left = stream.remaining();
        match step {
            Ok(Step::Next) => {
                assert forall|
                    after: Seq<u8>,
                    rest: Seq<u8>,
                    end: Result<Option<S::Upgrade>, ServeError<S::Error>>,
                |
                    #[trigger] served::<S>(left, mid, after, rest, end, now) implies served::<S>(
                    start,
                    old(out)@,
                    after,
                    rest,
                    end,
                    now,
                ) by {
                    assert(exchanged::<S>(bytes, before, mid, left, step, now));
                    assert(served::<S>(bytes, before, after, rest, end, now));
                }
            },
            Ok(Step::Close) => {
                assert(exchanged::<S>(bytes, before, mid, left, step, now));
                assert(served::<S>(bytes, before, mid, left, Ok(None), now));
                return Ok(None);
            },
            Ok(Step::Upgrade(handler)) => {
                assert(exchanged::<S>(bytes, before, mid, left, step, now));
                assert(served::<S>(bytes, before, mid, left, Ok(Some(handler)), now));
                return Ok(Some(handler));
            },
            Err(error) => {
                assert(exchanged::<S>(bytes, before, mid, left, step, now));
                assert(served::<S>(bytes, before, mid, left, Err(error), now));
                return Err(error);
            },
        }
    }
}

} // verus!
