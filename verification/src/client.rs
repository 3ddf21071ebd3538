//! The client side of a connection: where a request is to be sent, what can
//! go wrong with it, and what becomes of the connection once the response
//! is read.

use crate::body::{Body, HttpBody};
use crate::header::{fields_with_host, header_fields, room_for, set_host};
use crate::input::Input;
use crate::message::{same_bytes, Request, Response, Uri};
use crate::request::{request_error, request_wire, write_request, ParseError};
use crate::response::{
    after_response, has_connection_close, parse_response, response_in, response_view,
    says_close, ResponseView, WriteError,
};
use vstd::prelude::*;

verus! {

/// Why a request could not be carried out.
#[derive(Debug)]
pub enum RequestError {
    /// The target names no authority to connect to.
    InvalidUri,
    /// The scheme of the target is not served.
    UnsupportedScheme,
    /// The response is written in a version that is not served.
    UnsupportedHttpVersion(u8),
    /// Reading or writing failed; the text says how.
    Io(String),
    /// The request was refused for the reason inside.
    InvalidRequest(Box<RequestError>),
}

/// What becomes of a connection once the response is read.
#[derive(Debug)]
pub enum ConnectionOutcome<C> {
    /// The connection is closed.
    Close,
    /// The connection can carry the next request.
    KeepAlive(C),
    /// The connection has left HTTP.
    Upgrade(C),
}

impl<C> ConnectionOutcome<C> {
    /// Whether the connection is closed.
    pub fn closed(&self) -> (closed: bool)
        ensures
            closed == (self is Close),
    {
        matches!(self, ConnectionOutcome::Close)
    }

    /// The connection that is still open.
    pub fn unwrap(self) -> (connection: C)
        requires
            !(self is Close),
        ensures
            self == ConnectionOutcome::KeepAlive(connection) || self == ConnectionOutcome::Upgrade(
                connection,
            ),
    {
        match self {
            ConnectionOutcome::KeepAlive(connection) => connection,
            ConnectionOutcome::Upgrade(connection) => connection,
            ConnectionOutcome::Close => vstd::pervasive::unreached(),
        }
    }

    /// The connection where it is still open; the outcome itself where it is
    /// closed.
    pub fn into_inner(self) -> (connection: Result<C, ConnectionOutcome<C>>)
        ensures
            match connection {
                Ok(connection) => self == ConnectionOutcome::KeepAlive(connection) || self
                    == ConnectionOutcome::Upgrade(connection),
                Err(outcome) => self is Close && outcome is Close,
            },
    {
        match self {
            ConnectionOutcome::KeepAlive(connection) => Ok(connection),
            ConnectionOutcome::Upgrade(connection) => Ok(connection),
            ConnectionOutcome::Close => Err(ConnectionOutcome::Close),
        }
    }
}

/// What becomes of a connection after a response with these fields and
/// this status: it is closed where the response says so, has left HTTP
/// where the status is `101`, and can be kept otherwise.
pub open spec fn outcome_for<C>(connection: C, fields: Seq<(Seq<u8>, Seq<u8>)>, code: u16)
    -> ConnectionOutcome<C> {
    if says_close(fields) {
        ConnectionOutcome::Close
    } else if code == 101 {
        ConnectionOutcome::Upgrade(connection)
    } else {
        ConnectionOutcome::KeepAlive(connection)
    }
}

/// Says what becomes of a connection after this response.
pub fn connection_outcome<C, B, U>(connection: C, response: &Response<B, U>) -> (outcome:
    ConnectionOutcome<C>)
    ensures
        outcome == outcome_for(connection, header_fields(response.headers), response.status.code()),
{
    if has_connection_close(&response.headers) {
        ConnectionOutcome::Close
    } else if response.status.as_u16() == 101 {
        ConnectionOutcome::Upgrade(connection)
    } else {
        ConnectionOutcome::KeepAlive(connection)
    }
}

/// Why sending a request over a connection failed.
#[derive(Debug, Clone, Copy, PartialEq, Eq, Structural)]
pub enum SendError {
    /// The request could not be written.
    Write(WriteError),
    /// The response could not be parsed.
    Parse(ParseError),
}

/// Sends a request over a connection and reads the response: the request is
/// written to `out`, the response is parsed off `reply`. Returns the
/// response and what becomes of the connection.
///
/// The request must be one that [`write_request`] takes.
pub fn send<C, B: HttpBody>(
    connection: C,
    req: Request<B>,
    out: &mut Vec<u8>,
    reply: &mut Input,
) -> (sent: Result<(ConnectionOutcome<C>, Response<Body, C>), SendError>)
    requires
        crate::header::fits(req.headers),
        crate::response::sendable(req.body.model()),
    ensures
        final(out)@ == old(out)@ + request_wire(req),
        match request_error(req) {
            Some(error) => {
                &&& sent == Err::<(ConnectionOutcome<C>, Response<Body, C>), SendError>(
                    SendError::Write(error),
                )
                &&& final(reply).remaining() == old(reply).remaining()
            },
            None => {
                &&& final(reply).remaining() == after_response(old(reply).remaining())
                &&& match sent {
                    Ok((outcome, response)) => {
                        &&& response_in(old(reply).remaining()) == Ok::<
                            ResponseView,
                            ParseError,
                        >(response_view(response))
                        &&& response.upgrade is None
                        &&& outcome == outcome_for(
                            connection,
                            header_fields(response.headers),
                            response.status.code(),
                        )
                    },
                    Err(error) => error is Parse && response_in(old(reply).remaining()) == Err::<
                        ResponseView,
                        ParseError,
                    >(error->Parse_0),
                }
            },
        },
{
    match write_request(req, out) {
        Ok(()) => {},
        Err(error) => {
            return Err(SendError::Write(error));
        },
    }
    let response = match parse_response::<C>(reply) {
        Ok(response) => response,
        Err(error) => {
            return Err(SendError::Parse(error));
        },
    };
    let outcome = connection_outcome(connection, &response);
    Ok((outcome, response))
}

/// The port of a target that names none.
pub const DEFAULT_PORT: u16 = 80;

/// Where a request is to be sent.
#[derive(Debug)]
pub struct Target {
    /// The authority by which connections are kept: in lower case.
    pub authority: Vec<u8>,
    /// The host to connect to.
    pub host: Vec<u8>,
    /// The port to connect to.
    pub port: u16,
}

/// An ASCII letter in lower case; any other byte as it is.
pub open spec fn lower(byte: u8) -> u8 {
    if 65 <= byte <= 90 {
        (byte + 32) as u8
    } else {
        byte
    }
}

/// Bytes with their ASCII letters in lower case.
pub open spec fn lowered(bytes: Seq<u8>) -> Seq<u8> {
    bytes.map_values(|byte: u8| lower(byte))
}

/// Puts the ASCII letters of `bytes` in lower case.
pub fn to_lower(bytes: &Vec<u8>) -> (out: Vec<u8>)
    ensures
        out@ == lowered(bytes@),
{
    let mut out: Vec<u8> = Vec::new();
    let mut i: usize = 0;
    while i < bytes.len()
        invariant
            i <= bytes.len(),
            out@ == lowered(bytes@.take(i as int)),
        decreases bytes.len() - i,
    {
        let byte: u8 = bytes[i];
        let low: u8 = if 65 <= byte && byte <= 90 {
            byte + 32
        } else {
            byte
        };
        out.push(low);
        i += 1;
        assert(bytes@.take(i as int) == bytes@.take(i - 1).push(byte));
        assert(out@ == lowered(bytes@.take(i as int)));
    }
    assert(bytes@.take(i as int) == bytes@);
    out
}

/// Where a request to a target with this authority is to be sent: at the
/// host of the authority, and at port 80 where the authority names none. A
/// target without authority is no target for a request.
pub open spec fn target_for(authority: Option<(Seq<u8>, Seq<u8>, Option<u16>)>) -> Option<
    (Seq<u8>, Seq<u8>, u16),
> {
    match authority {
        Some((text, host, port)) => Some(
            (
                lowered(text),
                host,
                match port {
                    Some(port) => port,
                    None => DEFAULT_PORT,
                },
            ),
        ),
        None => None,
    }
}

/// Says where a request with this target is to be sent.
pub fn target_of(uri: &Uri) -> (target: Result<Target, RequestError>)
    ensures
        match target {
            Ok(target) => target_for(uri.authority()) == Some(
                (target.authority@, target.host@, target.port),
            ),
            Err(error) => target_for(uri.authority()) is None && error is InvalidUri,
        },
{
    match uri.authority_parts() {
        Some((text, host, port)) => {
            let port: u16 = match port {
                Some(port) => *port,
                None => DEFAULT_PORT,
            };
            Ok(Target { authority: to_lower(text), host: crate::body::copy_bytes(host), port })
        },
        None => Err(RequestError::InvalidUri),
    }
}

/// Names the host of a request in its `Host` header, in place of what was
/// there. Says whether `http` took the host; the request stays as it was
/// where it did not.
///
/// The header map must have room for the field and for the one that
/// framing the request adds.
pub fn name_host<B>(req: &mut Request<B>, host: &Vec<u8>) -> (named: bool)
    requires
        room_for(old(req).headers, 2),
    ensures
        final(req).method == old(req).method,
        final(req).uri == old(req).uri,
        final(req).version == old(req).version,
        final(req).body == old(req).body,
        match fields_with_host(header_fields(old(req).headers), host@) {
            Some(fields) => named && header_fields(final(req).headers) == fields,
            None => !named && header_fields(final(req).headers) == header_fields(
                old(req).headers,
            ),
        },
        crate::header::fits(final(req).headers),
{
    set_host(&mut req.headers, host.as_slice())
}

/// A client: it keeps the connections that can carry another request, one
/// for each authority.
pub struct Client<C> {
    connections: Vec<(Vec<u8>, C)>,
}

/// The index of the first connection kept for `authority`, or the number of
/// connections where none is kept.
pub open spec fn position_of<C>(kept: Seq<(Vec<u8>, C)>, authority: Seq<u8>) -> nat
    decreases kept.len(),
{
    if kept.len() == 0 || kept[0].0@ == authority {
        0
    } else {
        1 + position_of(kept.skip(1), authority)
    }
}

impl<C> Client<C> {
    /// The connections that are kept, each with its authority.
    pub closed spec fn kept(self) -> Seq<(Vec<u8>, C)> {
        self.connections@
    }

    /// The connections that are kept once the one for `authority` is gone.
    pub open spec fn kept_without(self, authority: Seq<u8>) -> Seq<(Vec<u8>, C)> {
        let at = position_of(self.kept(), authority);
        if at < self.kept().len() {
            self.kept().remove(at as int)
        } else {
            self.kept()
        }
    }

    /// The connection that is kept for `authority`, if there is one.
    pub open spec fn kept_for(self, authority: Seq<u8>) -> Option<C> {
        let at = position_of(self.kept(), authority);
        if at < self.kept().len() {
            Some(self.kept()[at as int].1)
        } else {
            None
        }
    }

    /// A client that keeps no connection.
    pub fn new() -> (client: Client<C>)
        ensures
            client.kept().len() == 0,
    {
        Client { connections: Vec::new() }
    }

    /// Takes the connection that is kept for `authority`, if there is one.
    pub fn checkout(&mut self, authority: &Vec<u8>) -> (connection: Option<C>)
        ensures
            connection == old(self).kept_for(authority@),
            final(self).kept() == old(self).kept_without(authority@),
    {
        let ghost all = self.connections@;
        let mut i: usize = 0;
        assert(all.skip(0) == all);
        while i < self.connections.len()
            invariant
                i <= self.connections.len(),
                self.connections@ == all,
                all == old(self).kept(),
                position_of(all, authority@) == i + position_of(all.skip(i as int), authority@),
            decreases self.connections.len() - i,
        {
            assert(all.skip(i as int)[0] == all[i as int]);
            assert(all.skip(i as int).skip(1) == all.skip(i + 1));
            if same_bytes(&self.connections[i].0, authority) {
                let (_, connection) = self.connections.remove(i);
                return Some(connection);
            }
            i += 1;
        }
        assert(all.skip(i as int).len() == 0);
        None
    }

    /// Keeps `connection` for `authority`, in place of the one that was kept
    /// for it before, if any.
    pub fn keep(&mut self, authority: Vec<u8>, connection: C)
        ensures
            final(self).kept() == seq![(authority, connection)] + old(self).kept_without(
                authority@,
            ),
            final(self).kept_for(authority@) == Some(connection),
    {
        let _ = self.checkout(&authority);
        let ghost before = self.connections@;
        self.connections.insert(0, (authority, connection));
        assert(self.connections@ == seq![(authority, connection)] + before);
        assert(self.connections@[0].0@ == authority@);
    }

    /// Settles a connection after a response: a connection that can carry
    /// another request is kept for `authority`, one that has left HTTP goes
    /// with the response, and a closed one is dropped.
    pub fn checkin(
        &mut self,
        authority: Vec<u8>,
        outcome: ConnectionOutcome<C>,
        response: &mut Response<Body, C>,
    )
        ensures
            final(response).status == old(response).status,
            final(response).version == old(response).version,
            final(response).headers == old(response).headers,
            final(response).body == old(response).body,
            match outcome {
                ConnectionOutcome::Close => {
                    &&& final(self).kept() == old(self).kept()
                    &&& final(response).upgrade == old(response).upgrade
                },
                ConnectionOutcome::Upgrade(connection) => final(self).kept() == old(self).kept()
                    && final(response).upgrade == Some(connection),
                ConnectionOutcome::KeepAlive(connection) => {
                    &&& final(self).kept() == seq![(authority, connection)]
                        + old(self).kept_without(authority@)
                    &&& final(response).upgrade == old(response).upgrade
                },
            },
    {
        match outcome {
            ConnectionOutcome::Close => {},
            ConnectionOutcome::Upgrade(connection) => {
                response.upgrade = Some(connection);
            },
            ConnectionOutcome::KeepAlive(connection) => {
                self.keep(authority, connection);
            },
        }
    }
}

} // verus!
