//! The parts of a message: version, status, method, target, and the request
//! and response that hold them.

use crate::bytes::{append, append_decimal, decimal_digits};
use vstd::prelude::*;

verus! {

/// The version of the protocol that a message is written in.
#[derive(Debug, Clone, Copy, PartialEq, Eq, Structural)]
pub enum Version {
    /// `HTTP/0.9`
    Http09,
    /// `HTTP/1.0`
    Http10,
    /// `HTTP/1.1`
    Http11,
    /// `HTTP/2.0`
    Http2,
    /// `HTTP/3.0`
    Http3,
}

/// The name of a version as it stands in a start line: `HTTP/`, the major
/// version, a dot, the minor version.
pub open spec fn version_text(version: Version) -> Seq<u8> {
    match version {
        Version::Http09 => seq![72u8, 84, 84, 80, 47, 48, 46, 57],
        Version::Http10 => seq![72u8, 84, 84, 80, 47, 49, 46, 48],
        Version::Http11 => seq![72u8, 84, 84, 80, 47, 49, 46, 49],
        Version::Http2 => seq![72u8, 84, 84, 80, 47, 50, 46, 48],
        Version::Http3 => seq![72u8, 84, 84, 80, 47, 51, 46, 48],
    }
}

/// Appends the name of `version` to `out`.
pub fn append_version(out: &mut Vec<u8>, version: Version)
    ensures
        final(out)@ == old(out)@ + version_text(version),
{
    let (major, minor): (u8, u8) = match version {
        Version::Http09 => (48, 57),
        Version::Http10 => (49, 48),
        Version::Http11 => (49, 49),
        Version::Http2 => (50, 48),
        Version::Http3 => (51, 48),
    };
    out.push(72);
    out.push(84);
    out.push(84);
    out.push(80);
    out.push(47);
    out.push(major);
    out.push(46);
    out.push(minor);
    assert(out@ == old(out)@ + version_text(version));
}

/// The version that a parser's minor version number stands for: 0 is
/// `HTTP/1.0`, 1 is `HTTP/1.1`, and no other number stands for one.
pub open spec fn version_of_minor(minor: u8) -> Option<Version> {
    if minor == 0 {
        Some(Version::Http10)
    } else if minor == 1 {
        Some(Version::Http11)
    } else {
        None
    }
}

/// The status code of a response: a number from 100 to 999.
#[derive(Debug, Clone, Copy, PartialEq, Eq)]
pub struct StatusCode {
    code: u16,
}

/// The reason phrase that `http` knows for a status code.
pub uninterp spec fn canonical_reason(code: u16) -> Option<Seq<u8>>;

/// Calls `http::StatusCode::canonical_reason` on the status of this number
/// and copies the phrase; a number that is no status has none. Claimed: the
/// phrase goes by the number alone.
#[verifier::external_body]
fn reason_phrase(code: u16) -> (phrase: Option<Vec<u8>>)
    ensures
        match phrase {
            Some(text) => canonical_reason(code) == Some(text@),
            None => canonical_reason(code) is None,
        },
{
    http::StatusCode::from_u16(code).ok().and_then(|status| status.canonical_reason()).map(
        |text| text.as_bytes().to_vec(),
    )
}

/// What stands for the reason phrase of a status code that has none:
/// `<unknown status code>`.
pub open spec fn unknown_reason() -> Seq<u8> {
    seq![
        60u8, 117, 110, 107, 110, 111, 119, 110, 32, 115, 116, 97, 116, 117, 115, 32, 99, 111,
        100, 101, 62,
    ]
}

/// A status as it stands in a status line: the number, a space, and the
/// reason phrase.
pub open spec fn status_text(code: u16) -> Seq<u8> {
    decimal_digits(code as nat) + seq![32u8] + match canonical_reason(code) {
        Some(text) => text,
        None => unknown_reason(),
    }
}

impl StatusCode {
    #[verifier::type_invariant]
    spec fn in_range(self) -> bool {
        100 <= self.code < 1000
    }

    /// The number of this status.
    pub closed spec fn code(self) -> u16 {
        self.code
    }

    /// The status of a number from 100 to 999; no status for another number.
    pub fn from_u16(code: u16) -> (status: Option<StatusCode>)
        ensures
            status is Some <==> 100 <= code < 1000,
            status matches Some(status) ==> status.code() == code,
    {
        if code < 100 || code >= 1000 {
            None
        } else {
            Some(StatusCode { code })
        }
    }

    /// The number of this status.
    pub fn as_u16(&self) -> (code: u16)
        ensures
            code == self.code(),
            100 <= code < 1000,
    {
        proof {
            use_type_invariant(self);
        }
        self.code
    }

    /// Whether the status is in the 2xx range.
    pub fn is_success(&self) -> (success: bool)
        ensures
            success == (200 <= self.code() < 300),
    {
        200 <= self.code && self.code < 300
    }

    /// `100 Continue`
    pub fn continue_() -> (status: StatusCode)
        ensures
            status.code() == 100,
    {
        StatusCode { code: 100 }
    }

    /// `101 Switching Protocols`
    pub fn switching_protocols() -> (status: StatusCode)
        ensures
            status.code() == 101,
    {
        StatusCode { code: 101 }
    }

    /// `200 OK`
    pub fn ok() -> (status: StatusCode)
        ensures
            status.code() == 200,
    {
        StatusCode { code: 200 }
    }

    /// `417 Expectation Failed`
    pub fn expectation_failed() -> (status: StatusCode)
        ensures
            status.code() == 417,
    {
        StatusCode { code: 417 }
    }

    /// Appends the status as it stands in a status line.
    pub fn append_to(&self, out: &mut Vec<u8>)
        ensures
            final(out)@ == old(out)@ + status_text(self.code()),
    {
        let code = self.as_u16();
        append_decimal(out, code as u64);
        out.push(32);
        match reason_phrase(code) {
            Some(text) => {
                append(out, &text);
            },
            None => {
                let ghost before = out@;
                out.push(60);
                out.push(117);
                out.push(110);
                out.push(107);
                out.push(110);
                out.push(111);
                out.push(119);
                out.push(110);
                out.push(32);
                out.push(115);
                out.push(116);
                out.push(97);
                out.push(116);
                out.push(117);
                out.push(115);
                out.push(32);
                out.push(99);
                out.push(111);
                out.push(100);
                out.push(101);
                out.push(62);
                assert(out@ == before + unknown_reason());
            },
        }
        assert(out@ == old(out)@ + status_text(self.code()));
    }
}

/// Whether `http` takes these bytes as a request method.
pub uninterp spec fn method_accepted(name: Seq<u8>) -> bool;

/// Calls `http::Method::from_bytes` and says whether it took the bytes.
/// Claimed: that goes by the bytes alone.
#[verifier::external_body]
fn accepts_method(name: &[u8]) -> (accepted: bool)
    ensures
        accepted == method_accepted(name@),
{
    http::Method::from_bytes(name).is_ok()
}

/// What `http` makes of a request target that it has parsed from these
/// bytes: the text in which it gives the target back, and of the authority
/// of the target, where it has one, the text, the host and the port. None
/// where `http` refuses the bytes.
pub uninterp spec fn uri_parts(raw: Seq<u8>) -> Option<
    (Seq<u8>, Option<(Seq<u8>, Seq<u8>, Option<u16>)>),
>;

/// What the parts of a target hold.
pub open spec fn parts_view(parts: Option<(Vec<u8>, Option<(Vec<u8>, Vec<u8>, Option<u16>)>)>)
    -> Option<(Seq<u8>, Option<(Seq<u8>, Seq<u8>, Option<u16>)>)> {
    match parts {
        Some((text, Some((authority, host, port)))) => Some(
            (text@, Some((authority@, host@, port))),
        ),
        Some((text, None)) => Some((text@, None)),
        None => None,
    }
}

/// Parses the bytes with `http::Uri::try_from` and copies what the parsed
/// target displays as, and from `http::Uri::authority` what
/// `Authority::as_str`, `Authority::host` and `Authority::port_u16` give.
/// Claimed: all of it goes by the bytes alone.
#[verifier::external_body]
fn parse_uri(raw: &[u8]) -> (parts: Option<(Vec<u8>, Option<(Vec<u8>, Vec<u8>, Option<u16>)>)>)
    ensures
        parts_view(parts) == uri_parts(raw@),
{
    let uri = http::Uri::try_from(raw).ok()?;
    let authority = uri.authority().map(
        |authority|
            (
                authority.as_str().as_bytes().to_vec(),
                authority.host().as_bytes().to_vec(),
                authority.port_u16(),
            ),
    );
    Some((uri.to_string().into_bytes(), authority))
}

/// The text in which `http` gives back a request target that it has parsed
/// from these bytes; none where it refuses them.
pub open spec fn uri_rendering(raw: Seq<u8>) -> Option<Seq<u8>> {
    match uri_parts(raw) {
        Some(parts) => Some(parts.0),
        None => None,
    }
}

/// A request method, held as the token that stands in the request line.
#[derive(Debug, Clone, PartialEq, Eq)]
pub struct Method {
    name: Vec<u8>,
}

impl View for Method {
    type V = Seq<u8>;

    closed spec fn view(&self) -> Seq<u8> {
        self.name@
    }
}

/// `GET`
pub open spec fn get_token() -> Seq<u8> {
    seq![71u8, 69, 84]
}

/// `HEAD`
pub open spec fn head_token() -> Seq<u8> {
    seq![72u8, 69, 65, 68]
}

/// `POST`
pub open spec fn post_token() -> Seq<u8> {
    seq![80u8, 79, 83, 84]
}

/// `CONNECT`
pub open spec fn connect_token() -> Seq<u8> {
    seq![67u8, 79, 78, 78, 69, 67, 84]
}

/// Whether two byte strings are the same.
pub fn same_bytes(left: &Vec<u8>, right: &Vec<u8>) -> (same: bool)
    ensures
        same == (left@ == right@),
{
    if left.len() != right.len() {
        return false;
    }
    let mut i: usize = 0;
    while i < left.len()
        invariant
            i <= left.len(),
            left.len() == right.len(),
            left@.take(i as int) == right@.take(i as int),
        decreases left.len() - i,
    {
        if left[i] != right[i] {
            return false;
        }
        i += 1;
        assert(left@.take(i as int) == left@.take(i - 1).push(left@[i - 1]));
        assert(right@.take(i as int) == right@.take(i - 1).push(right@[i - 1]));
    }
    assert(left@.take(i as int) == left@);
    assert(right@.take(i as int) == right@);
    true
}

impl Method {
    /// The method of this token, where `http` takes the token as a method.
    pub fn from_bytes(name: &[u8]) -> (method: Option<Method>)
        ensures
            method is Some <==> method_accepted(name@),
            method matches Some(method) ==> method@ == name@,
    {
        if accepts_method(name) {
            Some(Method { name: vstd::slice::slice_to_vec(name) })
        } else {
            None
        }
    }

    /// The method of this token, taken as it is.
    pub fn from_token(name: &Vec<u8>) -> (method: Method)
        ensures
            method@ == name@,
    {
        Method { name: crate::body::copy_bytes(name) }
    }

    /// `GET`
    pub fn get() -> (method: Method)
        ensures
            method@ == get_token(),
    {
        let mut name: Vec<u8> = Vec::new();
        name.push(71);
        name.push(69);
        name.push(84);
        assert(name@ == get_token());
        Method { name }
    }

    /// `HEAD`
    pub fn head() -> (method: Method)
        ensures
            method@ == head_token(),
    {
        let mut name: Vec<u8> = Vec::new();
        name.push(72);
        name.push(69);
        name.push(65);
        name.push(68);
        assert(name@ == head_token());
        Method { name }
    }

    /// `POST`
    pub fn post() -> (method: Method)
        ensures
            method@ == post_token(),
    {
        let mut name: Vec<u8> = Vec::new();
        name.push(80);
        name.push(79);
        name.push(83);
        name.push(84);
        assert(name@ == post_token());
        Method { name }
    }

    /// `CONNECT`
    pub fn connect() -> (method: Method)
        ensures
            method@ == connect_token(),
    {
        let mut name: Vec<u8> = Vec::new();
        name.push(67);
        name.push(79);
        name.push(78);
        name.push(78);
        name.push(69);
        name.push(67);
        name.push(84);
        assert(name@ == connect_token());
        Method { name }
    }

    /// The token of this method.
    pub fn as_bytes(&self) -> (name: &Vec<u8>)
        ensures
            name@ == self@,
    {
        &self.name
    }

    /// Whether this is `GET`.
    pub fn is_get(&self) -> (is: bool)
        ensures
            is == (self@ == get_token()),
    {
        let other = Method::get();
        same_bytes(&self.name, &other.name)
    }

    /// Whether this is `HEAD`.
    pub fn is_head(&self) -> (is: bool)
        ensures
            is == (self@ == head_token()),
    {
        let other = Method::head();
        same_bytes(&self.name, &other.name)
    }

    /// Whether this is `CONNECT`.
    pub fn is_connect(&self) -> (is: bool)
        ensures
            is == (self@ == connect_token()),
    {
        let other = Method::connect();
        same_bytes(&self.name, &other.name)
    }
}

/// A request target, held as the text that stands in the request line,
/// with its authority where it has one.
#[derive(Debug, Clone, PartialEq, Eq)]
pub struct Uri {
    text: Vec<u8>,
    authority: Option<(Vec<u8>, Vec<u8>, Option<u16>)>,
}

impl View for Uri {
    type V = Seq<u8>;

    closed spec fn view(&self) -> Seq<u8> {
        self.text@
    }
}

impl Uri {
    /// The authority of the target, where it has one: its text, its host
    /// and its port.
    pub closed spec fn authority(&self) -> Option<(Seq<u8>, Seq<u8>, Option<u16>)> {
        match self.authority {
            Some((authority, host, port)) => Some((authority@, host@, port)),
            None => None,
        }
    }

    /// The target that these bytes spell, as `http` gives it back; none
    /// where `http` refuses them.
    pub fn from_bytes(raw: &[u8]) -> (uri: Option<Uri>)
        ensures
            match uri {
                Some(uri) => uri_parts(raw@) == Some((uri@, uri.authority())),
                None => uri_parts(raw@) is None,
            },
    {
        match parse_uri(raw) {
            Some((text, authority)) => Some(Uri { text, authority }),
            None => None,
        }
    }

    /// The text of this target.
    pub fn as_bytes(&self) -> (text: &Vec<u8>)
        ensures
            text@ == self@,
    {
        &self.text
    }

    /// The text, the host and the port of the authority of this target,
    /// where it has one.
    pub fn authority_parts(&self) -> (parts: &Option<(Vec<u8>, Vec<u8>, Option<u16>)>)
        ensures
            match parts {
                Some((authority, host, port)) => self.authority() == Some(
                    (authority@, host@, *port),
                ),
                None => self.authority() is None,
            },
    {
        &self.authority
    }
}

/// A request: method, target, version, headers and body.
pub struct Request<B> {
    /// The request method.
    pub method: Method,
    /// The request target.
    pub uri: Uri,
    /// The version of the protocol.
    pub version: Version,
    /// The header fields.
    pub headers: http::HeaderMap,
    /// The body.
    pub body: B,
}

/// A response: status, version, headers, body, and the handler that takes
/// the connection over where the response switches protocols.
pub struct Response<B, U> {
    /// The status code.
    pub status: StatusCode,
    /// The version of the protocol.
    pub version: Version,
    /// The header fields.
    pub headers: http::HeaderMap,
    /// What takes the connection over once the response is sent.
    pub upgrade: Option<U>,
    /// The body.
    pub body: B,
}

} // verus!
