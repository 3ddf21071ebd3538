use touche::body::{Body, Chunk, HttpBody};
use touche::input::Input;
use touche::message::{Response, StatusCode, Version};
use touche::request::{BodyKind, Malformed, ParseError};
use touche::header::has_room;
use touche::response::{
    parse_response, parse_response_head, write_response, write_response_checked, Outcome,
    WriteError,
};

fn response<B>(body: B) -> Response<B, ()> {
    Response {
        status: StatusCode::ok(),
        version: Version::Http11,
        headers: http::HeaderMap::new(),
        upgrade: None,
        body,
    }
}

fn header(name: &'static str, value: &'static str) -> (http::header::HeaderName, http::HeaderValue) {
    (
        http::header::HeaderName::from_static(name),
        http::HeaderValue::from_static(value),
    )
}

#[test]
fn writes_responses_without_bodies() {
    let res = response(Body::empty());

    let mut output: Vec<u8> = Vec::new();
    let outcome = write_response(res, &mut output, true).unwrap();

    assert_eq!(output, b"HTTP/1.1 200 OK\r\ncontent-length: 0\r\n\r\n");
    assert!(matches!(outcome, Outcome::KeepAlive));
}

#[test]
fn writes_responses_with_bodies() {
    let res = response("lol");

    let mut output: Vec<u8> = Vec::new();
    let outcome = write_response(res, &mut output, true).unwrap();

    assert_eq!(output, b"HTTP/1.1 200 OK\r\ncontent-length: 3\r\n\r\nlol");
    assert!(matches!(outcome, Outcome::KeepAlive));
}

#[test]
fn allows_to_skip_body_writing() {
    let res = response("lol");

    let mut output: Vec<u8> = Vec::new();
    let outcome = write_response(res, &mut output, false).unwrap();

    assert_eq!(output, b"HTTP/1.1 200 OK\r\ncontent-length: 3\r\n\r\n");
    assert!(matches!(outcome, Outcome::KeepAlive));
}

#[test]
fn fails_when_the_informed_content_length_does_not_match_the_body_length() {
    let mut res = response("lol");
    let (name, value) = header("content-length", "5");
    res.headers.insert(name, value);

    let mut output: Vec<u8> = Vec::new();
    assert!(write_response(res, &mut output, true).is_err());
}

#[test]
fn writes_chunked_responses() {
    let mut res = response(Body::from_iter(vec![
        Chunk::Data(b"chunk1".to_vec()),
        Chunk::Data(b"chunk2".to_vec()),
    ]));
    let (name, value) = header("transfer-encoding", "chunked");
    res.headers.insert(name, value);

    let mut output: Vec<u8> = Vec::new();
    let outcome = write_response(res, &mut output, true).unwrap();

    assert_eq!(
        output,
        b"HTTP/1.1 200 OK\r\ntransfer-encoding: chunked\r\n\r\n6\r\nchunk1\r\n6\r\nchunk2\r\n0\r\n\r\n"
    );
    assert!(matches!(outcome, Outcome::KeepAlive));
}

#[test]
fn writes_responses_from_reader_with_known_size() {
    let res = response(Body::from_reader(Input::new(b"lol".to_vec()), Some(3)));

    let mut output: Vec<u8> = Vec::new();
    let outcome = write_response(res, &mut output, true).unwrap();

    assert_eq!(output, b"HTTP/1.1 200 OK\r\ncontent-length: 3\r\n\r\nlol");
    assert!(matches!(outcome, Outcome::KeepAlive));
}

#[test]
fn short_reader_fails_after_what_it_holds() {
    let res = response(Body::from_reader(Input::new(b"lo".to_vec()), Some(3)));

    let mut output: Vec<u8> = Vec::new();
    let outcome = write_response(res, &mut output, true);

    assert!(matches!(outcome, Err(WriteError::FramingMismatch)));
    assert_eq!(output, b"HTTP/1.1 200 OK\r\ncontent-length: 3\r\n\r\nlo");
}

#[test]
fn writes_chunked_responses_with_trailers() {
    let mut sender = touche::body::BodyChannel::new();
    sender.send(b"lol".to_vec()).unwrap();
    sender.send(b"wut".to_vec()).unwrap();
    sender.send_trailer(b"content-length", b"6").unwrap();
    let body = Body::from_channel(sender);

    let mut res = response(body);
    let (name, value) = header("trailers", "content-length");
    res.headers.insert(name, value);

    let mut output: Vec<u8> = Vec::new();
    let outcome = write_response(res, &mut output, true).unwrap();

    assert_eq!(
        output,
        b"HTTP/1.1 200 OK\r\ntrailers: content-length\r\ntransfer-encoding: chunked\r\n\r\n3\r\nlol\r\n3\r\nwut\r\n0\r\ncontent-length: 6\r\n\r\n"
    );
    assert!(matches!(outcome, Outcome::KeepAlive));
}

#[test]
fn limits_the_from_reader_response_body_size() {
    let res = response(Body::from_reader(Input::new(b"lolwut".to_vec()), Some(3)));

    let mut output: Vec<u8> = Vec::new();
    let outcome = write_response(res, &mut output, true).unwrap();

    assert_eq!(output, b"HTTP/1.1 200 OK\r\ncontent-length: 3\r\n\r\nlol");
    assert!(matches!(outcome, Outcome::KeepAlive));
}

#[test]
fn uses_chunked_transfer_when_the_reader_size_is_undefined() {
    let res = response(Body::from_reader(Input::new(b"lolwut".to_vec()), None));

    let mut output: Vec<u8> = Vec::new();
    let outcome = write_response(res, &mut output, true).unwrap();

    assert_eq!(
        output,
        b"HTTP/1.1 200 OK\r\ntransfer-encoding: chunked\r\n\r\n6\r\nlolwut\r\n0\r\n\r\n"
    );
    assert!(matches!(outcome, Outcome::KeepAlive));
}

#[test]
fn does_not_use_chunked_encoding_when_the_reader_size_is_undefined_and_connection_is_close() {
    let mut res = response(Body::from_reader(Input::new(b"lolwut".to_vec()), None));
    let (name, value) = header("connection", "close");
    res.headers.insert(name, value);

    let mut output: Vec<u8> = Vec::new();
    let outcome = write_response(res, &mut output, true).unwrap();

    assert_eq!(output, b"HTTP/1.1 200 OK\r\nconnection: close\r\n\r\nlolwut");
    assert!(matches!(outcome, Outcome::Close));
}

#[test]
fn supports_channel_response_bodies() {
    let mut sender = touche::body::BodyChannel::new();
    sender.send(b"lol".to_vec()).unwrap();
    sender.send(b"wut".to_vec()).unwrap();
    let body = Body::from_channel(sender);

    let mut res = response(body);
    let (name, value) = header("connection", "close");
    res.headers.insert(name, value);

    let mut output: Vec<u8> = Vec::new();
    let outcome = write_response(res, &mut output, true).unwrap();

    assert_eq!(
        std::str::from_utf8(&output).unwrap(),
        "HTTP/1.1 200 OK\r\nconnection: close\r\n\r\nlolwut"
    );
    assert!(matches!(outcome, Outcome::Close));
}

#[test]
fn returns_a_close_connection_outcome_when_informed_an_explicit_close_connection_header() {
    let mut res = response(Body::empty());
    let (name, value) = header("connection", "close");
    res.headers.insert(name, value);

    let mut output: Vec<u8> = Vec::new();
    let outcome = write_response(res, &mut output, true).unwrap();

    assert!(matches!(outcome, Outcome::Close));
}

#[test]
fn returns_a_close_keep_alive_outcome_when_no_close_connection_is_informed() {
    let res = response(Body::empty());

    let mut output: Vec<u8> = Vec::new();
    let outcome = write_response(res, &mut output, true).unwrap();

    assert!(matches!(outcome, Outcome::KeepAlive));
}

#[test]
fn returns_upgrade_outcome() {
    let res = Response {
        status: StatusCode::switching_protocols(),
        version: Version::Http11,
        headers: http::HeaderMap::new(),
        upgrade: Some(7_u32),
        body: Body::empty(),
    };

    let mut output: Vec<u8> = Vec::new();
    let outcome = write_response(res, &mut output, true).unwrap();

    assert!(matches!(outcome, Outcome::Upgrade(7)));
    assert_eq!(
        output,
        b"HTTP/1.1 101 Switching Protocols\r\ncontent-length: 0\r\n\r\n"
    );
}

#[test]
fn writes_http_10_responses() {
    let mut res = response("lol");
    res.version = Version::Http10;

    let mut output: Vec<u8> = Vec::new();
    let outcome = write_response(res, &mut output, true).unwrap();

    assert_eq!(output, b"HTTP/1.0 200 OK\r\ncontent-length: 3\r\n\r\nlol");
    assert!(matches!(outcome, Outcome::KeepAlive));
}

#[test]
fn removes_chunked_transfer_encoding_from_http_10_responses() {
    let mut res = response(Body::from_iter(vec![Chunk::from(b"lol".to_vec())]));
    res.version = Version::Http10;
    let (name, value) = header("transfer-encoding", "chunked");
    res.headers.insert(name, value);

    let mut output: Vec<u8> = Vec::new();
    let outcome = write_response(res, &mut output, true).unwrap();

    assert_eq!(output, b"HTTP/1.0 200 OK\r\nconnection: close\r\n\r\nlol");
    assert!(matches!(outcome, Outcome::Close));
}

#[test]
fn parse_response_without_body() {
    let res = "HTTP/1.1 200 OK\r\ndate: Mon, 25 Jul 2022 21:34:35 GMT\r\n\r\n";
    let mut res = Input::new(res.as_bytes().to_vec());

    let res = parse_response::<()>(&mut res).unwrap();

    assert_eq!(Version::Http11, res.version);
    assert_eq!(StatusCode::ok(), res.status);
    assert_eq!(
        Some("Mon, 25 Jul 2022 21:34:35 GMT"),
        res.headers
            .get(http::header::DATE)
            .and_then(|v| v.to_str().ok())
    );
}

#[test]
fn parse_response_with_content_length_body() {
    let res = "HTTP/1.1 200 OK\r\ncontent-length: 6\r\n\r\nlolwut ignored";
    let mut res = Input::new(res.as_bytes().to_vec());

    let res = parse_response::<()>(&mut res).unwrap();

    assert_eq!(res.body.into_bytes().unwrap(), b"lolwut");
}

#[test]
fn parse_response_with_chunked_body() {
    let res = "HTTP/1.1 200 OK\r\ntransfer-encoding: chunked\r\n\r\n3\r\nlol\r\n3\r\nwut\r\n0\r\n\r\n";
    let mut res = Input::new(res.as_bytes().to_vec());

    let res = parse_response::<()>(&mut res).unwrap();

    assert_eq!(res.body.into_bytes().unwrap(), b"lolwut");
}

#[test]
fn parse_response_with_chunked_body_and_extensions() {
    let res = "HTTP/1.1 200 OK\r\ntransfer-encoding: chunked\r\n\r\n3;extension\r\nlol\r\n3\r\nwut\r\n0\r\n\r\n";
    let mut res = Input::new(res.as_bytes().to_vec());

    let res = parse_response::<()>(&mut res).unwrap();

    assert_eq!(res.body.into_bytes().unwrap(), b"lolwut");
}

#[test]
fn parse_response_with_streaming_body() {
    let res = b"HTTP/1.1 200 OK\r\ncontent-length: 2048\r\n\r\n";
    let body = [65_u8; 2048];
    let mut res = Input::new([res.as_ref(), body.as_ref()].concat());

    let res = parse_response::<()>(&mut res).unwrap();

    assert_eq!(res.body.into_bytes().unwrap(), body);
}

#[test]
fn parse_response_with_close_delimited_body() {
    let res = "HTTP/1.1 200 OK\r\nconnection: close\r\n\r\nlolwut";
    let mut res = Input::new(res.as_bytes().to_vec());

    let res = parse_response::<()>(&mut res).unwrap();

    assert_eq!(res.body.into_bytes().unwrap(), b"lolwut");
}

#[test]
fn chunked_response_with_trailers_on_the_wire() {
    let mut trailers = http::HeaderMap::new();
    trailers.insert("content-length", http::HeaderValue::from_static("6"));
    let res = response(Body::from_iter(vec![
        Chunk::Data(b"lol".to_vec()),
        Chunk::Data(b"wut".to_vec()),
        Chunk::Trailers(trailers),
    ]));
    let mut res = res;
    let (name, value) = header("trailers", "content-length");
    res.headers.insert(name, value);
    let mut output: Vec<u8> = Vec::new();
    write_response(res, &mut output, true).unwrap();
    assert_eq!(
        output,
        b"HTTP/1.1 200 OK\r\ntrailers: content-length\r\ntransfer-encoding: chunked\r\n\r\n3\r\nlol\r\n3\r\nwut\r\n0\r\ncontent-length: 6\r\n\r\n"
    );
}

#[test]
fn later_trailers_replace_earlier_ones_of_their_name() {
    let mut first = http::HeaderMap::new();
    first.insert("a", http::HeaderValue::from_static("1"));
    first.insert("b", http::HeaderValue::from_static("2"));
    let mut second = http::HeaderMap::new();
    second.insert("a", http::HeaderValue::from_static("3"));
    second.append("a", http::HeaderValue::from_static("4"));
    let mut res = response(Body::from_iter(vec![
        Chunk::Trailers(first),
        Chunk::Data(vec![7_u8; 26]),
        Chunk::Trailers(second),
    ]));
    let (name, value) = header("transfer-encoding", "chunked");
    res.headers.insert(name, value);
    let mut output: Vec<u8> = Vec::new();
    write_response(res, &mut output, true).unwrap();
    let mut expected = b"HTTP/1.1 200 OK\r\ntransfer-encoding: chunked\r\n\r\n1a\r\n".to_vec();
    expected.extend_from_slice(&[7_u8; 26]);
    expected.extend_from_slice(b"\r\n0\r\na: 3\r\na: 4\r\nb: 2\r\n\r\n");
    assert_eq!(output, expected);
}

#[test]
fn head_response_is_the_head_of_the_full_response() {
    let make = || {
        let mut res = response(Body::from_reader(Input::new(vec![65_u8; 3000]), Some(3000)));
        let (name, value) = header("x-a", "b");
        res.headers.insert(name, value);
        res
    };
    let mut full: Vec<u8> = Vec::new();
    write_response(make(), &mut full, true).unwrap();
    let mut head: Vec<u8> = Vec::new();
    write_response(make(), &mut head, false).unwrap();
    assert_eq!(
        head,
        b"HTTP/1.1 200 OK\r\nx-a: b\r\ncontent-length: 3000\r\n\r\n"
    );
    assert_eq!(full[..head.len()], head[..]);
    assert_eq!(full.len(), head.len() + 3000);

    let mut head: Vec<u8> = Vec::new();
    let body = Body::from_iter(vec![Chunk::Data(b"lol".to_vec())]);
    let outcome = write_response(response(body), &mut head, false).unwrap();
    assert_eq!(
        head,
        b"HTTP/1.1 200 OK\r\ntransfer-encoding: chunked\r\n\r\n"
    );
    assert!(matches!(outcome, Outcome::KeepAlive));
}

#[test]
fn declared_length_beyond_the_body_fails() {
    let mut res = response(Body::from_iter(vec![Chunk::Data(b"lol".to_vec())]));
    let (name, value) = header("content-length", "5");
    res.headers.insert(name, value);
    let mut output: Vec<u8> = Vec::new();
    assert!(matches!(
        write_response(res, &mut output, true),
        Err(WriteError::FramingMismatch)
    ));

    let mut res = response(Body::from_reader(Input::new(vec![1_u8; 2000]), Some(2048)));
    let (name, value) = header("content-length", "2048");
    res.headers.insert(name, value);
    let mut output: Vec<u8> = Vec::new();
    assert!(matches!(
        write_response(res, &mut output, true),
        Err(WriteError::FramingMismatch)
    ));
    assert_eq!(
        output.len(),
        b"HTTP/1.1 200 OK\r\ncontent-length: 2048\r\n\r\n".len() + 2000
    );

    let mut res = response("lol");
    let (name, value) = header("content-length", "5");
    res.headers.insert(name, value);
    let mut output: Vec<u8> = Vec::new();
    assert!(matches!(
        write_response(res, &mut output, true),
        Err(WriteError::FramingMismatch)
    ));
    assert!(output.is_empty());
}

#[test]
fn aborted_body_fails_a_response_of_fixed_length() {
    let mut sender = touche::body::BodyChannel::new();
    sender.send(b"lol".to_vec()).unwrap();
    let mut res = response(sender.abort());
    let (name, value) = header("content-length", "3");
    res.headers.insert(name, value);
    let mut output: Vec<u8> = Vec::new();
    assert!(matches!(
        write_response(res, &mut output, true),
        Err(WriteError::Body(touche::body::BodyError::Aborted))
    ));
    assert_eq!(output, b"HTTP/1.1 200 OK\r\ncontent-length: 3\r\n\r\n");
}

#[test]
fn responses_beyond_the_room_of_a_header_map_are_told_apart() {
    let fields = |count: usize| {
        let mut map = http::HeaderMap::new();
        for i in 0..count {
            map.append(
                http::header::HeaderName::from_bytes(format!("x-{i}").as_bytes()).unwrap(),
                http::HeaderValue::from_static("v"),
            );
        }
        map
    };
    let mut res = response("lol");
    res.headers = fields(6000);
    assert!(has_room(&res.headers, 1));
    assert!(!has_room(&res.headers, 2));
    let mut output: Vec<u8> = Vec::new();
    assert!(matches!(
        write_response_checked(res, &mut output, true),
        Some(Ok(Outcome::KeepAlive))
    ));
    assert!(output.ends_with(b"x-5999: v\r\ncontent-length: 3\r\n\r\nlol"));

    let mut res = response("lol");
    res.headers = fields(6001);
    assert!(!has_room(&res.headers, 1));
    assert!(has_room(&res.headers, 0));
    let mut output: Vec<u8> = Vec::new();
    assert!(write_response_checked(res, &mut output, true).is_none());
    assert!(output.is_empty());

    let res = response(Body::from_iter(vec![
        Chunk::Data(b"lol".to_vec()),
        Chunk::Trailers(fields(6001)),
    ]));
    let mut output: Vec<u8> = Vec::new();
    assert!(write_response_checked(res, &mut output, true).is_none());
    assert!(output.is_empty());

    let res = response(Body::from_iter(vec![
        Chunk::Data(b"lol".to_vec()),
        Chunk::Trailers(fields(3000)),
        Chunk::Trailers(fields(3000)),
    ]));
    let mut output: Vec<u8> = Vec::new();
    assert!(matches!(
        write_response_checked(res, &mut output, true),
        Some(Ok(Outcome::KeepAlive))
    ));
    assert!(output.ends_with(b"x-2999: v\r\n\r\n"));
}

#[test]
fn aborted_bodies_fail_where_the_abort_comes() {
    let aborted = || {
        let mut sender = touche::body::BodyChannel::new();
        sender.send(b"lol".to_vec()).unwrap();
        sender.send(b"wut".to_vec()).unwrap();
        sender.abort()
    };
    let mut output: Vec<u8> = Vec::new();
    assert!(matches!(
        write_response(response(aborted()), &mut output, true),
        Err(WriteError::Body(touche::body::BodyError::Aborted))
    ));
    assert_eq!(
        output,
        b"HTTP/1.1 200 OK\r\ntransfer-encoding: chunked\r\n\r\n3\r\nlol\r\n3\r\nwut\r\n"
    );

    let mut res = response(aborted());
    let (name, value) = header("connection", "close");
    res.headers.insert(name, value);
    let mut output: Vec<u8> = Vec::new();
    assert!(matches!(
        write_response(res, &mut output, true),
        Err(WriteError::Body(touche::body::BodyError::Aborted))
    ));
    assert_eq!(output, b"HTTP/1.1 200 OK\r\nconnection: close\r\n\r\nlolwut");

    let mut res = response(aborted());
    let (name, value) = header("content-length", "2000");
    res.headers.insert(name, value);
    let mut output: Vec<u8> = Vec::new();
    assert!(matches!(
        write_response(res, &mut output, true),
        Err(WriteError::Body(touche::body::BodyError::Aborted))
    ));
    assert_eq!(output, b"HTTP/1.1 200 OK\r\ncontent-length: 2000\r\n\r\nlolwut");

    let mut output: Vec<u8> = Vec::new();
    assert!(matches!(
        write_response(response(aborted()), &mut output, false),
        Ok(Outcome::KeepAlive)
    ));
}

#[test]
fn status_lines() {
    let line = |code: u16| {
        let mut out = Vec::new();
        StatusCode::from_u16(code).unwrap().append_to(&mut out);
        String::from_utf8(out).unwrap()
    };
    assert_eq!(line(200), "200 OK");
    assert_eq!(line(100), "100 Continue");
    assert_eq!(line(417), "417 Expectation Failed");
    assert_eq!(line(999), "999 <unknown status code>");
    assert!(StatusCode::from_u16(99).is_none());
    assert!(StatusCode::from_u16(1000).is_none());
    assert_eq!(StatusCode::from_u16(100).unwrap(), StatusCode::continue_());
    assert_eq!(StatusCode::expectation_failed().as_u16(), 417);
    assert!(StatusCode::ok().is_success());
    assert!(StatusCode::from_u16(299).unwrap().is_success());
    assert!(!StatusCode::from_u16(300).unwrap().is_success());
    assert!(!StatusCode::from_u16(199).unwrap().is_success());
}

#[test]
fn versions_on_the_wire() {
    let text = |version: Version| {
        let mut out = Vec::new();
        touche::message::append_version(&mut out, version);
        String::from_utf8(out).unwrap()
    };
    assert_eq!(text(Version::Http09), "HTTP/0.9");
    assert_eq!(text(Version::Http10), "HTTP/1.0");
    assert_eq!(text(Version::Http11), "HTTP/1.1");
    assert_eq!(text(Version::Http2), "HTTP/2.0");
    assert_eq!(text(Version::Http3), "HTTP/3.0");
}

#[test]
fn hexadecimal_and_decimal_digits() {
    let hex = |n: u64| {
        let mut out = Vec::new();
        touche::bytes::append_hex(&mut out, n);
        String::from_utf8(out).unwrap()
    };
    let dec = |n: u64| {
        let mut out = Vec::new();
        touche::bytes::append_decimal(&mut out, n);
        String::from_utf8(out).unwrap()
    };
    assert_eq!(hex(0), "0");
    assert_eq!(hex(15), "f");
    assert_eq!(hex(16), "10");
    assert_eq!(hex(255), "ff");
    assert_eq!(hex(u64::MAX), "ffffffffffffffff");
    assert_eq!(dec(0), "0");
    assert_eq!(dec(10), "10");
    assert_eq!(dec(u64::MAX), "18446744073709551615");
}

#[test]
fn response_parse_errors() {
    let parse = |bytes: &[u8]| parse_response::<()>(&mut Input::new(bytes.to_vec())).map(|_| ());
    assert_eq!(parse(b""), Err(ParseError::ConnectionClosed));
    assert_eq!(parse(b"HTTP/1.1 2"), Err(ParseError::IncompleteRequest));
    assert_eq!(
        parse(b"HTTP/1.1 099 Odd\r\n\r\n"),
        Err(ParseError::IncompleteRequest)
    );
    assert_eq!(
        parse(b"HTTP/1.1 200 OK\r\ntransfer-encoding: gzip\r\n\r\n"),
        Err(ParseError::InvalidTransferEncoding)
    );
    assert_eq!(
        parse(b"HTTP/1.1 200 OK\r\ncontent-length: -1\r\n\r\n"),
        Err(ParseError::InvalidHeader)
    );
    assert_eq!(
        parse(b"HTTP/1.1 200 OK\r\ncontent-length: 4\r\n\r\nlol"),
        Err(ParseError::Io)
    );
    assert!(matches!(
        parse(b"HTTP/1.1 2x0 OK\r\n\r\n"),
        Err(ParseError::Invalid(Malformed::Status))
    ));
    assert_eq!(parse(b"HTTP/1.0 204 No Content\n\n"), Ok(()));
}

#[test]
fn response_head_says_how_the_body_is_delimited() {
    let kind = |bytes: &[u8]| parse_response_head(&bytes.to_vec()).unwrap().body;
    assert_eq!(kind(b"HTTP/1.1 200 OK\r\n\r\n"), BodyKind::Empty);
    assert_eq!(
        kind(b"HTTP/1.1 200 OK\r\nConnection: keep-alive, Close\r\n\r\n"),
        BodyKind::UntilClose
    );
    assert_eq!(
        kind(b"HTTP/1.1 200 OK\r\nConnection: close\r\nContent-Length: 2\r\n\r\n"),
        BodyKind::Length(2)
    );
    assert_eq!(
        kind(b"HTTP/1.1 200 OK\r\nTransfer-Encoding: chunked\r\nContent-Length: 2\r\n\r\n"),
        BodyKind::Chunked
    );
}

#[test]
fn written_responses_parse_back() {
    let mut res = response(Body::from_iter(vec![
        Chunk::Data(b"lol".to_vec()),
        Chunk::Data(b"wut".to_vec()),
    ]));
    res.status = StatusCode::from_u16(404).unwrap();
    let (name, value) = header("x-a", "b");
    res.headers.insert(name, value);
    let mut wire: Vec<u8> = Vec::new();
    write_response(res, &mut wire, true).unwrap();
    let mut stream = Input::new(wire);
    let parsed = parse_response::<()>(&mut stream).unwrap();
    assert_eq!(parsed.status.as_u16(), 404);
    assert_eq!(parsed.version, Version::Http11);
    assert_eq!(parsed.headers.get("x-a").unwrap(), "b");
    assert_eq!(parsed.headers.get("transfer-encoding").unwrap(), "chunked");
    assert_eq!(parsed.headers.len(), 2);
    assert!(parsed.upgrade.is_none());
    assert_eq!(parsed.body.into_bytes().unwrap(), b"lolwut");
}
