use touche::body::{Body, Chunk, HttpBody};
use touche::chunked::{append_chunk, append_last_chunk, chunk_line, ChunkLine, ChunkedReader};
use touche::input::Input;
use touche::message::{Method, Request, Uri, Version};
use touche::request::{
    head_complete, parse_request, parse_request_head, pass_body, read_head, write_request,
    write_request_checked, BodyKind, Malformed, ParseError,
};
use touche::response::WriteError;

fn input(bytes: &[u8]) -> Input {
    Input::new(bytes.to_vec())
}

fn request<B>(body: B) -> Request<B> {
    Request {
        method: Method::get(),
        uri: Uri::from_bytes(b"/").unwrap(),
        version: Version::Http11,
        headers: http::HeaderMap::new(),
        body,
    }
}

fn written<B: HttpBody>(req: Request<B>) -> (Vec<u8>, Result<(), WriteError>) {
    let mut out = Vec::new();
    let result = write_request(req, &mut out);
    (out, result)
}

#[test]
fn parse_request_without_body() {
    let req = "GET /lolwut HTTP/1.1\r\nHost: lol.com\r\n\r\n";
    let mut req = input(req.as_bytes());

    let req = parse_request(&mut req).unwrap();

    assert_eq!(Version::Http11, req.version);
    assert_eq!(b"/lolwut", req.uri.as_bytes().as_slice());
    assert_eq!(
        Some("lol.com"),
        req.headers
            .get(http::header::HOST)
            .and_then(|v| v.to_str().ok())
    );
}

#[test]
fn parse_request_with_content_length_body() {
    let req = "POST /lol HTTP/1.1\r\nHost: lol.com\r\nContent-Length: 6\r\n\r\nlolwut ignored";
    let mut req = input(req.as_bytes());

    let parsed = parse_request(&mut req).unwrap();

    assert_eq!(parsed.body.into_bytes().unwrap(), b"lolwut");
    assert_eq!(req.read(100), b" ignored");
}

#[test]
fn parse_request_with_chunked_body() {
    let req = "POST /lol HTTP/1.1\r\nHost: lol.com\r\nTransfer-Encoding: chunked\r\n\r\n3\r\nlol\r\n3\r\nwut\r\n0\r\n\r\n";
    let mut req = input(req.as_bytes());

    let req = parse_request(&mut req).unwrap();

    assert_eq!(req.body.into_bytes().unwrap(), b"lolwut");
}

#[test]
fn parse_request_with_chunked_body_and_extensions() {
    let req = "POST /lol HTTP/1.1\r\nHost: lol.com\r\nTransfer-Encoding: chunked\r\n\r\n3;extension\r\nlol\r\n3\r\nwut\r\n0\r\n\r\n";
    let mut req = input(req.as_bytes());

    let req = parse_request(&mut req).unwrap();

    assert_eq!(req.body.into_bytes().unwrap(), b"lolwut");
}

#[test]
fn parse_request_with_streaming_body() {
    let req = b"POST /lol HTTP/1.1\r\nHost: lol.com\r\nContent-Length: 2048\r\n\r\n";
    let body = [65_u8; 2048];
    let mut req = Input::new([req.as_ref(), body.as_ref()].concat());

    let req = parse_request(&mut req).unwrap();

    assert!(matches!(req.body, Body::Reader(_, Some(2048))));
    assert_eq!(req.body.into_bytes().unwrap(), body);
}

#[test]
fn fails_to_parse_incomplete_request() {
    let mut req = input(b"POST /lol");

    assert!(matches!(
        parse_request(&mut req),
        Err(ParseError::IncompleteRequest)
    ));
}

#[test]
fn chunked_request_with_extensions_as_sent() {
    let req = "POST /x HTTP/1.1\r\nHost: h\r\nTransfer-Encoding: chunked\r\n\r\n3;ext\r\nlol\r\n3\r\nwut\r\n0\r\n\r\n";
    let mut req = input(req.as_bytes());
    let parsed = parse_request(&mut req).unwrap();
    assert_eq!(parsed.method.as_bytes().as_slice(), b"POST");
    assert_eq!(parsed.uri.as_bytes().as_slice(), b"/x");
    assert_eq!(parsed.body.into_bytes().unwrap(), b"lolwut");
    assert_eq!(req.read(100), b"\r\n");
}

#[test]
fn content_length_request_leaves_the_rest_queued() {
    let req = "POST /x HTTP/1.1\r\nHost: h\r\nContent-Length: 6\r\n\r\nlolwut ignored";
    let mut req = input(req.as_bytes());
    let parsed = parse_request(&mut req).unwrap();
    assert!(matches!(parsed.body, Body::Buffered(_)));
    assert_eq!(parsed.body.into_bytes().unwrap(), b"lolwut");
    assert_eq!(req.available(), 8);
}

#[test]
fn closed_connection_is_told_from_an_incomplete_request() {
    assert!(matches!(
        parse_request(&mut input(b"")),
        Err(ParseError::ConnectionClosed)
    ));
    assert!(matches!(
        parse_request(&mut input(b"GET / HTTP/1.1\r\n")),
        Ok(_)
    ));
    assert!(matches!(
        parse_request(&mut input(b"GET /")),
        Err(ParseError::IncompleteRequest)
    ));
    assert!(matches!(
        parse_request(&mut input(b"\n\n")),
        Err(ParseError::IncompleteRequest)
    ));
}

#[test]
fn parse_errors() {
    assert!(matches!(
        parse_request(&mut input(b"GET / HTTP/1.2\r\n\r\n")),
        Err(ParseError::Invalid(Malformed::Version))
    ));
    assert!(matches!(
        parse_request(&mut input(b"GET / HTTP/1.1\r\nbad header\r\n\r\n")),
        Err(ParseError::Invalid(Malformed::HeaderName))
    ));
    assert!(matches!(
        parse_request(&mut input(b"GET / HTTP/1.1\r\na: b\x00\r\n\r\n")),
        Err(ParseError::Invalid(Malformed::HeaderValue))
    ));
    assert!(matches!(
        parse_request(&mut input(b"GET\x01 / HTTP/1.1\r\n\r\n")),
        Err(ParseError::Invalid(Malformed::Token))
    ));
    assert!(matches!(
        parse_request(&mut input(b"\r\rGET / HTTP/1.1\r\n\r\n")),
        Err(ParseError::Invalid(Malformed::NewLine))
    ));
    let mut many = b"GET / HTTP/1.1\r\n".to_vec();
    for _ in 0..65 {
        many.extend_from_slice(b"a: b\r\n");
    }
    many.extend_from_slice(b"\r\n");
    assert!(matches!(
        parse_request(&mut Input::new(many)),
        Err(ParseError::Invalid(Malformed::TooManyHeaders))
    ));
    assert!(matches!(
        parse_request(&mut input(
            b"POST / HTTP/1.1\r\nTransfer-Encoding: gzip\r\n\r\n"
        )),
        Err(ParseError::InvalidTransferEncoding)
    ));
    assert!(matches!(
        parse_request(&mut input(b"POST / HTTP/1.1\r\nContent-Length: x\r\n\r\n")),
        Err(ParseError::InvalidHeader)
    ));
    assert!(matches!(
        parse_request(&mut input(
            b"POST / HTTP/1.1\r\nContent-Length: 1\r\nContent-Length: 2\r\n\r\nab"
        )),
        Err(ParseError::InvalidHeader)
    ));
    assert!(matches!(
        parse_request(&mut input(b"POST / HTTP/1.1\r\nContent-Length: 6\r\n\r\nlol")),
        Err(ParseError::Io)
    ));
    assert!(matches!(
        parse_request(&mut input(b"GET http://[ HTTP/1.1\r\n\r\n")),
        Err(ParseError::Unknown)
    ));
}

#[test]
fn small_bodies_are_buffered_and_large_ones_are_not() {
    let mut bytes = b"POST / HTTP/1.1\r\nContent-Length: 1023\r\n\r\n".to_vec();
    bytes.extend_from_slice(&[66_u8; 1023]);
    let parsed = parse_request(&mut Input::new(bytes)).unwrap();
    assert!(matches!(parsed.body, Body::Buffered(_)));

    let mut bytes = b"POST / HTTP/1.1\r\nContent-Length: 1024\r\n\r\n".to_vec();
    bytes.extend_from_slice(&[66_u8; 1000]);
    let mut stream = Input::new(bytes);
    let parsed = parse_request(&mut stream).unwrap();
    assert!(matches!(parsed.body, Body::Reader(_, Some(1024))));
    assert_eq!(parsed.body.len(), Some(1024));
    assert_eq!(parsed.body.into_bytes().unwrap().len(), 1000);
    assert_eq!(stream.available(), 1000);
    pass_body(&mut stream, BodyKind::Length(1024));
    assert!(stream.is_exhausted());
}

#[test]
fn head_ends_at_an_empty_line() {
    assert!(head_complete(&b"a\r\n\r\n".to_vec()));
    assert!(head_complete(&b"a\n\n".to_vec()));
    assert!(head_complete(&b"\n\n".to_vec()));
    assert!(!head_complete(&b"a\r\n".to_vec()));
    assert!(!head_complete(&b"a\n\r\n".to_vec()));
    assert!(!head_complete(&b"".to_vec()));
    assert!(!head_complete(&b"\n".to_vec()));

    let mut stream = input(b"GET / HTTP/1.1\nHost: h\n\nrest");
    assert_eq!(read_head(&mut stream), b"GET / HTTP/1.1\nHost: h\n\n");
    assert_eq!(stream.read(10), b"rest");
    let mut stream = input(b"GET / HTTP/1.1\r\nHost");
    assert_eq!(read_head(&mut stream), b"GET / HTTP/1.1\r\nHost");
    assert!(stream.is_exhausted());
}

#[test]
fn request_head_says_how_the_body_is_delimited() {
    let head = parse_request_head(&b"GET / HTTP/1.0\r\nA: b\r\nA: c\r\n\r\n".to_vec()).unwrap();
    assert_eq!(head.version, Version::Http10);
    assert_eq!(head.body, BodyKind::Empty);
    assert_eq!(head.headers.len(), 2);
    let values: Vec<&[u8]> = head
        .headers
        .get_all("a")
        .iter()
        .map(|value| value.as_bytes())
        .collect();
    assert_eq!(values, vec![&b"b"[..], &b"c"[..]]);
    let head =
        parse_request_head(&b"PUT / HTTP/1.1\r\nContent-Length: 70000\r\n\r\n".to_vec()).unwrap();
    assert_eq!(head.body, BodyKind::Length(70000));
    assert_eq!(head.method.as_bytes().as_slice(), b"PUT");
    let head = parse_request_head(
        &b"PUT / HTTP/1.1\r\nContent-Length: 7\r\nTransfer-Encoding: gzip, chunked\r\n\r\n".to_vec(),
    )
    .unwrap();
    assert_eq!(head.body, BodyKind::Chunked);
}

#[test]
fn decoder_ends_at_what_is_no_chunk() {
    let mut reader = ChunkedReader::new(input(b"3\r\nlol\r\nzz\r\nwut\r\n"));
    assert_eq!(reader.next().unwrap(), b"lol");
    assert_eq!(reader.next(), None);

    let mut reader = ChunkedReader::new(input(b"a\r\n0123456789\r\n5\r\nlol"));
    assert_eq!(reader.next().unwrap(), b"0123456789");
    assert_eq!(reader.next(), None);
    assert!(reader.stream.is_exhausted());

    let mut reader = ChunkedReader::new(input(b"3\r\nlol\r\n3\r\nwut\r\n0\r\n\r\nnext"));
    assert_eq!(reader.collect(), vec![b"lol".to_vec(), b"wut".to_vec()]);
    assert_eq!(reader.stream.read(10), b"\r\nnext");

    assert_eq!(chunk_line(&b"1f\r\n".to_vec()), ChunkLine::Data(31));
    assert_eq!(chunk_line(&b"1F ; x=y\r\n".to_vec()), ChunkLine::Data(31));
    assert_eq!(chunk_line(&b"0\r\n".to_vec()), ChunkLine::End);
    assert_eq!(chunk_line(&b"x\r\n".to_vec()), ChunkLine::End);
    assert_eq!(chunk_line(&b"1f".to_vec()), ChunkLine::More);
}

#[test]
fn writes_requests_with_known_length() {
    let mut req = request("lol");
    req.method = Method::post();
    let (out, result) = written(req);
    assert_eq!(result, Ok(()));
    assert_eq!(out, b"POST / HTTP/1.1\r\ncontent-length: 3\r\n\r\nlol");

    let mut req = request(());
    req.version = Version::Http10;
    req.uri = Uri::from_bytes(b"http://example.com").unwrap();
    let (out, result) = written(req);
    assert_eq!(result, Ok(()));
    assert_eq!(
        out,
        b"GET http://example.com/ HTTP/1.0\r\ncontent-length: 0\r\n\r\n"
    );
}

#[test]
fn writes_requests_in_chunks() {
    let mut req = request(Body::from_iter(vec![
        Chunk::from(b"lol".to_vec()),
        Chunk::from(b"wut".to_vec()),
    ]));
    req.method = Method::post();
    let (out, result) = written(req);
    assert_eq!(result, Ok(()));
    assert_eq!(
        out,
        b"POST / HTTP/1.1\r\ntransfer-encoding: chunked\r\n\r\n3\r\nlol\r\n3\r\nwut\r\n0\r\n\r\n"
    );

    let mut req = request("lolwut");
    req.headers.insert(
        "transfer-encoding",
        http::HeaderValue::from_static("chunked"),
    );
    let (out, result) = written(req);
    assert_eq!(result, Ok(()));
    assert_eq!(
        out,
        b"GET / HTTP/1.1\r\ntransfer-encoding: chunked\r\n\r\n6\r\nlolwut\r\n0\r\n\r\n"
    );
}

#[test]
fn refuses_requests_that_cannot_be_framed() {
    let (out, result) = written(request(Body::from_iter(Vec::new())));
    assert_eq!(result, Err(WriteError::UnknownBodySize));
    assert!(out.is_empty());

    let mut req = request(Body::from_iter(Vec::new()));
    req.method = Method::head();
    assert_eq!(written(req).1, Err(WriteError::UnknownBodySize));

    let mut req = request(Body::from_iter(Vec::new()));
    req.method = Method::post();
    req.version = Version::Http10;
    assert_eq!(written(req).1, Err(WriteError::UnknownBodySize));

    let mut req = request("lol");
    req.headers
        .insert("content-length", http::HeaderValue::from_static("5"));
    let (out, result) = written(req);
    assert_eq!(result, Err(WriteError::FramingMismatch));
    assert!(out.is_empty());

    let mut req = request("lol");
    req.version = Version::Http2;
    let (out, result) = written(req);
    assert_eq!(result, Err(WriteError::UnsupportedVersion));
    assert!(out.is_empty());

    let mut req = request("lol");
    for i in 0..6001 {
        req.headers.append(
            http::header::HeaderName::from_bytes(format!("x-{i}").as_bytes()).unwrap(),
            http::HeaderValue::from_static("v"),
        );
    }
    let mut out = Vec::new();
    assert_eq!(write_request_checked(req, &mut out), None);
    assert!(out.is_empty());

    let mut req = request("lol");
    for i in 0..6000 {
        req.headers.append(
            http::header::HeaderName::from_bytes(format!("x-{i}").as_bytes()).unwrap(),
            http::HeaderValue::from_static("v"),
        );
    }
    let mut out = Vec::new();
    assert_eq!(write_request_checked(req, &mut out), Some(Ok(())));
    assert!(out.ends_with(b"x-5999: v\r\ncontent-length: 3\r\n\r\nlol"));
}

#[test]
fn declared_length_frames_a_body_of_unknown_length() {
    let mut req = request(Body::from_iter(vec![Chunk::from(b"lol".to_vec())]));
    req.headers
        .insert("content-length", http::HeaderValue::from_static("3"));
    let (out, result) = written(req);
    assert_eq!(result, Ok(()));
    assert_eq!(out, b"GET / HTTP/1.1\r\ncontent-length: 3\r\n\r\nlol");

    let mut req = request(Body::from_iter(vec![Chunk::from(b"lol".to_vec())]));
    req.headers
        .insert("content-length", http::HeaderValue::from_static("4"));
    let (out, result) = written(req);
    assert_eq!(result, Err(WriteError::FramingMismatch));
    assert_eq!(out, b"GET / HTTP/1.1\r\ncontent-length: 4\r\n\r\nlol");
}

#[test]
fn written_requests_parse_back() {
    let mut req = request("lolwut");
    req.method = Method::from_bytes(b"PATCH").unwrap();
    req.uri = Uri::from_bytes(b"/a/b?c=d").unwrap();
    req.headers
        .insert("host", http::HeaderValue::from_static("lol.com"));
    req.headers
        .append("accept", http::HeaderValue::from_static("a"));
    req.headers
        .append("accept", http::HeaderValue::from_static("b"));
    let (out, result) = written(req);
    assert_eq!(result, Ok(()));

    let mut stream = Input::new(out);
    let parsed = parse_request(&mut stream).unwrap();
    assert!(stream.is_exhausted());
    assert_eq!(parsed.method.as_bytes().as_slice(), b"PATCH");
    assert_eq!(parsed.uri.authority_parts(), &None);
    assert_eq!(parsed.uri.as_bytes().as_slice(), b"/a/b?c=d");
    assert_eq!(parsed.version, Version::Http11);
    let fields: Vec<(String, Vec<u8>)> = parsed
        .headers
        .iter()
        .map(|(name, value)| (name.to_string(), value.as_bytes().to_vec()))
        .collect();
    assert_eq!(
        fields,
        vec![
            ("host".to_string(), b"lol.com".to_vec()),
            ("accept".to_string(), b"a".to_vec()),
            ("accept".to_string(), b"b".to_vec()),
            ("content-length".to_string(), b"6".to_vec()),
        ]
    );
    assert_eq!(parsed.body.into_bytes().unwrap(), b"lolwut");

    let mut req = request(Body::from_iter(vec![
        Chunk::from(b"lol".to_vec()),
        Chunk::from(vec![9_u8; 300]),
    ]));
    req.method = Method::post();
    let (out, _) = written(req);
    let parsed = parse_request(&mut Input::new(out)).unwrap();
    assert_eq!(
        parsed.body.into_bytes().unwrap(),
        [&b"lol"[..], &[9_u8; 300][..]].concat()
    );
}

#[test]
fn methods_and_targets() {
    assert!(Method::from_bytes(b"").is_none());
    assert!(Method::from_bytes(b"GE T").is_none());
    assert_eq!(Method::from_bytes(b"GET").unwrap(), Method::get());
    assert!(Method::from_bytes(b"GET").unwrap().is_get());
    assert!(Method::head().is_head());
    assert!(Method::connect().is_connect());
    assert!(!Method::post().is_get());
    assert!(!Method::from_bytes(b"get").unwrap().is_get());
    assert_eq!(Method::from_token(&b"PURGE".to_vec()).as_bytes().as_slice(), b"PURGE");
    assert!(Uri::from_bytes(b"").is_none());
    assert!(Uri::from_bytes(b"/a b").is_none());
    assert_eq!(Uri::from_bytes(b"*").unwrap().as_bytes().as_slice(), b"*");
    assert_eq!(
        Uri::from_bytes(b"HTTP://Example.com").unwrap().as_bytes().as_slice(),
        b"http://Example.com/"
    );
}

#[test]
fn decoder_reads_back_what_the_encoder_wrote() {
    let sent = vec![b"l".to_vec(), vec![3_u8; 255], vec![10_u8; 4096], b"\r\n".to_vec()];
    let mut wire = Vec::new();
    for chunk in &sent {
        append_chunk(&mut wire, chunk);
    }
    append_last_chunk(&mut wire, &http::HeaderMap::new());
    wire.extend_from_slice(b"next");
    let mut reader = ChunkedReader::new(Input::new(wire));
    assert_eq!(reader.collect(), sent);
    assert_eq!(reader.stream.read(10), b"\r\nnext");

    let mut wire = Vec::new();
    append_chunk(&mut wire, &vec![7_u8; 26]);
    assert_eq!(wire[..4], b"1a\r\n"[..]);
    assert_eq!(wire.len(), 32);
}

#[test]
fn large_bodies_leave_the_stream_after_the_head() {
    let mut bytes = b"POST /lol HTTP/1.1\r\nContent-Length: 2048\r\n\r\n".to_vec();
    bytes.extend_from_slice(&[65_u8; 2048]);
    bytes.extend_from_slice(b"GET / HTTP/1.1\r\n\r\n");
    let mut stream = Input::new(bytes);
    let req = parse_request(&mut stream).unwrap();
    assert_eq!(stream.available(), 2048 + 18);
    assert_eq!(req.body.len(), Some(2048));
    assert_eq!(req.body.into_bytes().unwrap(), vec![65_u8; 2048]);
    pass_body(&mut stream, BodyKind::Length(2048));
    assert_eq!(stream.available(), 18);
    pass_body(&mut stream, BodyKind::Length(5));
    pass_body(&mut stream, BodyKind::Chunked);
    pass_body(&mut stream, BodyKind::Empty);
    assert_eq!(stream.available(), 18);
    let next = parse_request(&mut stream).unwrap();
    assert!(next.method.is_get());
    assert!(stream.is_exhausted());
}

#[test]
fn targets_keep_their_authority() {
    let head = parse_request_head(
        &b"GET http://Example.com:8080/a HTTP/1.1\r\n\r\n".to_vec(),
    )
    .unwrap();
    assert_eq!(head.uri.as_bytes().as_slice(), b"http://Example.com:8080/a");
    assert_eq!(
        head.uri.authority_parts(),
        &Some((
            b"Example.com:8080".to_vec(),
            b"Example.com".to_vec(),
            Some(8080)
        ))
    );
}
