use touche::body::{Body, Chunk, HttpBody};
use touche::client::{
    connection_outcome, name_host, send, target_of, to_lower, Client, ConnectionOutcome,
    SendError,
};
use touche::input::Input;
use touche::message::{Method, Request, Response, StatusCode, Uri, Version};
use touche::request::{write_request, ParseError};
use touche::response::{parse_response, WriteError};
use touche::server::{serve, Service};
use touche::upgrade::{into_upgraded, ClientUpgradeError};

fn request<B>(uri: &str, body: B) -> Request<B> {
    Request {
        method: Method::post(),
        uri: Uri::from_bytes(uri.as_bytes()).unwrap(),
        version: Version::Http11,
        headers: http::HeaderMap::new(),
        body,
    }
}

fn plain<B>(body: B) -> Request<B> {
    Request {
        method: Method::get(),
        uri: Uri::from_bytes(b"/").unwrap(),
        version: Version::Http11,
        headers: http::HeaderMap::new(),
        body,
    }
}

fn carried<B: HttpBody, S: Service>(
    conn: u8,
    make: impl Fn() -> Request<B>,
    service: &mut S,
) -> (ConnectionOutcome<u8>, Response<Body, u8>) {
    let mut wire = Vec::new();
    write_request(make(), &mut wire).unwrap();
    let mut reply = Vec::new();
    let _ = serve(&mut Input::new(wire.clone()), &mut reply, service, 0);
    let mut out = Vec::new();
    let sent = send(conn, make(), &mut out, &mut Input::new(reply)).unwrap();
    assert_eq!(out, wire);
    sent
}

struct Closing;

impl Service for Closing {
    type Body = Body;
    type Upgrade = ();
    type Error = ();

    fn call(&mut self, _: Request<Body>) -> Result<Response<Body, ()>, ()> {
        let mut headers = http::HeaderMap::new();
        headers.insert("connection", http::HeaderValue::from_static("close"));
        Ok(Response {
            status: StatusCode::ok(),
            version: Version::Http11,
            headers,
            upgrade: None,
            body: Body::from_reader(Input::new(b"lolwut".to_vec()), None),
        })
    }
}

struct Lolwut;

impl Service for Lolwut {
    type Body = &'static str;
    type Upgrade = ();
    type Error = ();

    fn call(&mut self, _: Request<Body>) -> Result<Response<&'static str, ()>, ()> {
        Ok(Response {
            status: StatusCode::ok(),
            version: Version::Http11,
            headers: http::HeaderMap::new(),
            upgrade: None,
            body: "lolwut",
        })
    }
}

#[test]
fn send_request() {
    let (conn, res) = carried(1, || plain("Hello world"), &mut Echo);
    assert_eq!(res.body.into_bytes().unwrap(), b"Hello world");

    let (conn, res) = carried(conn.unwrap(), || plain("Bye world"), &mut Echo);
    assert_eq!(res.body.into_bytes().unwrap(), b"Bye world");

    let (conn, res) = carried(conn.unwrap(), || plain(()), &mut Echo);
    assert_eq!(res.body.into_bytes().unwrap(), b"");

    let chunked = || {
        let mut req = plain(Body::from_iter(vec![
            Chunk::Data(b"lol".to_vec()),
            Chunk::Data(b"wut".to_vec()),
        ]));
        req.headers.insert(
            "transfer-encoding",
            http::HeaderValue::from_static("chunked"),
        );
        req
    };
    let (conn, res) = carried(conn.unwrap(), chunked, &mut Echo);
    assert_eq!(res.body.into_bytes().unwrap(), b"lolwut");
    assert!(matches!(conn, ConnectionOutcome::KeepAlive(1)));
}

#[test]
fn correctly_handles_closing_connections() {
    let (conn, res) = carried(1, || plain(()), &mut Closing);

    assert_eq!(res.body.into_bytes().unwrap(), b"lolwut");
    assert!(conn.closed());
    assert!(matches!(conn.into_inner(), Err(ConnectionOutcome::Close)));
}

#[test]
fn keep_http_10_connection_alive_when_asked_to() {
    let asking = || {
        let mut req = plain(());
        req.version = Version::Http10;
        req.headers
            .insert("connection", http::HeaderValue::from_static("keep-alive"));
        req
    };
    let (conn, res) = carried(1, asking, &mut Lolwut);

    assert_eq!(res.body.into_bytes().unwrap(), b"lolwut");
    assert!(matches!(conn, ConnectionOutcome::KeepAlive(_)));

    let silent = || {
        let mut req = plain(());
        req.version = Version::Http10;
        req
    };
    let (conn, res) = carried(conn.unwrap(), silent, &mut Lolwut);

    assert_eq!(res.body.into_bytes().unwrap(), b"lolwut");
    assert!(matches!(conn, ConnectionOutcome::Close));
}

#[test]
fn send_leaves_what_follows_the_response() {
    let mut out = Vec::new();
    let mut reply = Input::new(
        b"HTTP/1.1 200 OK\r\ncontent-length: 11\r\n\r\nHello worldHTTP/1.1 200 OK\r\n".to_vec(),
    );
    let (conn, res) = send(1_u8, request("/", "Hello world"), &mut out, &mut reply).unwrap();
    assert_eq!(
        out,
        b"POST / HTTP/1.1\r\ncontent-length: 11\r\n\r\nHello world"
    );
    assert_eq!(res.body.into_bytes().unwrap(), b"Hello world");
    assert!(matches!(conn, ConnectionOutcome::KeepAlive(1)));
    assert_eq!(reply.available(), 17);
    assert_eq!(conn.unwrap(), 1);

    let mut reply = Input::new(Vec::new());
    assert!(matches!(
        send(1_u8, request("/", "lol"), &mut out, &mut reply),
        Err(SendError::Parse(ParseError::ConnectionClosed))
    ));
}

#[test]
fn send_fails_as_writing_or_parsing_does() {
    let mut out = Vec::new();
    let mut reply = Input::new(b"HTTP/1.1 200 OK\r\n\r\n".to_vec());
    let mut req = request("/", "lol");
    req.headers
        .insert("content-length", http::HeaderValue::from_static("7"));
    let sent = send(1_u8, req, &mut out, &mut reply);
    assert!(matches!(
        sent,
        Err(SendError::Write(WriteError::FramingMismatch))
    ));
    assert!(out.is_empty());
    assert_eq!(reply.available(), 19);

    let mut reply = Input::new(b"HTTP/1.1 2".to_vec());
    let sent = send(1_u8, request("/", "lol"), &mut out, &mut reply);
    assert!(matches!(
        sent,
        Err(SendError::Parse(ParseError::IncompleteRequest))
    ));
    assert!(!out.is_empty());
}

#[test]
fn outcome_of_a_connection() {
    let response = |code: u16, connection: Option<&'static str>| {
        let mut headers = http::HeaderMap::new();
        if let Some(value) = connection {
            headers.insert("connection", http::HeaderValue::from_static(value));
        }
        Response::<(), ()> {
            status: StatusCode::from_u16(code).unwrap(),
            version: Version::Http11,
            headers,
            upgrade: None,
            body: (),
        }
    };
    assert!(matches!(
        connection_outcome(5, &response(200, None)),
        ConnectionOutcome::KeepAlive(5)
    ));
    assert!(matches!(
        connection_outcome(5, &response(101, None)),
        ConnectionOutcome::Upgrade(5)
    ));
    assert!(matches!(
        connection_outcome(5, &response(101, Some("close"))),
        ConnectionOutcome::Close
    ));
    assert!(matches!(
        connection_outcome(5, &response(200, Some("upgrade"))),
        ConnectionOutcome::KeepAlive(5)
    ));
    let upgraded = connection_outcome(5, &response(101, None));
    assert!(!upgraded.closed());
    assert_eq!(upgraded.into_inner().ok(), Some(5));
}

#[test]
fn targets_of_requests() {
    let target = target_of(&Uri::from_bytes(b"http://Example.com:8080/a").unwrap()).unwrap();
    assert_eq!(target.authority, b"example.com:8080");
    assert_eq!(target.host, b"Example.com");
    assert_eq!(target.port, 8080);
    let target = target_of(&Uri::from_bytes(b"http://localhost").unwrap()).unwrap();
    assert_eq!(target.authority, b"localhost");
    assert_eq!(target.host, b"localhost");
    assert_eq!(target.port, 80);
    assert!(matches!(
        target_of(&Uri::from_bytes(b"/a").unwrap()),
        Err(touche::client::RequestError::InvalidUri)
    ));
    assert_eq!(to_lower(&b"aZ09-[]@`{".to_vec()), b"az09-[]@`{");
}

#[test]
fn names_the_host() {
    let mut req = request("http://localhost/", "lol");
    req.headers
        .insert("host", http::HeaderValue::from_static("old"));
    req.headers
        .append("host", http::HeaderValue::from_static("older"));
    assert!(name_host(&mut req, &b"localhost".to_vec()));
    assert_eq!(req.headers.len(), 1);
    assert_eq!(req.headers.get("host").unwrap(), "localhost");
    assert!(!name_host(&mut req, &b"bad\nhost".to_vec()));
    assert_eq!(req.headers.get("host").unwrap(), "localhost");
    assert_eq!(HttpBody::len(&req.body), Some(3));
}

#[test]
fn client_keeps_one_connection_for_each_authority() {
    let mut client = Client::new();
    assert_eq!(client.checkout(&b"a".to_vec()), None);
    client.keep(b"a".to_vec(), 1);
    client.keep(b"b".to_vec(), 2);
    client.keep(b"a".to_vec(), 3);
    assert_eq!(client.checkout(&b"a".to_vec()), Some(3));
    assert_eq!(client.checkout(&b"a".to_vec()), None);
    assert_eq!(client.checkout(&b"b".to_vec()), Some(2));
    assert_eq!(client.checkout(&b"b".to_vec()), None);

    let mut response = Response::<Body, u8> {
        status: StatusCode::ok(),
        version: Version::Http11,
        headers: http::HeaderMap::new(),
        upgrade: None,
        body: Body::empty(),
    };
    client.checkin(b"a".to_vec(), ConnectionOutcome::Close, &mut response);
    assert_eq!(client.checkout(&b"a".to_vec()), None);
    assert_eq!(response.upgrade, None);
    client.checkin(b"a".to_vec(), ConnectionOutcome::KeepAlive(4), &mut response);
    assert_eq!(response.upgrade, None);
    assert_eq!(client.checkout(&b"a".to_vec()), Some(4));
    client.checkin(b"a".to_vec(), ConnectionOutcome::Upgrade(5), &mut response);
    assert_eq!(client.checkout(&b"a".to_vec()), None);
    assert_eq!(response.upgrade, Some(5));
    assert_eq!(into_upgraded(response.upgrade), Ok(5));
    assert_eq!(
        into_upgraded::<u8>(None),
        Err(ClientUpgradeError::ConnectionNotUpgradable)
    );
    assert_eq!(
        ClientUpgradeError::ConnectionNotUpgradable.message(),
        "connection not upgradable"
    );
}

struct Echo;

impl Service for Echo {
    type Body = Body;
    type Upgrade = ();
    type Error = ();

    fn call(&mut self, request: Request<Body>) -> Result<Response<Body, ()>, ()> {
        Ok(Response {
            status: StatusCode::ok(),
            version: Version::Http11,
            headers: http::HeaderMap::new(),
            upgrade: None,
            body: request.body,
        })
    }
}

#[test]
fn test_client() {
    let mut client: Client<u32> = Client::new();
    let mut opened = 0;

    for text in ["Hello world", "Bye world"] {
        let mut req = request("http://localhost:4444", text);
        let target = target_of(&req.uri).unwrap();
        assert_eq!(target.host, b"localhost");
        assert_eq!(target.port, 4444);
        let connection = match client.checkout(&target.authority) {
            Some(connection) => connection,
            None => {
                opened += 1;
                opened
            }
        };
        assert!(name_host(&mut req, &target.host));

        let mut wire = Vec::new();
        write_request(req, &mut wire).unwrap();
        let mut reply = Vec::new();
        assert!(matches!(
            serve(&mut Input::new(wire), &mut reply, &mut Echo, 0),
            Ok(None)
        ));

        let mut res = parse_response::<u32>(&mut Input::new(reply)).unwrap();
        let outcome = connection_outcome(connection, &res);
        client.checkin(target.authority, outcome, &mut res);
        assert_eq!(res.body.into_bytes().unwrap(), text.as_bytes());
    }

    assert_eq!(opened, 1);
    assert_eq!(client.checkout(&b"localhost:4444".to_vec()), Some(1));
}
