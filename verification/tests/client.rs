use http::header::HeaderMap;
use tiny_http::client::{
    parse_http_version, parse_request_line, read_next_line, ClientConnection, IoErrorKind, Next,
    ReadError,
};
use tiny_http::request::{target_is_accepted, BodyFraming};
use tiny_http::response::Response;
use tiny_http::version::HTTPVersion;

const NOW: u64 = 420895020;

fn serve(connection: &mut ClientConnection, source: &[u8]) -> (tiny_http::request::Request, usize) {
    match connection.next(source) {
        (Next::Serve(request), n) => (request, n),
        (Next::Closed, _) => panic!("closed"),
        (Next::Reject { response, .. }, _) => {
            panic!("rejected with {}", response.status_code().as_u16())
        }
    }
}

fn reject(connection: &mut ClientConnection, source: &[u8]) -> String {
    match connection.next(source) {
        (Next::Reject { response, http_version, do_not_send_body }, _) => {
            let mut out = Vec::new();
            response
                .raw_print_at(&mut out, http_version, &HeaderMap::new(), do_not_send_body, None, NOW)
                .unwrap();
            String::from_utf8(out).unwrap()
        }
        (Next::Serve(_), _) => panic!("served"),
        (Next::Closed, _) => panic!("closed"),
    }
}

#[test]
fn test_parse_request_line() {
    let (method, path, ver) = parse_request_line("GET /hello HTTP/1.1").unwrap();

    assert!(method.as_bytes() == b"GET");
    assert!(path == b"/hello");
    assert!(ver == HTTPVersion(1, 1));

    assert!(parse_request_line("GET /hello").is_err());
    assert!(parse_request_line("qsd qsd qsd").is_err());
}

#[test]
fn request_line_has_exactly_three_parts() {
    assert_eq!(
        parse_request_line("GET /hello HTTP/1.1 extra").unwrap_err(),
        ReadError::WrongRequestLine
    );
    assert!(parse_request_line("GET  /hello HTTP/1.1").is_err());
    assert!(parse_request_line("").is_err());
    assert!(parse_request_line("G(T / HTTP/1.1").is_err());
    assert!(parse_request_line("GET / HTTP/1.2").is_err());
    assert!(parse_request_line("GET / http/1.1").is_err());
    let (method, path, version) = parse_request_line("PURGE * HTTP/1.0").unwrap();
    assert_eq!(method.as_bytes(), b"PURGE");
    assert_eq!(path, b"*");
    assert_eq!(version, HTTPVersion(1, 0));
}

#[test]
fn versions_that_are_known() {
    assert_eq!(parse_http_version(b"HTTP/0.9"), Ok(HTTPVersion(0, 9)));
    assert_eq!(parse_http_version(b"HTTP/1.0"), Ok(HTTPVersion(1, 0)));
    assert_eq!(parse_http_version(b"HTTP/1.1"), Ok(HTTPVersion(1, 1)));
    assert_eq!(parse_http_version(b"HTTP/2.0"), Ok(HTTPVersion(2, 0)));
    assert_eq!(parse_http_version(b"HTTP/3.0"), Ok(HTTPVersion(3, 0)));
    assert_eq!(parse_http_version(b"HTTP/2"), Err(ReadError::WrongRequestLine));
}

#[test]
fn lines_end_at_the_first_line_break() {
    let source = b"first\r\nsecond\r\r\n\r\nrest";
    let (line, next) = read_next_line(source, 0).unwrap();
    assert_eq!(line.as_str(), "first");
    assert_eq!(next, 7);
    let (line, next) = read_next_line(source, next).unwrap();
    assert_eq!(line.as_str(), "second\r");
    assert_eq!(next, 16);
    let (line, next) = read_next_line(source, next).unwrap();
    assert_eq!(line.as_str(), "");
    assert_eq!(next, 18);
    assert_eq!(read_next_line(source, next).unwrap_err(), IoErrorKind::ConnectionAborted);
    assert_eq!(read_next_line(b"caf\xc3\xa9\r\n", 0).unwrap_err(), IoErrorKind::InvalidInput);
    assert_eq!(read_next_line(b"caf\xc3\xa9", 0).unwrap_err(), IoErrorKind::ConnectionAborted);
    assert_eq!(read_next_line(b"\n\r", 0).unwrap_err(), IoErrorKind::ConnectionAborted);
}

#[test]
fn simple_get() {
    let mut connection = ClientConnection::new(false);
    let source = b"GET /hello HTTP/1.1\r\nHost: x\r\n\r\n";
    let (request, n) = serve(&mut connection, source);
    assert_eq!(n, source.len());
    assert_eq!(request.method().as_bytes(), b"GET");
    assert_eq!(request.url(), b"/hello");
    assert_eq!(*request.http_version(), HTTPVersion(1, 1));
    assert_eq!(request.headers().get("host").unwrap(), "x");
    assert_eq!(request.body_framing(), BodyFraming::Length(0));
    assert!(!request.secure());
    assert!(!request.expects_continue());
    let mut wire = Vec::new();
    request.respond_at(Response::from_string("hi"), &mut wire, NOW).unwrap();
    let wire = String::from_utf8(wire).unwrap();
    assert!(wire.starts_with("HTTP/1.1 200 OK\r\n"));
    assert!(wire.contains("Content-Type: text/plain; charset=UTF-8\r\n"));
    assert!(wire.contains("Content-Length: 2\r\n"));
    assert!(wire.ends_with("\r\n\r\nhi"));
    // the connection stays open
    assert!(!connection.no_more_requests());
}

#[test]
fn pipelined_requests_are_read_in_order() {
    let mut connection = ClientConnection::new(true);
    let source = b"GET /a HTTP/1.1\r\nHost: x\r\n\r\nGET /b HTTP/1.1\r\nHost: x\r\n\r\n";
    let (first, n) = serve(&mut connection, source);
    assert_eq!(first.url(), b"/a");
    assert!(first.secure());
    let (second, m) = serve(&mut connection, &source[n..]);
    assert_eq!(second.url(), b"/b");
    assert_eq!(n + m, source.len());
    assert!(matches!(connection.next(&source[n + m..]), (Next::Closed, 0)));
    // the stream ended between two requests: the connection closes in silence
    assert!(connection.no_more_requests());
}

#[test]
fn http_1_0_closes_by_default() {
    let mut connection = ClientConnection::new(false);
    let (request, _) = serve(&mut connection, b"GET / HTTP/1.0\r\n\r\n");
    assert_eq!(*request.http_version(), HTTPVersion(1, 0));
    assert!(connection.no_more_requests());
    let mut wire = Vec::new();
    request.respond_at(Response::from_string("x"), &mut wire, NOW).unwrap();
    assert!(String::from_utf8(wire).unwrap().starts_with("HTTP/1.0 200 OK\r\n"));
    assert!(matches!(connection.next(b"GET / HTTP/1.0\r\n\r\n"), (Next::Closed, 0)));
    assert!(matches!(connection.next(b""), (Next::Closed, 0)));
}

#[test]
fn connection_header_decides_reuse() {
    let cases: [(&[u8], bool); 8] = [
        (b"GET / HTTP/1.0\r\nConnection: keep-alive\r\n\r\n", false),
        (b"GET / HTTP/1.0\r\nConnection: Keep-Alive, x\r\n\r\n", false),
        (b"GET / HTTP/1.0\r\nConnection: other\r\n\r\n", true),
        (b"GET / HTTP/1.1\r\nConnection: close\r\n\r\n", true),
        (b"GET / HTTP/1.1\r\nConnection: keep-alive, Close\r\n\r\n", true),
        (b"GET / HTTP/1.1\r\nConnection: Upgrade\r\nUpgrade: websocket\r\n\r\n", true),
        (b"GET / HTTP/1.1\r\nConnection: other\r\n\r\n", false),
        (b"GET / HTTP/1.1\r\n\r\n", false),
    ];
    for (source, closes) in cases {
        let mut connection = ClientConnection::new(false);
        serve(&mut connection, source);
        assert_eq!(connection.no_more_requests(), closes, "{:?}", String::from_utf8_lossy(source));
    }
}

#[test]
fn expect_100_continue_is_armed_until_the_body_is_read() {
    let mut connection = ClientConnection::new(false);
    let source = b"POST /up HTTP/1.1\r\nContent-Length: 3\r\nExpect: 100-continue\r\n\r\n";
    let (mut request, n) = serve(&mut connection, source);
    assert_eq!(n, source.len());
    assert_eq!(request.body_framing(), BodyFraming::Length(3));
    // nothing is sent until the application reads the body
    assert!(request.expects_continue());
    assert_eq!(request.as_reader().unwrap(), b"HTTP/1.1 100 Continue\r\n\r\n");
    assert!(!request.expects_continue());
    assert!(request.as_reader().is_none());
    let mut wire = Vec::new();
    request.respond_at(Response::from_string("ok"), &mut wire, NOW).unwrap();
    assert!(String::from_utf8(wire).unwrap().starts_with("HTTP/1.1 200 OK\r\n"));
}

#[test]
fn other_expectations_fail() {
    let mut connection = ClientConnection::new(false);
    let wire = reject(
        &mut connection,
        b"POST /up HTTP/1.0\r\nExpect: the-impossible\r\n\r\n",
    );
    assert!(wire.starts_with("HTTP/1.0 417 Expectation Failed\r\n"));
    assert!(wire.ends_with("\r\n\r\n"));
    assert!(connection.no_more_requests());
    let connection = ClientConnection::new(false);
    assert_eq!(
        connection.read(b"POST /up HTTP/1.1\r\nExpect: 100-Continue\r\n\r\n").map(|(r, _)| r.expects_continue()),
        Ok(true)
    );
}

#[test]
fn wrong_request_line_is_answered_with_400() {
    let mut connection = ClientConnection::new(false);
    let wire = reject(&mut connection, b"GET /hello\r\nHost: x\r\n\r\n");
    assert!(wire.starts_with("HTTP/1.1 400 Bad Request\r\n"));
    assert!(wire.contains("Content-Length: 0\r\n"));
    assert!(connection.no_more_requests());
    assert!(matches!(connection.next(b"GET / HTTP/1.1\r\n\r\n"), (Next::Closed, 0)));
}

#[test]
fn wrong_header_is_answered_with_400_in_the_request_version() {
    let table: [&[u8]; 5] = [
        b"Transfer-Encoding : chunked",
        b" Transfer-Encoding: chunked",
        b"Transfer Encoding: chunked",
        b" Transfer\tEncoding : chunked",
        b"no colon",
    ];
    for line in table {
        let mut source = b"POST / HTTP/1.0\r\n".to_vec();
        source.extend_from_slice(line);
        source.extend_from_slice(b"\r\n\r\n");
        let connection = ClientConnection::new(false);
        assert_eq!(
            connection.read(&source).map(|_| ()).unwrap_err(),
            ReadError::WrongHeader(HTTPVersion(1, 0)),
            "{:?}",
            String::from_utf8_lossy(line)
        );
        let mut connection = ClientConnection::new(false);
        let wire = reject(&mut connection, &source);
        assert!(wire.starts_with("HTTP/1.0 400 Bad Request\r\n"));
    }
}

#[test]
fn strict_headers_that_are_accepted() {
    let table: [(&[u8], &str, &str); 5] = [
        (b"Transfer-Encoding: chunked", "transfer-encoding", "chunked"),
        (b"Transfer-Encoding: chunked ", "transfer-encoding", "chunked"),
        (b"Transfer-Encoding:   chunked ", "transfer-encoding", "chunked"),
        (b"Time: 20: 34", "time", "20: 34"),
        (b"Content-Type: text/html", "content-type", "text/html"),
    ];
    for (line, name, value) in table {
        let mut source = b"POST / HTTP/1.1\r\n".to_vec();
        source.extend_from_slice(line);
        source.extend_from_slice(b"\r\n\r\n");
        let connection = ClientConnection::new(false);
        let (request, n) = connection.read(&source).unwrap();
        assert_eq!(n, source.len());
        assert_eq!(request.headers().get(name).unwrap(), value);
        assert_eq!(request.headers().len(), 1);
    }
}

#[test]
fn unsupported_version_is_answered_with_505() {
    for version in ["HTTP/0.9", "HTTP/2.0", "HTTP/3.0"] {
        let mut connection = ClientConnection::new(false);
        let source = format!("GET / {}\r\nConnection: keep-alive\r\n\r\nGET / HTTP/1.1\r\n\r\n", version);
        let wire = reject(&mut connection, source.as_bytes());
        assert!(wire.starts_with("HTTP/1.1 505 HTTP Version Not Supported\r\n"), "{}", version);
        assert!(wire.ends_with("\r\n\r\nThis server only supports HTTP versions 1.0 and 1.1"));
        // the connection is closed, and what follows is not read
        assert!(connection.no_more_requests());
        assert!(matches!(connection.next(b"GET / HTTP/1.1\r\n\r\n"), (Next::Closed, 0)));
    }
}

#[test]
fn repeated_names_do_not_count_against_the_limit() {
    let mut source = b"GET / HTTP/1.1\r\n".to_vec();
    for i in 0..5000 {
        source.extend_from_slice(format!("X-Item: {}\r\n", i).as_bytes());
    }
    source.extend_from_slice(b"\r\n");
    let connection = ClientConnection::new(false);
    let (request, n) = connection.read(&source).unwrap();
    assert_eq!(n, source.len());
    assert_eq!(request.headers().keys_len(), 1);
    assert_eq!(request.headers().len(), 5000);
}

#[test]
fn names_beyond_the_limit_are_a_wrong_header() {
    let mut source = b"GET / HTTP/1.1\r\n".to_vec();
    for i in 0..4095 {
        source.extend_from_slice(format!("X-{}: v\r\n", i).as_bytes());
    }
    let mut full = source.clone();
    full.extend_from_slice(b"x-0: again\r\n\r\n");
    let connection = ClientConnection::new(false);
    let (request, _) = connection.read(&full).unwrap();
    assert_eq!(request.headers().keys_len(), 4095);
    assert_eq!(request.headers().len(), 4096);
    source.extend_from_slice(b"X-One-More: v\r\n\r\n");
    assert_eq!(
        connection.read(&source).map(|_| ()).unwrap_err(),
        ReadError::WrongHeader(HTTPVersion(1, 1))
    );
}

#[test]
fn plain_paths_are_targets() {
    assert!(target_is_accepted(b"/"));
    assert!(target_is_accepted(b"/hello"));
    assert!(target_is_accepted(b"/a/b-c.d_e~f/0123456789/XYZ"));
    assert!(target_is_accepted(&vec![b'/'; 65534]));
    assert!(!target_is_accepted(&vec![b'/'; 65535]));
    assert!(!target_is_accepted(b""));
    assert!(!target_is_accepted(b"/a b"));
    assert!(target_is_accepted(b"/search?q=1"));
    assert!(target_is_accepted(b"*"));
}

#[test]
fn read_errors() {
    let connection = ClientConnection::new(false);
    assert_eq!(
        connection.read(b"GET / HTTP/1.1\r\nHost: x\r\n").map(|_| ()).unwrap_err(),
        ReadError::ReadIoError(IoErrorKind::ConnectionAborted)
    );
    assert_eq!(
        connection.read(b"GET / HTTP/1.1\r\nHost: \xff\r\n\r\n").map(|_| ()).unwrap_err(),
        ReadError::ReadIoError(IoErrorKind::InvalidInput)
    );
    assert_eq!(
        connection.read(b"GET / HTTP/1.1\r\nHost: a\x01b\r\n\r\n").map(|_| ()).unwrap_err(),
        ReadError::WrongHeader(HTTPVersion(1, 1))
    );
    // a request line is read without the white space around it
    assert!(connection.read(b"  GET / HTTP/1.1 \r\n\r\n").is_ok());
}

#[test]
fn timeouts_are_answered_with_408_and_other_failures_with_silence() {
    let mut connection = ClientConnection::new(false);
    match connection.decide(Err(ReadError::ReadIoError(IoErrorKind::TimedOut))) {
        Next::Reject { response, http_version, do_not_send_body } => {
            assert_eq!(response.status_code().as_u16(), 408);
            assert_eq!(http_version, HTTPVersion(1, 1));
            assert!(!do_not_send_body);
        }
        _ => panic!("not rejected"),
    }
    assert!(connection.no_more_requests());
    let mut connection = ClientConnection::new(false);
    assert!(matches!(
        connection.decide(Err(ReadError::ReadIoError(IoErrorKind::Other))),
        Next::Closed
    ));
    assert!(connection.no_more_requests());
}

#[test]
fn chunked_wins_over_content_length() {
    let connection = ClientConnection::new(false);
    let (request, _) = connection
        .read(b"POST / HTTP/1.1\r\nContent-Length: 10\r\nTransfer-Encoding: Chunked\r\n\r\n")
        .unwrap();
    assert_eq!(request.body_framing(), BodyFraming::Chunked);
    let (request, _) = connection
        .read(b"POST / HTTP/1.1\r\nTransfer-Encoding: gzip\r\nTransfer-Encoding: chunked\r\nContent-Length: 10\r\n\r\n")
        .unwrap();
    assert_eq!(request.body_framing(), BodyFraming::Chunked);
    let (request, _) = connection
        .read(b"POST / HTTP/1.1\r\nContent-Length: 10\r\n\r\n")
        .unwrap();
    assert_eq!(request.body_framing(), BodyFraming::Length(10));
    let (request, _) = connection
        .read(b"POST / HTTP/1.1\r\nContent-Length: ten\r\n\r\n")
        .unwrap();
    assert_eq!(request.body_framing(), BodyFraming::Length(0));
    let (request, _) = connection.read(b"POST / HTTP/1.1\r\n\r\n").unwrap();
    assert_eq!(request.body_framing(), BodyFraming::Length(0));
}

#[test]
fn head_requests_get_no_body() {
    let connection = ClientConnection::new(false);
    let (request, _) = connection.read(b"HEAD / HTTP/1.1\r\n\r\n").unwrap();
    assert!(request.method().is_head());
    let mut wire = Vec::new();
    request.respond_at(Response::from_string("hello"), &mut wire, NOW).unwrap();
    assert!(String::from_utf8(wire).unwrap().ends_with("Content-Length: 5\r\n\r\n"));
}

#[test]
fn upgrade_through_the_request() {
    let mut connection = ClientConnection::new(false);
    let source = b"GET /chat HTTP/1.1\r\nConnection: Upgrade\r\nUpgrade: websocket\r\nSec-WebSocket-Key: dGhlIHNhbXBsZSBub25jZQ==\r\n\r\n";
    let (request, _) = serve(&mut connection, source);
    assert!(connection.no_more_requests());
    assert_eq!(
        request.headers().get("sec-websocket-key").unwrap(),
        "dGhlIHNhbXBsZSBub25jZQ=="
    );
    let status = tiny_http::status::StatusCode::from_u16(101).unwrap();
    let mut wire = Vec::new();
    request
        .upgrade_at("websocket", Response::empty(status), &mut wire, NOW)
        .unwrap();
    assert_eq!(
        String::from_utf8(wire).unwrap(),
        "HTTP/1.1 101 Switching Protocols\r\nUpgrade: websocket\r\nConnection: Upgrade\r\nDate: Wed, 04 May 1983 11:17:00 GMT\r\nServer: tiny-http\r\n\r\n"
    );
}

#[test]
fn respond_and_upgrade_read_the_clock() {
    let connection = ClientConnection::new(false);
    let (request, _) = connection.read(b"GET / HTTP/1.1\r\n\r\n").unwrap();
    let mut wire = Vec::new();
    request.respond(Response::from_string("hi"), &mut wire).unwrap();
    assert!(wire.ends_with(b"\r\n\r\nhi"));
    let (request, _) = connection.read(b"GET / HTTP/1.1\r\n\r\n").unwrap();
    let mut wire = Vec::new();
    let status = tiny_http::status::StatusCode::from_u16(101).unwrap();
    request.upgrade("chat", Response::empty(status), &mut wire).unwrap();
    assert!(wire.starts_with(b"HTTP/1.1 101 Switching Protocols\r\nUpgrade: chat\r\nConnection: Upgrade\r\n"));
}

#[test]
fn header_names_are_kept_in_lower_case_and_grouped() {
    let connection = ClientConnection::new(false);
    let (request, _) = connection
        .read(b"GET / HTTP/1.1\r\nX-A: 1\r\nX-B: 2\r\nx-a: 3\r\n\r\n")
        .unwrap();
    let pairs: Vec<(String, String)> = request
        .headers()
        .iter()
        .map(|(n, v)| (n.as_str().to_owned(), v.to_str().unwrap().to_owned()))
        .collect();
    assert_eq!(
        pairs,
        vec![
            ("x-a".to_owned(), "1".to_owned()),
            ("x-a".to_owned(), "3".to_owned()),
            ("x-b".to_owned(), "2".to_owned())
        ]
    );
}

#[test]
fn request_target_must_be_a_uri() {
    for line in ["GET http:// HTTP/1.1", "GET htt:p//host HTTP/1.1", "GET hyper.rs/ HTTP/1.1"] {
        assert_eq!(parse_request_line(line).map(|_| ()).unwrap_err(), ReadError::WrongRequestLine);
    }
    for line in ["GET http://host/a?b=c HTTP/1.1", "CONNECT host:443 HTTP/1.1", "OPTIONS * HTTP/1.1"] {
        assert!(parse_request_line(line).is_ok(), "{}", line);
    }
}
