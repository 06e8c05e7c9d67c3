use http::header::{HeaderMap, HeaderName, HeaderValue};
use tiny_http::headers::{append, contains, names_len, new_map, parse_name, parse_value};
use tiny_http::response::{PrintError, Response};
use tiny_http::status::StatusCode;
use tiny_http::version::HTTPVersion;

const NOW: u64 = 420895020;
const DATE: &str = "Wed, 04 May 1983 11:17:00 GMT";

fn text(bytes: &[u8]) -> String {
    String::from_utf8_lossy(bytes).into_owned()
}

fn print(
    response: Response,
    version: HTTPVersion,
    request_headers: &HeaderMap,
    do_not_send_body: bool,
    upgrade: Option<&str>,
) -> Vec<u8> {
    let mut out = Vec::new();
    response
        .raw_print_at(&mut out, version, request_headers, do_not_send_body, upgrade, NOW)
        .unwrap();
    out
}

#[test]
fn simple_get_response_on_the_wire() {
    let out = print(Response::from_string("hi"), HTTPVersion(1, 1), &HeaderMap::new(), false, None);
    let expected = format!(
        "HTTP/1.1 200 OK\r\nContent-Type: text/plain; charset=UTF-8\r\nDate: {}\r\nServer: tiny-http\r\nContent-Length: 2\r\n\r\nhi",
        DATE
    );
    assert_eq!(text(&out), expected);
}

#[test]
fn chunked_response_for_unknown_length() {
    let body = vec![b'x'; 100_000];
    let response = Response::from_data(body.clone()).with_data(body, None);
    let out = print(response, HTTPVersion(1, 1), &HeaderMap::new(), false, None);
    let head_end = out.windows(4).position(|w| w == b"\r\n\r\n").unwrap() + 4;
    let head = text(&out[..head_end]);
    assert!(head.contains("Transfer-Encoding: chunked\r\n"));
    assert!(!head.to_ascii_lowercase().contains("content-length"));
    assert!(out.ends_with(b"0\r\n\r\n"));
    // twelve chunks of 8192 bytes, one of 1696, and the terminator
    assert!(out[head_end..].starts_with(b"2000\r\n"));
    let body_len = 12 * (6 + 8192 + 2) + (5 + 1696 + 2) + 5;
    assert_eq!(out.len() - head_end, body_len);
    let last_chunk_at = head_end + 12 * (6 + 8192 + 2);
    assert!(out[last_chunk_at..].starts_with(b"6a0\r\n"));
}

#[test]
fn upgrade_handshake_on_the_wire() {
    let response = Response::empty(StatusCode::from_u16(101).unwrap())
        .with_header(
            HeaderName::from_static("upgrade"),
            HeaderValue::from_static("websocket"),
        )
        .with_header(
            HeaderName::from_static("connection"),
            HeaderValue::from_static("Upgrade"),
        )
        .with_header(
            HeaderName::from_static("sec-websocket-accept"),
            HeaderValue::from_static("s3pPLMBiTxaQ9kYGzzhZRbK+xOo="),
        );
    let out = print(response, HTTPVersion(1, 1), &HeaderMap::new(), false, Some("websocket"));
    let expected = format!(
        "HTTP/1.1 101 Switching Protocols\r\nUpgrade: websocket\r\nConnection: Upgrade\r\nSec-Websocket-Accept: s3pPLMBiTxaQ9kYGzzhZRbK+xOo=\r\nDate: {}\r\nServer: tiny-http\r\n\r\n",
        DATE
    );
    assert_eq!(text(&out), expected);
}

#[test]
fn forbidden_headers_are_dropped() {
    let mut response = Response::from_data(b"abc".to_vec());
    for name in ["connection", "trailer", "transfer-encoding", "upgrade"] {
        response.add_header(HeaderName::from_static(name), HeaderValue::from_static("x"));
    }
    assert_eq!(response.headers().len(), 0);
    let out = print(response, HTTPVersion(1, 1), &HeaderMap::new(), false, None);
    let lower = text(&out).to_ascii_lowercase();
    assert!(!lower.contains("connection:"));
    assert!(!lower.contains("trailer:"));
    assert!(!lower.contains("transfer-encoding:"));
    assert!(!lower.contains("upgrade:"));
}

#[test]
fn content_length_header_sets_the_length() {
    let mut response = Response::from_data(b"abcdef".to_vec());
    response.add_header(
        HeaderName::from_static("content-length"),
        HeaderValue::from_static("4"),
    );
    assert_eq!(response.data_length(), Some(4));
    assert_eq!(response.headers().len(), 0);
    response.add_header(
        HeaderName::from_static("content-length"),
        HeaderValue::from_static("four"),
    );
    assert_eq!(response.data_length(), Some(4));
    let out = print(response, HTTPVersion(1, 1), &HeaderMap::new(), false, None);
    assert!(text(&out).ends_with("Content-Length: 4\r\n\r\nabcd"));
}

#[test]
fn content_type_is_replaced_and_others_are_added() {
    let response = Response::from_string("x")
        .with_header(
            HeaderName::from_static("content-type"),
            HeaderValue::from_static("text/html"),
        )
        .with_header(HeaderName::from_static("x-a"), HeaderValue::from_static("1"))
        .with_header(HeaderName::from_static("x-b"), HeaderValue::from_static("2"))
        .with_header(HeaderName::from_static("x-a"), HeaderValue::from_static("3"));
    let out = print(response, HTTPVersion(1, 1), &HeaderMap::new(), false, None);
    let expected = format!(
        "HTTP/1.1 200 OK\r\nContent-Type: text/html\r\nX-A: 1\r\nX-A: 3\r\nX-B: 2\r\nDate: {}\r\nServer: tiny-http\r\nContent-Length: 1\r\n\r\nx",
        DATE
    );
    assert_eq!(text(&out), expected);
}

#[test]
fn no_body_for_statuses_without_one() {
    for code in [100u16, 101, 199, 204, 304] {
        let response = Response::from_data(b"body".to_vec())
            .with_status_code(StatusCode::from_u16(code).unwrap());
        let out = print(response, HTTPVersion(1, 1), &HeaderMap::new(), false, None);
        assert!(out.ends_with(b"\r\n\r\n"), "status {}", code);
        assert!(!text(&out).contains("body"));
    }
}

#[test]
fn head_request_gets_no_body() {
    let out = print(Response::from_string("hello"), HTTPVersion(1, 1), &HeaderMap::new(), true, None);
    assert!(text(&out).ends_with("Content-Length: 5\r\n\r\n"));
}

#[test]
fn http_1_0_is_never_chunked() {
    let body = vec![b'y'; 40_000];
    let response = Response::from_data(body.clone()).with_data(body, None);
    let out = print(response, HTTPVersion(1, 0), &HeaderMap::new(), false, None);
    let s = text(&out);
    assert!(s.starts_with("HTTP/1.0 200 OK\r\n"));
    assert!(s.contains("Content-Length: 40000\r\n"));
    assert!(!s.contains("Transfer-Encoding"));
    assert_eq!(out.len(), s.find("\r\n\r\n").unwrap() + 4 + 40_000);
}

#[test]
fn threshold_decides_between_identity_and_chunked() {
    let at = Response::from_data(vec![b'z'; 32768]);
    let out = print(at, HTTPVersion(1, 1), &HeaderMap::new(), false, None);
    assert!(text(&out).contains("Transfer-Encoding: chunked\r\n"));
    let below = Response::from_data(vec![b'z'; 32767]);
    let out = print(below, HTTPVersion(1, 1), &HeaderMap::new(), false, None);
    assert!(text(&out).contains("Content-Length: 32767\r\n"));
    let small = Response::from_data(vec![b'z'; 10]).with_chunked_threshold(10);
    assert_eq!(small.chunked_threshold(), 10);
    let out = print(small, HTTPVersion(1, 1), &HeaderMap::new(), false, None);
    assert!(text(&out).ends_with("Transfer-Encoding: chunked\r\n\r\na\r\nzzzzzzzzzz\r\n0\r\n\r\n"));
}

#[test]
fn te_header_of_the_request_decides() {
    let mut request = HeaderMap::new();
    request.insert("te", HeaderValue::from_static("identity;q=0.5, chunked;q=0.8, gzip"));
    let out = print(Response::from_string("hi"), HTTPVersion(1, 1), &request, false, None);
    assert!(text(&out).ends_with("Transfer-Encoding: chunked\r\n\r\n2\r\nhi\r\n0\r\n\r\n"));

    let mut request = HeaderMap::new();
    request.insert("te", HeaderValue::from_static("chunked;q=0, IDENTITY ; q=0.001"));
    let body = vec![b'q'; 50_000];
    let out = print(Response::from_data(body), HTTPVersion(1, 1), &request, false, None);
    assert!(text(&out).contains("Content-Length: 50000\r\n"));

    // equal weights: the first entry wins
    let mut request = HeaderMap::new();
    request.insert("te", HeaderValue::from_static("identity, chunked"));
    let body = vec![b'q'; 50_000];
    let out = print(Response::from_data(body), HTTPVersion(1, 1), &request, false, None);
    assert!(text(&out).contains("Content-Length: 50000\r\n"));
}

#[test]
fn existing_date_and_server_are_kept() {
    let response = Response::empty(StatusCode::from_u16(404).unwrap())
        .with_header(HeaderName::from_static("date"), HeaderValue::from_static("then"))
        .with_header(HeaderName::from_static("server"), HeaderValue::from_static("mine"));
    let mut out = Vec::new();
    // with a date of its own the response does not need the clock
    response
        .raw_print_at(&mut out, HTTPVersion(1, 1), &HeaderMap::new(), false, None, u64::MAX)
        .unwrap();
    assert_eq!(
        text(&out),
        "HTTP/1.1 404 Not Found\r\nDate: then\r\nServer: mine\r\nContent-Length: 0\r\n\r\n"
    );
}

#[test]
fn print_errors() {
    let mut out = b"kept".to_vec();
    let r = Response::from_string("x").raw_print_at(
        &mut out,
        HTTPVersion(1, 1),
        &HeaderMap::new(),
        false,
        Some("web\nsocket"),
        NOW,
    );
    assert_eq!(r, Err(PrintError::InvalidUpgrade));
    assert_eq!(out, b"kept");
}

#[test]
fn a_date_that_cannot_be_written_is_left_out() {
    for now in [253402300800, u64::MAX] {
        let mut out = Vec::new();
        Response::from_string("x")
            .raw_print_at(&mut out, HTTPVersion(1, 1), &HeaderMap::new(), false, None, now)
            .unwrap();
        assert_eq!(
            text(&out),
            "HTTP/1.1 200 OK\r\nContent-Type: text/plain; charset=UTF-8\r\nServer: tiny-http\r\nContent-Length: 1\r\n\r\nx"
        );
    }
    let mut out = Vec::new();
    Response::from_string("x")
        .raw_print_at(&mut out, HTTPVersion(1, 1), &HeaderMap::new(), false, None, 253402300799)
        .unwrap();
    assert!(text(&out).contains("Date: Fri, 31 Dec 9999 23:59:59 GMT\r\n"));
}

#[test]
fn content_length_announces_what_is_sent() {
    // the declared length is above the body's
    let response = Response::from_data(b"abc".to_vec()).with_data(b"abc".to_vec(), Some(5));
    assert_eq!(response.data_length(), Some(5));
    let out = print(response, HTTPVersion(1, 1), &HeaderMap::new(), false, None);
    assert!(text(&out).ends_with("Content-Length: 3\r\n\r\nabc"));
    // and below it
    let response = Response::from_data(b"abc".to_vec()).with_data(b"abc".to_vec(), Some(2));
    let out = print(response, HTTPVersion(1, 1), &HeaderMap::new(), false, None);
    assert!(text(&out).ends_with("Content-Length: 2\r\n\r\nab"));
    // a request for the head alone gets the same announcement
    let response = Response::from_data(b"abc".to_vec()).with_data(b"abc".to_vec(), Some(5));
    let out = print(response, HTTPVersion(1, 1), &HeaderMap::new(), true, None);
    assert!(text(&out).ends_with("Content-Length: 3\r\n\r\n"));
}

#[test]
fn weights_with_many_digits() {
    let cases = [
        ("chunked;q=0.0000, identity;q=0.1", false),
        ("chunked;q=0.0001, identity;q=0", true),
        ("chunked;q=0.00010, identity;q=0.001", true),
        ("chunked;q=0.5009, identity;q=0.5", true),
        ("identity;q=0.5009, chunked;q=0.5", false),
        ("chunked;q=1.0000000, identity;q=0.999", true),
        ("chunked;q=0.0x, identity;q=0.5", true),
    ];
    for (te, chunked) in cases {
        let mut request = HeaderMap::new();
        request.insert("te", HeaderValue::from_static(te));
        let out = print(Response::from_string("hi"), HTTPVersion(1, 1), &request, false, None);
        assert_eq!(text(&out).contains("Transfer-Encoding: chunked"), chunked, "{}", te);
    }
}

#[test]
fn names_with_a_double_quote_pass_through() {
    let name = HeaderName::from_static("x\"quoted\"");
    let response = Response::from_string("hi").with_header(name, HeaderValue::from_static("v"));
    let out = print(response, HTTPVersion(1, 1), &HeaderMap::new(), false, None);
    assert!(text(&out).contains("\r\nX\"quoted\": v\r\n"));
}

#[test]
fn try_add_header_tests_the_room() {
    let mut response = full_response();
    assert!(!response.try_add_header(HeaderName::from_static("x-new"), HeaderValue::from_static("v")));
    assert_eq!(response.headers().keys_len(), 4092);
    assert!(response.try_add_header(HeaderName::from_static("x-1"), HeaderValue::from_static("w")));
    assert!(response.try_add_header(HeaderName::from_static("upgrade"), HeaderValue::from_static("w")));
    assert!(response.try_add_header(
        HeaderName::from_static("content-length"),
        HeaderValue::from_static("1")
    ));
    assert_eq!(response.data_length(), Some(1));
    assert_eq!(response.headers().keys_len(), 4092);
    assert_eq!(response.headers().len(), 4093);
    let mut small = Response::from_string("x");
    assert!(small.try_add_header(HeaderName::from_static("x-new"), HeaderValue::from_static("v")));
    assert_eq!(small.headers().get("x-new").unwrap(), "v");
}

#[test]
fn raw_print_reads_the_clock() {
    let mut out = Vec::new();
    Response::from_string("hi")
        .raw_print(&mut out, HTTPVersion(1, 1), &HeaderMap::new(), false, None)
        .unwrap();
    let s = text(&out);
    assert!(s.starts_with("HTTP/1.1 200 OK\r\n"));
    assert!(s.contains(" GMT\r\n"));
    assert!(s.ends_with("\r\n\r\nhi"));
}

#[test]
fn unknown_status_code_has_a_placeholder_reason() {
    let out = print(
        Response::empty(StatusCode::from_u16(799).unwrap()),
        HTTPVersion(1, 1),
        &HeaderMap::new(),
        false,
        None,
    );
    assert!(text(&out).starts_with("HTTP/1.1 799 <unknown status code>\r\n"));
    assert!(StatusCode::from_u16(99).is_none());
    assert!(StatusCode::from_u16(1000).is_none());
}

#[test]
fn new_adds_headers_with_all_checks() {
    let mut headers = HeaderMap::new();
    headers.append("x-one", HeaderValue::from_static("1"));
    headers.append("connection", HeaderValue::from_static("close"));
    headers.append("content-length", HeaderValue::from_static("2"));
    headers.append("x-one", HeaderValue::from_static("2"));
    let extra = vec![(HeaderName::from_static("x-two"), HeaderValue::from_static("3"))];
    let response = Response::new(
        StatusCode::from_u16(200).unwrap(),
        headers,
        b"abc".to_vec(),
        None,
        Some(extra),
    );
    assert_eq!(response.data_length(), Some(2));
    assert_eq!(response.status_code().as_u16(), 200);
    let names: Vec<(String, String)> = response
        .headers()
        .iter()
        .map(|(n, v)| (n.as_str().to_owned(), v.to_str().unwrap().to_owned()))
        .collect();
    assert_eq!(
        names,
        vec![
            ("x-one".to_owned(), "1".to_owned()),
            ("x-one".to_owned(), "2".to_owned()),
            ("x-two".to_owned(), "3".to_owned())
        ]
    );
    assert_eq!(response.into_reader(), b"abc");
}

#[test]
fn content_length_is_the_number_of_body_bytes() {
    for n in [0usize, 1, 9, 10, 99, 100, 12345] {
        let out = print(
            Response::from_data(vec![b'b'; n]),
            HTTPVersion(1, 1),
            &HeaderMap::new(),
            false,
            None,
        );
        let s = text(&out);
        let split = s.find("\r\n\r\n").unwrap();
        assert!(s[..split].ends_with(&format!("Content-Length: {}", n)));
        assert_eq!(s.len() - split - 4, n);
    }
}

#[test]
fn copies_of_a_response_print_alike() {
    let response = Response::from_string("copy")
        .with_header(HeaderName::from_static("x-a"), HeaderValue::from_static("1"))
        .with_chunked_threshold(2);
    let copy = response.clone();
    assert_eq!(copy.chunked_threshold(), 2);
    assert_eq!(copy.data_length(), Some(4));
    let a = print(response.boxed(), HTTPVersion(1, 1), &HeaderMap::new(), false, None);
    let b = print(copy, HTTPVersion(1, 1), &HeaderMap::new(), false, None);
    assert_eq!(a, b);
    assert!(text(&a).contains("X-A: 1\r\n"));
}

#[test]
fn chunks_on_their_own() {
    assert_eq!(tiny_http::chunked::encode(b""), b"0\r\n\r\n");
    assert_eq!(tiny_http::chunked::encode(b"hello world"), b"b\r\nhello world\r\n0\r\n\r\n");
    let exact = tiny_http::chunked::encode(&vec![b'e'; 8192]);
    assert!(exact.starts_with(b"2000\r\ne"));
    assert!(exact.ends_with(b"e\r\n0\r\n\r\n"));
    assert_eq!(exact.len(), 6 + 8192 + 2 + 5);
    let more = tiny_http::chunked::encode(&vec![b'e'; 8193]);
    assert!(more.ends_with(b"e\r\n1\r\ne\r\n0\r\n\r\n"));
}

fn full_response() -> Response {
    let mut response = Response::from_data(b"abc".to_vec());
    for i in 0..4092 {
        let name = HeaderName::from_bytes(format!("x-{}", i).as_bytes()).unwrap();
        response.add_header(name, HeaderValue::from_static("v"));
    }
    assert_eq!(response.headers().keys_len(), 4092);
    response
}

#[test]
fn a_full_response_takes_what_needs_no_room() {
    let mut response = full_response();
    // forbidden headers are dropped and nothing else changes
    for name in ["connection", "trailer", "transfer-encoding", "upgrade"] {
        response.add_header(HeaderName::from_static(name), HeaderValue::from_static("x"));
        assert_eq!(response.headers().len(), 4092);
        assert_eq!(response.data_length(), Some(3));
        assert_eq!(response.status_code().as_u16(), 200);
        assert_eq!(response.chunked_threshold(), 32768);
    }
    // a Content-Length only sets the declared length
    response.add_header(HeaderName::from_static("content-length"), HeaderValue::from_static("2"));
    assert_eq!(response.headers().len(), 4092);
    assert_eq!(response.data_length(), Some(2));
    // a name that is there takes one more value
    response.add_header(HeaderName::from_static("x-7"), HeaderValue::from_static("w"));
    assert_eq!(response.headers().keys_len(), 4092);
    assert_eq!(response.headers().len(), 4093);
    let values: Vec<_> = response.headers().get_all("x-7").iter().collect();
    assert_eq!(values, vec!["v", "w"]);
    // and it can still be sent, with the headers that are added on sending
    let out = print(response, HTTPVersion(1, 1), &HeaderMap::new(), false, None);
    assert!(text(&out).ends_with("Content-Length: 2\r\n\r\nab"));
}

#[test]
fn new_counts_names_not_values() {
    let mut headers = HeaderMap::new();
    for i in 0..5000 {
        headers.append("x-many", HeaderValue::from_str(&i.to_string()).unwrap());
    }
    let status = StatusCode::from_u16(200).unwrap();
    let response = Response::try_new(status, headers.clone(), Vec::new(), None, None).unwrap();
    assert_eq!(response.headers().keys_len(), 1);
    assert_eq!(response.headers().len(), 5000);
    let response = Response::new(status, headers, Vec::new(), None, None);
    assert_eq!(response.headers().len(), 5000);

    let mut names = HeaderMap::new();
    for i in 0..4093 {
        names.append(
            HeaderName::from_bytes(format!("x-{}", i).as_bytes()).unwrap(),
            HeaderValue::from_static("v"),
        );
    }
    assert!(Response::try_new(status, names.clone(), Vec::new(), None, None).is_none());
    names.remove("x-0");
    let extra = vec![(HeaderName::from_static("x-0"), HeaderValue::from_static("v"))];
    assert!(Response::try_new(status, names.clone(), Vec::new(), None, Some(extra)).is_none());
    assert!(Response::try_new(status, names, Vec::new(), None, None).is_some());
}

#[test]
fn collections_are_built_through_the_library() {
    let mut map = new_map();
    assert_eq!(names_len(&map), 0);
    let name = parse_name(b"X-Thing").unwrap();
    assert_eq!(name.as_str(), "x-thing");
    assert!(parse_name(b"x thing").is_none());
    assert!(parse_name(b"").is_none());
    let value = parse_value(b"some value").unwrap();
    assert!(parse_value(b"line\nbreak").is_none());
    assert!(!contains(&map, &name));
    assert!(append(&mut map, &name, &value));
    assert!(contains(&map, &name));
    assert!(append(&mut map, &name, &parse_value(b"more").unwrap()));
    assert_eq!(names_len(&map), 1);
    assert_eq!(map.len(), 2);
    for i in 0..4095 {
        assert!(append(&mut map, &parse_name(format!("n{}", i).as_bytes()).unwrap(), &value));
    }
    assert_eq!(names_len(&map), 4096);
    assert!(!append(&mut map, &parse_name(b"one-more").unwrap(), &value));
    assert!(!append(&mut map, &name, &value));
    assert_eq!(map.len(), 4097);
}
