use tiny_http::client::{IoErrorKind, ReadError};
use tiny_http::pipeline::Pipeline;
use tiny_http::response::{PrintError, Response};
use tiny_http::status::StatusCode;

const NOW: u64 = 420895020;

fn answer(body: &str) -> String {
    format!(
        "HTTP/1.1 200 OK\r\nContent-Type: text/plain; charset=UTF-8\r\nDate: Wed, 04 May 1983 11:17:00 GMT\r\nServer: tiny-http\r\nContent-Length: {}\r\n\r\n{}",
        body.len(),
        body
    )
}

#[test]
fn pipelined_answers_go_out_in_request_order() {
    let mut pipeline = Pipeline::new(false);
    let source = b"GET /a HTTP/1.1\r\nHost: x\r\n\r\nGET /b HTTP/1.1\r\nHost: x\r\n\r\n";
    let (first, n) = pipeline.next_at(source, NOW);
    let (a, slot_a) = first.unwrap();
    let (second, m) = pipeline.next_at(&source[n..], NOW);
    let (b, slot_b) = second.unwrap();
    assert_eq!(n + m, source.len());
    assert_eq!((a.url(), slot_a), (&b"/a"[..], 0));
    assert_eq!((b.url(), slot_b), (&b"/b"[..], 1));
    // the application answers /b first
    pipeline.respond_at(slot_b, b, Response::from_string("to b"), NOW).unwrap();
    assert_eq!(pipeline.take_output(), b"");
    pipeline.respond_at(slot_a, a, Response::from_string("to a"), NOW).unwrap();
    let wire = String::from_utf8(pipeline.take_output()).unwrap();
    assert_eq!(wire, format!("{}{}", answer("to a"), answer("to b")));
    assert!(!pipeline.no_more_requests());
}

#[test]
fn any_order_of_answers_gives_the_same_stream() {
    let orders: [[usize; 4]; 4] = [[0, 1, 2, 3], [3, 2, 1, 0], [2, 0, 3, 1], [1, 3, 0, 2]];
    let mut streams = Vec::new();
    for order in orders {
        let mut pipeline = Pipeline::new(false);
        let mut requests = Vec::new();
        for i in 0..4 {
            let source = format!("GET /{} HTTP/1.1\r\n\r\n", i);
            let (served, _) = pipeline.next_at(source.as_bytes(), NOW);
            let (request, slot) = served.unwrap();
            assert_eq!(slot, i);
            requests.push(Some(request));
        }
        let mut stream = Vec::new();
        for i in order {
            let request = requests[i].take().unwrap();
            let body = format!("answer {}", i);
            pipeline.respond_at(i, request, Response::from_string(&body), NOW).unwrap();
            stream.extend(pipeline.take_output());
        }
        let expected: String = (0..4).map(|i| answer(&format!("answer {}", i))).collect();
        assert_eq!(String::from_utf8(stream.clone()).unwrap(), expected);
        streams.push(stream);
    }
    assert!(streams.iter().all(|s| *s == streams[0]));
}

#[test]
fn rejections_take_their_place_among_the_answers() {
    let mut pipeline = Pipeline::new(false);
    let (served, _) = pipeline.next_at(b"GET /a HTTP/1.1\r\n\r\n", NOW);
    let (a, slot) = served.unwrap();
    let (rejected, _) = pipeline.next_at(b"nonsense\r\n\r\n", NOW);
    assert!(rejected.is_none());
    assert!(pipeline.no_more_requests());
    // the answer to the bad request waits for the answer to the first one
    assert_eq!(pipeline.take_output(), b"");
    pipeline.respond_at(slot, a, Response::from_string("a"), NOW).unwrap();
    let wire = String::from_utf8(pipeline.take_output()).unwrap();
    assert!(wire.starts_with(&answer("a")));
    assert!(wire[answer("a").len()..].starts_with("HTTP/1.1 400 Bad Request\r\n"));
    assert!(matches!(pipeline.next_at(b"GET / HTTP/1.1\r\n\r\n", NOW), (None, 0)));
}

#[test]
fn each_request_is_answered_once() {
    let mut pipeline = Pipeline::new(true);
    let (served, _) = pipeline.next_at(b"GET /a HTTP/1.1\r\n\r\n", NOW);
    let (a, slot) = served.unwrap();
    assert!(a.secure());
    let again = pipeline.read(b"GET /a HTTP/1.1\r\n\r\n").unwrap().0;
    pipeline.respond_at(slot, a, Response::from_string("one"), NOW).unwrap();
    pipeline.respond_at(slot, again, Response::from_string("two"), NOW).unwrap();
    let again = pipeline.read(b"GET /a HTTP/1.1\r\n\r\n").unwrap().0;
    pipeline.respond_at(7, again, Response::from_string("nowhere"), NOW).unwrap();
    assert_eq!(String::from_utf8(pipeline.take_output()).unwrap(), answer("one"));
}

#[test]
fn timeouts_are_answered_through_the_pipeline() {
    let mut pipeline = Pipeline::new(false);
    let served = pipeline.decide_at(Err(ReadError::ReadIoError(IoErrorKind::TimedOut)), NOW);
    assert!(served.is_none());
    let wire = String::from_utf8(pipeline.take_output()).unwrap();
    assert!(wire.starts_with("HTTP/1.1 408 Request Timeout\r\n"));
    let mut pipeline = Pipeline::new(false);
    assert!(pipeline.decide_at(Err(ReadError::ReadIoError(IoErrorKind::Other)), NOW).is_none());
    assert_eq!(pipeline.take_output(), b"");
    assert!(pipeline.no_more_requests());
}

#[test]
fn upgrade_through_the_pipeline() {
    let mut pipeline = Pipeline::new(false);
    let source = b"GET /chat HTTP/1.1\r\nConnection: Upgrade\r\nUpgrade: websocket\r\n\r\n";
    let (served, _) = pipeline.next_at(source, NOW);
    let (request, slot) = served.unwrap();
    assert!(pipeline.no_more_requests());
    let status = StatusCode::from_u16(101).unwrap();
    pipeline.upgrade_at(slot, "websocket", request, Response::empty(status), NOW).unwrap();
    assert_eq!(
        String::from_utf8(pipeline.take_output()).unwrap(),
        "HTTP/1.1 101 Switching Protocols\r\nUpgrade: websocket\r\nConnection: Upgrade\r\nDate: Wed, 04 May 1983 11:17:00 GMT\r\nServer: tiny-http\r\n\r\n"
    );
}

#[test]
fn answers_that_cannot_be_written_close_their_slot() {
    let mut pipeline = Pipeline::new(false);
    let (served, _) = pipeline.next_at(b"GET /a HTTP/1.1\r\n\r\n", NOW);
    let (a, slot_a) = served.unwrap();
    let (served, _) = pipeline.next_at(b"GET /b HTTP/1.1\r\n\r\n", NOW);
    let (b, slot_b) = served.unwrap();
    pipeline.respond_at(slot_b, b, Response::from_string("b"), NOW).unwrap();
    let status = StatusCode::from_u16(101).unwrap();
    let failed = pipeline.upgrade_at(slot_a, "bad\nprotocol", a, Response::empty(status), NOW);
    assert_eq!(failed, Err(PrintError::InvalidUpgrade));
    // nothing was written for the first request, and the second answer goes out
    assert_eq!(String::from_utf8(pipeline.take_output()).unwrap(), answer("b"));
    // beyond the year 9999 the answer goes out without a date
    let (served, _) = pipeline.next_at(b"GET /c HTTP/1.1\r\n\r\n", 253402300800);
    let (c, slot_c) = served.unwrap();
    pipeline.respond_at(slot_c, c, Response::from_string("c"), 253402300800).unwrap();
    let wire = String::from_utf8(pipeline.take_output()).unwrap();
    assert!(wire.starts_with("HTTP/1.1 200 OK\r\n"));
    assert!(!wire.contains("Date:"));
    assert!(wire.ends_with("\r\n\r\nc"));
}
