use http::header::{HeaderName, HeaderValue};
use tiny_http::request::{BodyFraming, Method, RequestCreationError};
use tiny_http::test::TestRequest;
use tiny_http::version::HTTPVersion;

#[test]
fn default_test_request() {
    let mock = TestRequest::new();
    assert_eq!(mock.body(), "");
    let request = mock.into_request().unwrap();
    assert_eq!(request.method().as_bytes(), b"GET");
    assert_eq!(request.url(), b"/");
    assert_eq!(*request.http_version(), HTTPVersion(1, 1));
    assert!(!request.secure());
    assert_eq!(request.headers().get("content-length").unwrap(), "0");
    assert_eq!(request.headers().len(), 1);
    assert_eq!(request.body_framing(), BodyFraming::Length(0));
}

#[test]
fn built_test_request() {
    let request = TestRequest::new()
        .with_method(Method::from_bytes(b"POST").unwrap())
        .with_path(b"/api/widgets".to_vec())
        .with_body("42")
        .with_https()
        .with_http_version(HTTPVersion(1, 0))
        .with_header(HeaderName::from_static("x-test"), HeaderValue::from_static("yes"))
        .into_request()
        .unwrap();
    assert_eq!(request.method().as_bytes(), b"POST");
    assert_eq!(request.url(), b"/api/widgets");
    assert_eq!(*request.http_version(), HTTPVersion(1, 0));
    assert!(request.secure());
    assert_eq!(request.headers().get("x-test").unwrap(), "yes");
    assert_eq!(request.headers().get("content-length").unwrap(), "2");
    assert_eq!(request.body_framing(), BodyFraming::Length(2));
}

#[test]
fn content_length_under_test_is_left_alone() {
    let request = TestRequest::new()
        .with_body("four")
        .with_header(HeaderName::from_static("content-length"), HeaderValue::from_static("7"))
        .into_request()
        .unwrap();
    assert_eq!(request.headers().get("content-length").unwrap(), "7");
    assert_eq!(request.headers().len(), 1);
    assert_eq!(request.body_framing(), BodyFraming::Length(7));
}

#[test]
fn test_request_with_an_expectation() {
    let request = TestRequest::new()
        .with_header(HeaderName::from_static("expect"), HeaderValue::from_static("100-continue"))
        .into_request()
        .unwrap();
    assert!(request.expects_continue());
    let failed = TestRequest::new()
        .with_header(HeaderName::from_static("expect"), HeaderValue::from_static("a miracle"))
        .into_request();
    assert_eq!(failed.map(|_| ()).unwrap_err(), RequestCreationError::ExpectationFailed);
}

#[test]
fn methods_are_tokens() {
    assert!(Method::from_bytes(b"").is_none());
    assert!(Method::from_bytes(b"GE T").is_none());
    assert!(Method::from_bytes(b"G\xc3\xa9T").is_none());
    let method = Method::from_bytes(b"M-SEARCH").unwrap();
    assert_eq!(method.as_bytes(), b"M-SEARCH");
    assert!(!method.is_head());
    assert!(Method::from_bytes(b"HEAD").unwrap().is_head());
    assert!(!Method::from_bytes(b"head").unwrap().is_head());
    assert!(method.clone() == method);
}

#[test]
fn test_request_headers_and_room() {
    let mut request = TestRequest::new();
    for i in 0..4095 {
        let name = HeaderName::from_bytes(format!("x-{}", i).as_bytes()).unwrap();
        request = request.try_with_header(name, HeaderValue::from_static("v")).ok().unwrap();
    }
    assert_eq!(request.headers().keys_len(), 4095);
    // a name that is there takes one more value, a new name is refused
    request = request
        .try_with_header(HeaderName::from_static("x-7"), HeaderValue::from_static("w"))
        .ok()
        .unwrap();
    assert_eq!(request.headers().len(), 4096);
    let refused = request.try_with_header(HeaderName::from_static("x-new"), HeaderValue::from_static("v"));
    let request = match refused {
        Ok(_) => panic!("taken"),
        Err(request) => request,
    };
    assert_eq!(request.headers().len(), 4096);
    assert!(request.into_request().is_ok());
}
