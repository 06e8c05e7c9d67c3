//! Requests made by hand, for trying out code that handles requests.

use http::header::{HeaderMap, HeaderName, HeaderValue};
use vstd::prelude::*;
use vstd::string::StringSliceAdditionalSpecFns;
use crate::client::MAX_REQUEST_HEADERS;
use crate::headers::{
    appended, has_name, header_map_append, header_map_contains, header_map_groups, header_map_names,
    header_map_new, header_name_bytes, header_value_bytes, header_value_from_bytes, lemma_appended,
    literal_name,
};
use crate::request::{Method, new_request, Request, request_of, RequestCreationError};
use crate::response::{content_length_name, with_default};
use crate::text::{bytes_of, decimal, decimal_bytes, lemma_decimal_digits, literal, lower};
use crate::version::HTTPVersion;

verus! {

/// What a hand-made request is, as the contracts see it.
pub struct TestRequestView {
    pub body: Seq<u8>,
    pub secure: bool,
    pub method: Seq<u8>,
    pub path: Seq<u8>,
    pub http_version: HTTPVersion,
    pub headers: Seq<(Seq<u8>, Seq<Seq<u8>>)>,
}

/// A request that is put together by hand and then turned into a `Request`.
///
/// Without further calls it is a `GET` of `/` over HTTP/1.1, not secure,
/// with no headers and an empty body.
pub struct TestRequest {
    body: &'static str,
    // true if HTTPS, false if HTTP
    secure: bool,
    method: Method,
    path: Vec<u8>,
    http_version: HTTPVersion,
    headers: HeaderMap<HeaderValue>,
}

impl View for TestRequest {
    type V = TestRequestView;

    closed spec fn view(&self) -> TestRequestView {
        TestRequestView {
            body: self.body.spec_bytes(),
            secure: self.secure,
            method: self.method@,
            path: self.path@,
            http_version: self.http_version,
            headers: header_map_groups(self.headers),
        }
    }
}

/// The headers of the request that a hand-made request turns into: its own,
/// and a `Content-Length` with the length of its body unless it has one.
pub open spec fn headers_with_length(view: TestRequestView) -> Seq<(Seq<u8>, Seq<Seq<u8>>)> {
    with_default(view.headers, content_length_name(), decimal(view.body.len()))
}

impl Default for TestRequest {
    fn default() -> (r: TestRequest)
        ensures
            r.wf(),
            r@ == (TestRequestView {
                body: Seq::empty(),
                secure: false,
                method: bytes_of("GET"@),
                path: bytes_of("/"@),
                http_version: HTTPVersion(1, 1),
                headers: Seq::empty(),
            }),
    {
        TestRequest::new()
    }
}

impl TestRequest {
    /// What holds of every hand-made request: it leaves room for one more
    /// header.
    pub closed spec fn wf(&self) -> bool {
        header_map_groups(self.headers).len() <= MAX_REQUEST_HEADERS
    }

    /// The hand-made request to start from.
    pub fn new() -> (r: TestRequest)
        ensures
            r.wf(),
            r@ == (TestRequestView {
                body: Seq::empty(),
                secure: false,
                method: bytes_of("GET"@),
                path: bytes_of("/"@),
                http_version: HTTPVersion(1, 1),
                headers: Seq::empty(),
            }),
    {
        proof {
            reveal_strlit("GET");
            reveal_strlit("/");
            reveal_strlit("");
        }
        let method = match Method::from_bytes(literal("GET")) {
            Some(method) => method,
            None => vstd::pervasive::unreached(),
        };
        let path = crate::text::copy_range(literal("/"), 0, 1);
        assert(path@ == bytes_of("/"@));
        let r = TestRequest {
            body: "",
            secure: false,
            method,
            path,
            http_version: HTTPVersion(1, 1),
            headers: header_map_new(),
        };
        assert(r@.body =~= Seq::<u8>::empty()) by {
            broadcast use vstd::string::is_ascii_spec_bytes;

        }
        r
    }

    /// The same request with the body `body`.
    pub fn with_body(self, body: &'static str) -> (r: TestRequest)
        requires
            self.wf(),
        ensures
            r.wf(),
            r@ == (TestRequestView { body: body.spec_bytes(), ..self@ }),
    {
        let mut request = self;
        request.body = body;
        request
    }

    /// The same request, sent over TLS.
    pub fn with_https(self) -> (r: TestRequest)
        requires
            self.wf(),
        ensures
            r.wf(),
            r@ == (TestRequestView { secure: true, ..self@ }),
    {
        let mut request = self;
        request.secure = true;
        request
    }

    /// The same request with the method `method`.
    pub fn with_method(self, method: Method) -> (r: TestRequest)
        requires
            self.wf(),
        ensures
            r.wf(),
            r@ == (TestRequestView { method: method@, ..self@ }),
    {
        let mut request = self;
        request.method = method;
        request
    }

    /// The same request with the target `path`.
    pub fn with_path(self, path: Vec<u8>) -> (r: TestRequest)
        requires
            self.wf(),
        ensures
            r.wf(),
            r@ == (TestRequestView { path: path@, ..self@ }),
    {
        let mut request = self;
        request.path = path;
        request
    }

    /// The same request in the version `version`.
    pub fn with_http_version(self, version: HTTPVersion) -> (r: TestRequest)
        requires
            self.wf(),
        ensures
            r.wf(),
            r@ == (TestRequestView { http_version: version, ..self@ }),
    {
        let mut request = self;
        request.http_version = version;
        request
    }

    /// The same request with one more header. Only a header that brings a
    /// new name needs room for it.
    pub fn with_header(self, name: HeaderName, value: HeaderValue) -> (r: TestRequest)
        requires
            self.wf(),
            has_name(self@.headers, header_name_bytes(name)) || self@.headers.len()
                < MAX_REQUEST_HEADERS,
        ensures
            r.wf(),
            r@ == (TestRequestView {
                headers: appended(self@.headers, header_name_bytes(name), header_value_bytes(value)),
                ..self@
            }),
    {
        let mut request = self;
        proof {
            lemma_appended(request@.headers, header_name_bytes(name), header_value_bytes(value));
        }
        header_map_append(&mut request.headers, &name, &value);
        request
    }

    /// The same request with one more header, where it has room for it;
    /// else the request comes back as it is.
    pub fn try_with_header(self, name: HeaderName, value: HeaderValue) -> (r: Result<
        TestRequest,
        TestRequest,
    >)
        requires
            self.wf(),
        ensures
            match r {
                Ok(request) => {
                    &&& has_name(self@.headers, header_name_bytes(name)) || self@.headers.len()
                        < MAX_REQUEST_HEADERS
                    &&& request.wf()
                    &&& request@ == (TestRequestView {
                        headers: appended(
                            self@.headers,
                            header_name_bytes(name),
                            header_value_bytes(value),
                        ),
                        ..self@
                    })
                },
                Err(request) => {
                    &&& !has_name(self@.headers, header_name_bytes(name))
                    &&& self@.headers.len() >= MAX_REQUEST_HEADERS
                    &&& request.wf()
                    &&& request@ == self@
                },
            },
    {
        if header_map_contains(&self.headers, &name) || header_map_names(&self.headers)
            < MAX_REQUEST_HEADERS {
            Ok(self.with_header(name, value))
        } else {
            Err(self)
        }
    }

    /// The headers of the request.
    pub fn headers(&self) -> (r: &HeaderMap<HeaderValue>)
        ensures
            header_map_groups(*r) == self@.headers,
    {
        &self.headers
    }

    /// The body of the request.
    pub fn body(&self) -> (r: &'static str)
        ensures
            r.spec_bytes() == self@.body,
    {
        self.body
    }

    /// Turns the hand-made request into a request. Where it has no
    /// `Content-Length` header, it gets one with the length of its body.
    /// An `Expect` header that cannot be met is the only error.
    pub fn into_request(self) -> (r: Result<Request, RequestCreationError>)
        requires
            self.wf(),
        ensures
            match request_of(
                self@.secure,
                self@.method,
                self@.path,
                self@.http_version,
                headers_with_length(self@),
            ) {
                Ok(view) => r.is_ok() && r.unwrap()@ == view,
                Err(error) => r == Err::<Request, RequestCreationError>(error),
            },
    {
        let TestRequest { body, secure, method, path, http_version, headers } = self;
        let mut headers = headers;
        // if the user didn't set the Content-Length header, then set it for
        // them; otherwise, leave it alone (it may be under test)
        proof {
            reveal_strlit("content-length");
            assert(lower(content_length_name()) =~= content_length_name());
        }
        let name = literal_name("content-length");
        if !header_map_contains(&headers, &name) {
            let length = body.as_bytes().len();
            let digits = decimal_bytes(length);
            proof {
                lemma_decimal_digits(length as nat);
            }
            let value = match header_value_from_bytes(digits.as_slice()) {
                Some(value) => value,
                None => vstd::pervasive::unreached(),
            };
            header_map_append(&mut headers, &name, &value);
        }
        new_request(secure, method, path, http_version, headers)
    }
}

} // verus!
