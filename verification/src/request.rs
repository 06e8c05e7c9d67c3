//! Requests: the method, target and version of the request line, the
//! headers, and what they say of the body and of the connection.

use http::header::{HeaderMap, HeaderValue};
use vstd::prelude::*;
use vstd::string::StringSliceAdditionalSpecFns;
use crate::headers::{
    header_map_get_all, header_map_groups, header_value_as_bytes, header_value_bytes, literal_name,
    values_of,
};
use crate::response::{
    content_length_name, declared_length, printed, PrintError, Response, transfer_encoding_name,
    upgrade_bytes,
};
use crate::text::{
    bytes_contain, bytes_eq, bytes_eq_ignore_case, bytes_of, contains_bytes, copy_range,
    eq_ignore_case, is_token_byte, literal, lower, parse_usize, to_lower,
};
use crate::version::HTTPVersion;

verus! {

/// Whether `s` is accepted as a request target by the `http` crate's `Uri`.
pub uninterp spec fn is_request_target(s: Seq<u8>) -> bool;

/// Whether `s` is accepted as a method: one or more token characters.
pub open spec fn is_method(s: Seq<u8>) -> bool {
    &&& s.len() > 0
    &&& forall|i: int| 0 <= i < s.len() ==> is_token_byte(#[trigger] s[i])
}

/// `Method::from_bytes`: a method is accepted where it is not empty and made
/// of token characters.
#[verifier::external_body]
pub(crate) fn method_accepts(src: &[u8]) -> (r: bool)
    ensures
        r == is_method(src@),
{
    http::Method::from_bytes(src).is_ok()
}

/// The longest request target that is accepted.
pub const MAX_TARGET_LEN: usize = 65534;

/// Whether `b` may stand in a plain path: a letter, a digit, or one of
/// `/ - . _ ~`.
pub open spec fn is_plain_path_byte(b: u8) -> bool {
    (0x30 <= b <= 0x39) || (0x41 <= b <= 0x5a) || (0x61 <= b <= 0x7a) || b == 0x2f || b == 0x2d
        || b == 0x2e || b == 0x5f || b == 0x7e
}

/// Whether `s` is a plain path: it starts with `/`, is made of letters,
/// digits and `/ - . _ ~` only, and is not longer than a target may be.
pub open spec fn is_plain_path(s: Seq<u8>) -> bool {
    &&& 0 < s.len() <= MAX_TARGET_LEN
    &&& s[0] == 0x2f
    &&& forall|i: int| 0 <= i < s.len() ==> is_plain_path_byte(#[trigger] s[i])
}

/// Whether `s` is accepted as the target of a request: every plain path is,
/// the empty text is not, and for all else the `http` crate's `Uri` decides.
pub open spec fn accepts_target(s: Seq<u8>) -> bool {
    is_plain_path(s) || (s.len() > 0 && is_request_target(s))
}

/// `Uri::try_from` for bytes: whether the text is read as a request target.
/// A text that starts with `/` is read as a path, and a path of letters,
/// digits and `/ - . _ ~` of at most 65534 bytes is always accepted; the
/// empty text never is.
#[verifier::external_body]
pub(crate) fn uri_accepts(src: &[u8]) -> (r: bool)
    ensures
        r == is_request_target(src@),
        is_plain_path(src@) ==> r,
        src@.len() == 0 ==> !r,
{
    http::Uri::try_from(src).is_ok()
}

/// Whether `src` is accepted as the target of a request.
pub fn target_is_accepted(src: &[u8]) -> (r: bool)
    ensures
        r == accepts_target(src@),
{
    uri_accepts(src)
}

/// The method of a request, such as `GET`: a token, kept as it was sent.
#[derive(Debug, PartialEq, Eq)]
pub struct Method {
    token: Vec<u8>,
}

impl View for Method {
    type V = Seq<u8>;

    closed spec fn view(&self) -> Seq<u8> {
        self.token@
    }
}

impl Clone for Method {
    fn clone(&self) -> (r: Method) {
        self.duplicate()
    }
}

impl Method {
    #[verifier::type_invariant]
    spec fn valid(self) -> bool {
        is_method(self.token@)
    }

    /// The method that `src` names, where it is a token.
    pub fn from_bytes(src: &[u8]) -> (r: Option<Method>)
        ensures
            r.is_some() == is_method(src@),
            r matches Some(method) ==> method@ == src@,
    {
        if method_accepts(src) {
            Some(Method { token: copy_range(src, 0, src.len()) })
        } else {
            None
        }
    }

    /// A copy of the method.
    pub fn duplicate(&self) -> (r: Method)
        ensures
            r@ == self@,
    {
        proof {
            use_type_invariant(self);
        }
        Method { token: copy_range(self.token.as_slice(), 0, self.token.len()) }
    }

    /// The name of the method.
    pub fn as_bytes(&self) -> (r: &[u8])
        ensures
            r@ == self@,
            is_method(r@),
    {
        proof {
            use_type_invariant(self);
        }
        self.token.as_slice()
    }

    /// Whether the method is `HEAD`, whose responses have no body.
    pub fn is_head(&self) -> (r: bool)
        ensures
            r == (self@ == bytes_of("HEAD"@)),
    {
        proof {
            reveal_strlit("HEAD");
        }
        bytes_eq(self.token.as_slice(), literal("HEAD"))
    }
}

/// Whether a method is `HEAD`, whose responses are sent without body.
pub open spec fn is_head(method: Seq<u8>) -> bool {
    method == bytes_of("HEAD"@)
}

/// How the body of a request is delimited.
#[derive(Debug, Clone, Copy, PartialEq, Eq, Structural)]
pub enum BodyFraming {
    /// The body comes in chunks and ends with a chunk of length zero.
    Chunked,
    /// The body has this many bytes.
    Length(usize),
}

/// Why a request could not be made of a request line and its headers.
#[derive(Debug, Clone, Copy, PartialEq, Eq, Structural)]
pub enum RequestCreationError {
    /// The request has an `Expect` header that asks for something other
    /// than `100-continue`.
    ExpectationFailed,
}

/// The name of the `Expect` header.
pub open spec fn expect_name() -> Seq<u8> {
    bytes_of("expect"@)
}

/// The name of the `Connection` header.
pub open spec fn connection_header_name() -> Seq<u8> {
    bytes_of("connection"@)
}

/// Whether a `Transfer-Encoding` value names the chunked encoding: it holds
/// `chunked`, ASCII case ignored.
pub open spec fn names_chunked(value: Seq<u8>) -> bool {
    contains_bytes(lower(value), bytes_of("chunked"@))
}

/// Whether one of the values names the chunked encoding.
pub open spec fn any_chunked(values: Seq<Seq<u8>>) -> bool {
    exists|i: int| 0 <= i < values.len() && names_chunked(#[trigger] values[i])
}

/// How the headers delimit the body.
///
/// A `Transfer-Encoding` that names `chunked` makes the body chunked,
/// whatever `Content-Length` says. Else the first `Content-Length` gives the
/// length, where it is a number. Else there is no body.
pub open spec fn framing_of(groups: Seq<(Seq<u8>, Seq<Seq<u8>>)>) -> BodyFraming {
    let lengths = values_of(groups, content_length_name());
    if any_chunked(values_of(groups, transfer_encoding_name())) {
        BodyFraming::Chunked
    } else if lengths.len() > 0 && declared_length(lengths[0]).is_some() {
        BodyFraming::Length(declared_length(lengths[0]).unwrap())
    } else {
        BodyFraming::Length(0)
    }
}

/// What the `Expect` header asks: nothing where there is none, to be told
/// to continue where its first value is `100-continue` (ASCII case ignored),
/// and something that cannot be met otherwise.
pub open spec fn expectation_of(groups: Seq<(Seq<u8>, Seq<Seq<u8>>)>) -> Result<bool, RequestCreationError> {
    let values = values_of(groups, expect_name());
    if values.len() == 0 {
        Ok(false)
    } else if eq_ignore_case(values[0], bytes_of("100-continue"@)) {
        Ok(true)
    } else {
        Err(RequestCreationError::ExpectationFailed)
    }
}

/// A request with `Transfer-Encoding: chunked` has a chunked body whatever
/// its `Content-Length` headers say: two sets of headers that agree on
/// `Transfer-Encoding` and name `chunked` there have the same framing.
pub proof fn lemma_chunked_ignores_content_length(
    a: Seq<(Seq<u8>, Seq<Seq<u8>>)>,
    b: Seq<(Seq<u8>, Seq<Seq<u8>>)>,
)
    requires
        values_of(a, transfer_encoding_name()) == values_of(b, transfer_encoding_name()),
        any_chunked(values_of(a, transfer_encoding_name())),
    ensures
        framing_of(a) == BodyFraming::Chunked,
        framing_of(b) == BodyFraming::Chunked,
{
}

/// What a request is, as the contracts see it.
pub struct RequestView {
    /// Whether the request came over TLS.
    pub secure: bool,
    /// The method.
    pub method: Seq<u8>,
    /// The request target.
    pub path: Seq<u8>,
    /// The version of the protocol.
    pub http_version: HTTPVersion,
    /// The header groups, in order.
    pub headers: Seq<(Seq<u8>, Seq<Seq<u8>>)>,
    /// How the body is delimited.
    pub body: BodyFraming,
    /// Whether the client waits to be told to continue before it sends the
    /// body, and has not been told yet.
    pub expects_continue: bool,
}

/// The request that a request line and headers make, or the error.
pub open spec fn request_of(
    secure: bool,
    method: Seq<u8>,
    path: Seq<u8>,
    http_version: HTTPVersion,
    headers: Seq<(Seq<u8>, Seq<Seq<u8>>)>,
) -> Result<RequestView, RequestCreationError> {
    match expectation_of(headers) {
        Ok(expects_continue) => Ok(
            RequestView {
                secure,
                method,
                path,
                http_version,
                headers,
                body: framing_of(headers),
                expects_continue,
            },
        ),
        Err(error) => Err(error),
    }
}

/// What is sent to a client that waits to be told to continue.
pub open spec fn continue_line() -> Seq<u8> {
    bytes_of("HTTP/1.1 100 Continue\r\n\r\n"@)
}

/// A request that was read from a client.
pub struct Request {
    secure: bool,
    method: Method,
    path: Vec<u8>,
    http_version: HTTPVersion,
    headers: HeaderMap<HeaderValue>,
    body: BodyFraming,
    expects_continue: bool,
}

impl View for Request {
    type V = RequestView;

    closed spec fn view(&self) -> RequestView {
        RequestView {
            secure: self.secure,
            method: self.method@,
            path: self.path@,
            http_version: self.http_version,
            headers: header_map_groups(self.headers),
            body: self.body,
            expects_continue: self.expects_continue,
        }
    }
}

/// Whether one of the values names the chunked encoding.
fn values_name_chunked(values: &Vec<HeaderValue>) -> (r: bool)
    ensures
        r == any_chunked(values@.map_values(|v: HeaderValue| header_value_bytes(v))),
{
    let ghost all = values@.map_values(|v: HeaderValue| header_value_bytes(v));
    proof {
        reveal_strlit("chunked");
    }
    let mut i: usize = 0;
    while i < values.len()
        invariant
            0 <= i <= values.len(),
            all == values@.map_values(|v: HeaderValue| header_value_bytes(v)),
            forall|k: int| 0 <= k < i ==> !names_chunked(#[trigger] all[k]),
        decreases values.len() - i,
    {
        let folded = to_lower(header_value_as_bytes(&values[i]));
        assert(all[i as int] == header_value_bytes(values@[i as int]));
        proof {
            reveal_strlit("chunked");
        }
        if bytes_contain(folded.as_slice(), literal("chunked")) {
            return true;
        }
        i += 1;
    }
    false
}

/// Makes a request of what was read: the request line's parts and the
/// headers. The headers decide how the body is delimited and whether the
/// client waits to be told to continue.
pub fn new_request(
    secure: bool,
    method: Method,
    path: Vec<u8>,
    http_version: HTTPVersion,
    headers: HeaderMap<HeaderValue>,
) -> (r: Result<Request, RequestCreationError>)
    ensures
        match request_of(secure, method@, path@, http_version, header_map_groups(headers)) {
            Ok(view) => r.is_ok() && r.unwrap()@ == view,
            Err(error) => r == Err::<Request, RequestCreationError>(error),
        },
{
    proof {
        reveal_strlit("expect");
        reveal_strlit("100-continue");
        reveal_strlit("transfer-encoding");
        reveal_strlit("content-length");
        assert(lower(expect_name()) =~= expect_name());
        assert(lower(transfer_encoding_name()) =~= transfer_encoding_name());
        assert(lower(content_length_name()) =~= content_length_name());
    }
    let ghost groups = header_map_groups(headers);
    // what the client expects
    let expect = header_map_get_all(&headers, &literal_name("expect"));
    let ghost expect_values = values_of(groups, expect_name());
    let expects_continue = if expect.len() == 0 {
        assert(expect_values.len() == expect@.map_values(|v: HeaderValue| header_value_bytes(v)).len());
        false
    } else {
        assert(expect_values[0] == header_value_bytes(expect@[0])) by {
            assert(expect@.map_values(|v: HeaderValue| header_value_bytes(v))[0]
                == header_value_bytes(expect@[0]));
        }
        if bytes_eq_ignore_case(header_value_as_bytes(&expect[0]), literal("100-continue")) {
            true
        } else {
            return Err(RequestCreationError::ExpectationFailed);
        }
    };
    // how the body is delimited
    let encodings = header_map_get_all(&headers, &literal_name("transfer-encoding"));
    let body = if values_name_chunked(&encodings) {
        BodyFraming::Chunked
    } else {
        let lengths = header_map_get_all(&headers, &literal_name("content-length"));
        let ghost length_values = values_of(groups, content_length_name());
        if lengths.len() > 0 {
            assert(length_values[0] == header_value_bytes(lengths@[0])) by {
                assert(lengths@.map_values(|v: HeaderValue| header_value_bytes(v))[0]
                    == header_value_bytes(lengths@[0]));
            }
            match parse_usize(header_value_as_bytes(&lengths[0])) {
                Some(n) => BodyFraming::Length(n),
                None => BodyFraming::Length(0),
            }
        } else {
            assert(length_values.len() == lengths@.map_values(
                |v: HeaderValue| header_value_bytes(v),
            ).len());
            BodyFraming::Length(0)
        }
    };
    Ok(Request { secure, method, path, http_version, headers, body, expects_continue })
}

impl Request {
    /// Whether the request came over TLS.
    pub fn secure(&self) -> (r: bool)
        ensures
            r == self@.secure,
    {
        self.secure
    }

    /// The method of the request.
    pub fn method(&self) -> (r: &Method)
        ensures
            r@ == self@.method,
    {
        &self.method
    }

    /// The target of the request, as it stood on the request line.
    pub fn url(&self) -> (r: &[u8])
        ensures
            r@ == self@.path,
    {
        self.path.as_slice()
    }

    /// The version of the protocol that the client speaks.
    pub fn http_version(&self) -> (r: &HTTPVersion)
        ensures
            *r == self@.http_version,
    {
        &self.http_version
    }

    /// The headers of the request.
    pub fn headers(&self) -> (r: &HeaderMap<HeaderValue>)
        ensures
            header_map_groups(*r) == self@.headers,
    {
        &self.headers
    }

    /// How the body of the request is delimited.
    pub fn body_framing(&self) -> (r: BodyFraming)
        ensures
            r == self@.body,
    {
        self.body
    }

    /// Whether the client still waits to be told to continue.
    pub fn expects_continue(&self) -> (r: bool)
        ensures
            r == self@.expects_continue,
    {
        self.expects_continue
    }

    /// Called before the body is read. The first time, where the client
    /// waits for it, this gives the line `HTTP/1.1 100 Continue` with its
    /// empty line, which is to be sent before any byte of the body is read;
    /// every later time it gives nothing.
    pub fn as_reader(&mut self) -> (r: Option<Vec<u8>>)
        ensures
            final(self)@ == (RequestView { expects_continue: false, ..old(self)@ }),
            r.is_some() == old(self)@.expects_continue,
            r matches Some(line) ==> line@ == continue_line(),
    {
        if self.expects_continue {
            self.expects_continue = false;
            proof {
                reveal_strlit("HTTP/1.1 100 Continue\r\n\r\n");
            }
            let text = literal("HTTP/1.1 100 Continue\r\n\r\n");
            Some(copy_range(text, 0, text.len()))
        } else {
            None
        }
    }
}

impl Request {
    /// Writes `response` as the answer to this request, as it is sent at the
    /// second `now`. The request's version and headers decide the framing,
    /// and a `HEAD` request gets no body.
    pub fn respond_at(self, response: Response, writer: &mut Vec<u8>, now: u64) -> (r: Result<
        (),
        PrintError,
    >)
        ensures
            printed(
                response@,
                self@.http_version,
                values_of(self@.headers, crate::response::te_name()),
                is_head(self@.method),
                None,
                now,
                r,
                old(writer)@,
                final(writer)@,
            ),
    {
        let do_not_send_body = self.method.is_head();
        response.raw_print_at(writer, self.http_version, &self.headers, do_not_send_body, None, now)
    }

    /// Writes `response` as the answer to this request, as it is sent now.
    pub fn respond(self, response: Response, writer: &mut Vec<u8>) -> (r: Result<(), PrintError>)
        ensures
            exists|now: u64|
                printed(
                    response@,
                    self@.http_version,
                    values_of(self@.headers, crate::response::te_name()),
                    is_head(self@.method),
                    None,
                    now,
                    r,
                    old(writer)@,
                    final(writer)@,
                ),
    {
        let do_not_send_body = self.method.is_head();
        let ghost te_values = values_of(header_map_groups(self.headers), crate::response::te_name());
        let result = response.raw_print(
            writer,
            self.http_version,
            &self.headers,
            do_not_send_body,
            None,
        );
        proof {
            let now = choose|now: u64|
                printed(
                    response@,
                    self.http_version,
                    te_values,
                    do_not_send_body,
                    upgrade_bytes(None),
                    now,
                    result,
                    old(writer)@,
                    writer@,
                );
            assert(printed(
                response@,
                self@.http_version,
                values_of(self@.headers, crate::response::te_name()),
                is_head(self@.method),
                None,
                now,
                result,
                old(writer)@,
                writer@,
            ));
        }
        result
    }

    /// Writes `response` as the answer that switches the connection to
    /// `protocol`, as it is sent at the second `now`: with the two headers
    /// that announce the switch, without framing and without body. After it
    /// the connection no longer carries HTTP.
    pub fn upgrade_at(self, protocol: &str, response: Response, writer: &mut Vec<u8>, now: u64) -> (r:
        Result<(), PrintError>)
        ensures
            printed(
                response@,
                self@.http_version,
                values_of(self@.headers, crate::response::te_name()),
                false,
                Some(protocol.spec_bytes()),
                now,
                r,
                old(writer)@,
                final(writer)@,
            ),
    {
        response.raw_print_at(writer, self.http_version, &self.headers, false, Some(protocol), now)
    }

    /// Writes `response` as the answer that switches the connection to
    /// `protocol`, as it is sent now.
    pub fn upgrade(self, protocol: &str, response: Response, writer: &mut Vec<u8>) -> (r: Result<
        (),
        PrintError,
    >)
        ensures
            exists|now: u64|
                printed(
                    response@,
                    self@.http_version,
                    values_of(self@.headers, crate::response::te_name()),
                    false,
                    Some(protocol.spec_bytes()),
                    now,
                    r,
                    old(writer)@,
                    final(writer)@,
                ),
    {
        let ghost te_values = values_of(header_map_groups(self.headers), crate::response::te_name());
        let result = response.raw_print(
            writer,
            self.http_version,
            &self.headers,
            false,
            Some(protocol),
        );
        proof {
            let now = choose|now: u64|
                printed(
                    response@,
                    self.http_version,
                    te_values,
                    false,
                    upgrade_bytes(Some(protocol)),
                    now,
                    result,
                    old(writer)@,
                    writer@,
                );
            assert(printed(
                response@,
                self@.http_version,
                values_of(self@.headers, crate::response::te_name()),
                false,
                Some(protocol.spec_bytes()),
                now,
                result,
                old(writer)@,
                writer@,
            ));
        }
        result
    }
}

} // verus!
