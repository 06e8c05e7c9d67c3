//! One connection of a client: reading request after request from the
//! bytes that arrive, and deciding what becomes of each.

use http::header::{HeaderName, HeaderValue};
use vstd::prelude::*;
use vstd::string::StringSliceAdditionalSpecFns;
use crate::common::{ascii_as_bytes, ascii_from_bytes, ascii_string_bytes};
use crate::encoding::is_visible;
use crate::headers::{
    appended, has_name, header_map_append, header_map_contains, header_map_get_all,
    header_map_groups, header_map_new, header_name_bytes, header_name_from_bytes,
    header_value_as_bytes, header_value_bytes, header_value_from_bytes, is_header_name,
    is_header_value, lemma_appended, literal_name, values_of,
};
use crate::request::{
    accepts_target, connection_header_name, is_method, Method, new_request, Request, request_of,
    RequestView, target_is_accepted,
};
use crate::response::{bytes_visible, content_type_name, Response, ResponseView};
use crate::status::StatusCode;
use crate::text::{
    all_ascii, bytes_contain, bytes_eq, bytes_of, contains_bytes, copy_range, find_byte,
    find_byte_from, literal, lower, split, split_bytes, to_lower, trim, trim_range, views,
};
use crate::version::HTTPVersion;

verus! {

/// The most header names that a request may have. Lines that repeat a name
/// do not count.
pub const MAX_REQUEST_HEADERS: usize = 4095;

/// What can go wrong with reading from a client, as far as the connection
/// tells the cases apart.
#[derive(Debug, Clone, Copy, PartialEq, Eq, Structural)]
pub enum IoErrorKind {
    /// The client sent nothing for too long.
    TimedOut,
    /// The stream ended in the middle of a line.
    ConnectionAborted,
    /// A line of the head holds a byte that is not ASCII.
    InvalidInput,
    /// Any other failure.
    Other,
}

/// Error that can happen when reading a request.
#[derive(Debug, Clone, Copy, PartialEq, Eq, Structural)]
pub enum ReadError {
    /// The request line is not a method, a target and a known version.
    WrongRequestLine,
    /// A header line is not a name, a colon and a value.
    WrongHeader(HTTPVersion),
    /// The client sent an `Expect` header that cannot be met.
    ExpectationFailed(HTTPVersion),
    /// The bytes could not be read.
    ReadIoError(IoErrorKind),
}

/// The position of the first carriage return that a line feed follows, or
/// the length of `s` where there is none.
pub open spec fn find_crlf(s: Seq<u8>) -> int
    decreases s.len(),
{
    if s.len() < 2 {
        s.len() as int
    } else if s[0] == 0x0d && s[1] == 0x0a {
        0
    } else {
        1 + find_crlf(s.skip(1))
    }
}

/// The first line of `s` and the number of bytes that it takes with its line
/// break. The line is what stands before the first line break. Without a
/// line break the stream was cut off; a line with a byte outside ASCII is
/// invalid.
pub open spec fn next_line(s: Seq<u8>) -> Result<(Seq<u8>, int), IoErrorKind> {
    let end = find_crlf(s);
    if end >= s.len() {
        Err(IoErrorKind::ConnectionAborted)
    } else if !all_ascii(s.take(end)) {
        Err(IoErrorKind::InvalidInput)
    } else {
        Ok((s.take(end), end + 2))
    }
}

/// The version that a text of the request line names.
pub open spec fn http_version_of(text: Seq<u8>) -> Option<HTTPVersion> {
    if text == bytes_of("HTTP/0.9"@) {
        Some(HTTPVersion(0, 9))
    } else if text == bytes_of("HTTP/1.0"@) {
        Some(HTTPVersion(1, 0))
    } else if text == bytes_of("HTTP/1.1"@) {
        Some(HTTPVersion(1, 1))
    } else if text == bytes_of("HTTP/2.0"@) {
        Some(HTTPVersion(2, 0))
    } else if text == bytes_of("HTTP/3.0"@) {
        Some(HTTPVersion(3, 0))
    } else {
        None
    }
}

/// The method, target and version of a request line: exactly three parts
/// with one space between them.
pub open spec fn request_line(line: Seq<u8>) -> Option<(Seq<u8>, Seq<u8>, HTTPVersion)> {
    let parts = split(line, 0x20);
    if parts.len() == 3 && is_method(parts[0]) && accepts_target(parts[1]) && http_version_of(
        parts[2],
    ).is_some() {
        Some((parts[0], parts[1], http_version_of(parts[2]).unwrap()))
    } else {
        None
    }
}

/// The name and value of a header line: the name before the first colon,
/// which must be a header name and so has no white space anywhere, and the
/// value behind it without the white space at its ends. The name is kept in
/// lower case.
pub open spec fn header_of_line(line: Seq<u8>) -> Option<(Seq<u8>, Seq<u8>)> {
    let colon = find_byte(line, 0x3a);
    let name = line.take(colon);
    let value = trim(line.skip(colon + 1));
    if colon < line.len() && is_header_name(name) && is_header_value(value) {
        Some((lower(name), value))
    } else {
        None
    }
}

/// A result with `by` more bytes counted.
pub open spec fn shifted(
    r: Result<(Seq<(Seq<u8>, Seq<Seq<u8>>)>, int), ReadError>,
    by: int,
) -> Result<(Seq<(Seq<u8>, Seq<Seq<u8>>)>, int), ReadError> {
    match r {
        Ok((groups, n)) => Ok((groups, n + by)),
        Err(e) => Err(e),
    }
}

/// Whether the groups have no room for the name: they hold the most names
/// that a request may have, and this one is not among them.
pub open spec fn is_full_for(groups: Seq<(Seq<u8>, Seq<Seq<u8>>)>, name: Seq<u8>) -> bool {
    groups.len() >= MAX_REQUEST_HEADERS && !has_name(groups, name)
}

/// The headers that `s` holds up to its first empty line, added to `groups`,
/// and the number of bytes that they take. A line that is no header, or
/// whose name is one too many, is a wrong header.
pub open spec fn read_headers(
    s: Seq<u8>,
    version: HTTPVersion,
    groups: Seq<(Seq<u8>, Seq<Seq<u8>>)>,
) -> Result<(Seq<(Seq<u8>, Seq<Seq<u8>>)>, int), ReadError>
    decreases s.len(),
{
    match next_line(s) {
        Err(kind) => Err(ReadError::ReadIoError(kind)),
        Ok((line, n)) => {
            if line.len() == 0 {
                Ok((groups, n))
            } else {
                match header_of_line(line) {
                    None => Err(ReadError::WrongHeader(version)),
                    Some((name, value)) => {
                        if is_full_for(groups, name) {
                            Err(ReadError::WrongHeader(version))
                        } else {
                            proof {
                                lemma_find_crlf(s);
                            }
                            shifted(
                                read_headers(s.skip(n), version, appended(groups, name, value)),
                                n,
                            )
                        }
                    },
                }
            }
        },
    }
}

/// The request that a request line of `n` bytes and the outcome of reading
/// the headers make.
pub open spec fn finished(
    secure: bool,
    method: Seq<u8>,
    path: Seq<u8>,
    version: HTTPVersion,
    n: int,
    headers: Result<(Seq<(Seq<u8>, Seq<Seq<u8>>)>, int), ReadError>,
) -> Result<(RequestView, int), ReadError> {
    match headers {
        Err(e) => Err(e),
        Ok((groups, m)) => match request_of(secure, method, path, version, groups) {
            Err(_) => Err(ReadError::ExpectationFailed(version)),
            Ok(request) => Ok((request, n + m)),
        },
    }
}

/// The request at the front of `s` and the number of bytes that its head
/// takes, or the error that reading it ends with.
///
/// The first line is the request line, read without the white space at its
/// ends. The header lines follow, up to the first empty line. Then the
/// headers must make a request.
pub open spec fn read_request(secure: bool, s: Seq<u8>) -> Result<(RequestView, int), ReadError> {
    match next_line(s) {
        Err(kind) => Err(ReadError::ReadIoError(kind)),
        Ok((line, n)) => match request_line(trim(line)) {
            None => Err(ReadError::WrongRequestLine),
            Some((method, path, version)) => finished(
                secure,
                method,
                path,
                version,
                n,
                read_headers(s.skip(n), version, Seq::empty()),
            ),
        },
    }
}

/// The first line break lies within `s`, and where it is not the end, a
/// carriage return and a line feed stand there.
pub proof fn lemma_find_crlf(s: Seq<u8>)
    ensures
        0 <= find_crlf(s) <= s.len(),
        find_crlf(s) < s.len() ==> find_crlf(s) + 1 < s.len() && s[find_crlf(s)] == 0x0d && s[find_crlf(
            s,
        ) + 1] == 0x0a,
    decreases s.len(),
{
    if s.len() >= 2 && !(s[0] == 0x0d && s[1] == 0x0a) {
        let t = s.skip(1);
        lemma_find_crlf(t);
        if find_crlf(s) < s.len() {
            assert(s[find_crlf(s)] == t[find_crlf(t)]);
            assert(s[find_crlf(s) + 1] == t[find_crlf(t) + 1]);
        }
    }
}

/// A position is the first line break where no line break starts before it
/// and one starts at it, or it is the end.
pub proof fn lemma_find_crlf_is(s: Seq<u8>, n: int)
    requires
        0 <= n <= s.len(),
        forall|i: int| 0 <= i < n && i + 1 < s.len() ==> !(#[trigger] s[i] == 0x0d && s[i + 1] == 0x0a),
        n < s.len() ==> n + 1 < s.len() && s[n] == 0x0d && s[n + 1] == 0x0a,
    ensures
        find_crlf(s) == n,
    decreases s.len(),
{
    if s.len() >= 2 && n > 0 {
        let t = s.skip(1);
        assert(!(s[0] == 0x0d && s[1] == 0x0a));
        assert forall|i: int| 0 <= i < n - 1 && i + 1 < t.len() implies !(#[trigger] t[i] == 0x0d
            && t[i + 1] == 0x0a) by {
            assert(t[i] == s[i + 1]);
            assert(t[i + 1] == s[i + 2]);
        }
        lemma_find_crlf_is(t, n - 1);
    }
}

/// Reads the line that starts at `start`: the bytes up to the next line
/// break, which must be ASCII, and the position behind the line break.
pub fn read_next_line(source: &[u8], start: usize) -> (r: Result<(ascii::AsciiString, usize), IoErrorKind>)
    requires
        start <= source.len(),
    ensures
        match next_line(source@.skip(start as int)) {
            Ok((line, n)) => r.is_ok() && ascii_string_bytes(r.unwrap().0) == line && r.unwrap().1
                == start + n && n >= 2 && start + n <= source.len(),
            Err(kind) => r == Err::<(ascii::AsciiString, usize), IoErrorKind>(kind),
        },
{
    let ghost rest = source@.skip(start as int);
    let mut i: usize = start;
    while i < source.len() && !(i + 1 < source.len() && source[i] == 0x0d && source[i + 1] == 0x0a)
        invariant
            start <= i <= source.len(),
            forall|k: int|
                start <= k < i && k + 1 < source.len() ==> !(#[trigger] source@[k] == 0x0d
                    && source@[k + 1] == 0x0a),
        decreases source.len() - i,
    {
        i += 1;
    }
    proof {
        assert forall|k: int| 0 <= k < i - start && k + 1 < rest.len() implies !(#[trigger] rest[k]
            == 0x0d && rest[k + 1] == 0x0a) by {
            assert(rest[k] == source@[k + start]);
            assert(rest[k + 1] == source@[k + start + 1]);
        }
        lemma_find_crlf_is(rest, i - start);
    }
    if i >= source.len() {
        return Err(IoErrorKind::ConnectionAborted);
    }
    let line = copy_range(source, start, i);
    assert(line@ == rest.take(i - start));
    match ascii_from_bytes(line) {
        Some(text) => Ok((text, i + 2)),
        None => Err(IoErrorKind::InvalidInput),
    }
}

/// Parses a version such as `HTTP/1.1`.
pub fn parse_http_version(version: &[u8]) -> (r: Result<HTTPVersion, ReadError>)
    ensures
        match http_version_of(version@) {
            Some(v) => r == Ok::<HTTPVersion, ReadError>(v),
            None => r == Err::<HTTPVersion, ReadError>(ReadError::WrongRequestLine),
        },
{
    proof {
        reveal_strlit("HTTP/0.9");
        reveal_strlit("HTTP/1.0");
        reveal_strlit("HTTP/1.1");
        reveal_strlit("HTTP/2.0");
        reveal_strlit("HTTP/3.0");
    }
    if bytes_eq(version, literal("HTTP/0.9")) {
        Ok(HTTPVersion(0, 9))
    } else if bytes_eq(version, literal("HTTP/1.0")) {
        Ok(HTTPVersion(1, 0))
    } else if bytes_eq(version, literal("HTTP/1.1")) {
        Ok(HTTPVersion(1, 1))
    } else if bytes_eq(version, literal("HTTP/2.0")) {
        Ok(HTTPVersion(2, 0))
    } else if bytes_eq(version, literal("HTTP/3.0")) {
        Ok(HTTPVersion(3, 0))
    } else {
        Err(ReadError::WrongRequestLine)
    }
}

/// Parses the request line of a request, such as `GET / HTTP/1.1`, given as
/// bytes.
pub fn parse_request_line_bytes(line: &[u8]) -> (r: Result<(Method, Vec<u8>, HTTPVersion), ReadError>)
    ensures
        match request_line(line@) {
            Some((method, path, version)) => r.is_ok() && r.unwrap().0@ == method && r.unwrap().1@
                == path && r.unwrap().2 == version,
            None => r == Err::<(Method, Vec<u8>, HTTPVersion), ReadError>(
                ReadError::WrongRequestLine,
            ),
        },
{
    let parts = split_bytes(line, 0x20);
    if parts.len() != 3 {
        assert(views(parts@).len() == parts@.len());
        return Err(ReadError::WrongRequestLine);
    }
    assert(views(parts@)[0] == parts@[0]@);
    assert(views(parts@)[1] == parts@[1]@);
    assert(views(parts@)[2] == parts@[2]@);
    let method = match Method::from_bytes(parts[0].as_slice()) {
        Some(method) => method,
        None => {
            return Err(ReadError::WrongRequestLine);
        },
    };
    if !target_is_accepted(parts[1].as_slice()) {
        return Err(ReadError::WrongRequestLine);
    }
    let version = match parse_http_version(parts[2].as_slice()) {
        Ok(version) => version,
        Err(e) => {
            return Err(e);
        },
    };
    let path = copy_range(parts[1].as_slice(), 0, parts[1].len());
    assert(path@ == parts@[1]@);
    Ok((method, path, version))
}

/// Parses the request line of a request, such as `GET / HTTP/1.1`.
pub fn parse_request_line(line: &str) -> (r: Result<(Method, Vec<u8>, HTTPVersion), ReadError>)
    ensures
        match request_line(line.spec_bytes()) {
            Some((method, path, version)) => r.is_ok() && r.unwrap().0@ == method && r.unwrap().1@
                == path && r.unwrap().2 == version,
            None => r == Err::<(Method, Vec<u8>, HTTPVersion), ReadError>(
                ReadError::WrongRequestLine,
            ),
        },
{
    parse_request_line_bytes(line.as_bytes())
}

/// Parses one header line into a name and a value.
pub fn parse_header_line(line: &[u8]) -> (r: Option<(HeaderName, HeaderValue)>)
    ensures
        match header_of_line(line@) {
            Some((name, value)) => r.is_some() && header_name_bytes(r.unwrap().0) == name
                && header_value_bytes(r.unwrap().1) == value,
            None => r.is_none(),
        },
{
    let colon = find_byte_from(line, 0, 0x3a);
    assert(line@.skip(0) == line@);
    if colon >= line.len() {
        return None;
    }
    let name_text = copy_range(line, 0, colon);
    assert(name_text@ == line@.take(colon as int));
    let name = match header_name_from_bytes(name_text.as_slice()) {
        Some(name) => name,
        None => {
            return None;
        },
    };
    let (a, b) = trim_range(line, colon + 1, line.len());
    assert(line@.subrange(colon + 1, line.len() as int) == line@.skip(colon + 1));
    let value_text = copy_range(line, a, b);
    match header_value_from_bytes(value_text.as_slice()) {
        Some(value) => Some((name, value)),
        None => None,
    }
}

/// Whether a version is one that this server does not speak: any but
/// HTTP/1.0 and HTTP/1.1.
pub open spec fn unsupported(version: HTTPVersion) -> bool {
    version != HTTPVersion(1, 0) && version != HTTPVersion(1, 1)
}

/// Whether a request is the last one of its connection, going by its version
/// and the values of its `Connection` header.
///
/// The first value counts, in lower case, where it is printable text. It
/// ends the connection where it holds `close` or `upgrade`. A request of
/// HTTP/1.0 ends it as well unless the value holds `keep-alive`.
pub open spec fn closes_after(version: HTTPVersion, connection_values: Seq<Seq<u8>>) -> bool {
    if connection_values.len() > 0 && is_visible(connection_values[0]) {
        let value = lower(connection_values[0]);
        contains_bytes(value, bytes_of("close"@)) || contains_bytes(value, bytes_of("upgrade"@)) || (
        !contains_bytes(value, bytes_of("keep-alive"@)) && version == HTTPVersion(1, 0))
    } else {
        version == HTTPVersion(1, 0)
    }
}

/// What the connection does next, as the contracts see it.
pub enum NextView {
    /// Nothing more comes from this connection.
    Closed,
    /// This response goes out, and then the connection is closed.
    Reject { response: ResponseView, http_version: HTTPVersion, do_not_send_body: bool },
    /// This request goes to the application.
    Serve(RequestView),
}

/// A response without headers and body.
pub open spec fn empty_response(status: u16) -> ResponseView {
    ResponseView {
        status,
        headers: Seq::empty(),
        data: Seq::empty(),
        data_length: Some(0),
        chunked_threshold: None,
    }
}

/// The body of the answer to a request of a version that is not supported.
pub open spec fn version_notice() -> Seq<u8> {
    "This server only supports HTTP versions 1.0 and 1.1".spec_bytes()
}

/// The answer to a request of a version that is not supported.
pub open spec fn version_response() -> ResponseView {
    ResponseView {
        status: 505,
        headers: seq![(content_type_name(), seq![bytes_of("text/plain; charset=UTF-8"@)])],
        data: version_notice(),
        data_length: Some(version_notice().len() as usize),
        chunked_threshold: None,
    }
}

/// What is answered to a request that could not be read: 400 for a wrong
/// request line or header, 408 when the client took too long, 417 for an
/// expectation that cannot be met, and nothing at all for any other failure
/// of reading. Without a version of the request the answer speaks HTTP/1.1.
pub open spec fn rejection(error: ReadError) -> NextView {
    match error {
        ReadError::WrongRequestLine => NextView::Reject {
            response: empty_response(400),
            http_version: HTTPVersion(1, 1),
            do_not_send_body: false,
        },
        ReadError::WrongHeader(version) => NextView::Reject {
            response: empty_response(400),
            http_version: version,
            do_not_send_body: false,
        },
        ReadError::ReadIoError(IoErrorKind::TimedOut) => NextView::Reject {
            response: empty_response(408),
            http_version: HTTPVersion(1, 1),
            do_not_send_body: false,
        },
        ReadError::ExpectationFailed(version) => NextView::Reject {
            response: empty_response(417),
            http_version: version,
            do_not_send_body: true,
        },
        ReadError::ReadIoError(_) => NextView::Closed,
    }
}

/// What a connection does with the outcome of reading a request, and
/// whether it is closed afterwards.
///
/// A closed connection stays closed. An error is answered as `rejection`
/// says and closes the connection. A request of any version but 1.0 and 1.1
/// is answered with 505 and closes the connection. Every other request is
/// served, and closes the connection where `closes_after` says so.
pub open spec fn decided(closed: bool, outcome: Result<RequestView, ReadError>) -> (bool, NextView) {
    if closed {
        (true, NextView::Closed)
    } else {
        match outcome {
            Err(error) => (true, rejection(error)),
            Ok(request) => {
                if unsupported(request.http_version) {
                    (
                        true,
                        NextView::Reject {
                            response: version_response(),
                            http_version: HTTPVersion(1, 1),
                            do_not_send_body: false,
                        },
                    )
                } else {
                    (
                        closes_after(
                            request.http_version,
                            values_of(request.headers, connection_header_name()),
                        ),
                        NextView::Serve(request),
                    )
                }
            },
        }
    }
}

/// What a connection does next.
pub enum Next {
    /// Nothing more comes from this connection.
    Closed,
    /// This response goes out, in the given version and with or without its
    /// body, and then the connection is closed.
    Reject { response: Response, http_version: HTTPVersion, do_not_send_body: bool },
    /// This request goes to the application.
    Serve(Request),
}

impl View for Next {
    type V = NextView;

    open spec fn view(&self) -> NextView {
        match self {
            Next::Closed => NextView::Closed,
            Next::Reject { response, http_version, do_not_send_body } => NextView::Reject {
                response: response@,
                http_version: *http_version,
                do_not_send_body: *do_not_send_body,
            },
            Next::Serve(request) => NextView::Serve(request@),
        }
    }
}

/// The outcome of reading, as the contracts see it.
pub open spec fn outcome_view(outcome: Result<Request, ReadError>) -> Result<RequestView, ReadError> {
    match outcome {
        Ok(request) => Ok(request@),
        Err(error) => Err(error),
    }
}

/// A connection of a client, from which requests are read one after the
/// other until one of them is the last.
pub struct ClientConnection {
    // true if the connection goes through TLS
    secure: bool,
    // set to true once the last request of the connection was read
    no_more_requests: bool,
}

impl ClientConnection {
    /// Whether the connection goes through TLS.
    pub closed spec fn is_secure(&self) -> bool {
        self.secure
    }

    /// Whether no more requests are read from the connection.
    pub closed spec fn is_closed(&self) -> bool {
        self.no_more_requests
    }

    /// A new connection, from which nothing was read yet.
    pub fn new(secure: bool) -> (r: ClientConnection)
        ensures
            r.is_secure() == secure,
            !r.is_closed(),
    {
        ClientConnection { secure, no_more_requests: false }
    }

    /// true if the connection is HTTPS
    pub fn secure(&self) -> (r: bool)
        ensures
            r == self.is_secure(),
    {
        self.secure
    }

    /// Whether the connection is closed: the last request was read.
    pub fn no_more_requests(&self) -> (r: bool)
        ensures
            r == self.is_closed(),
    {
        self.no_more_requests
    }

    /// Reads the head of one request from the front of `source`: the request
    /// line, then header lines up to the empty line. Gives the request and
    /// the number of bytes that its head takes.
    pub fn read(&self, source: &[u8]) -> (r: Result<(Request, usize), ReadError>)
        ensures
            match read_request(self.is_secure(), source@) {
                Ok((request, n)) => r.is_ok() && r.unwrap().0@ == request && r.unwrap().1 == n && n
                    <= source.len(),
                Err(error) => r == Err::<(Request, usize), ReadError>(error),
            },
    {
        assert(source@.skip(0) == source@);
        let (first, start) = match read_next_line(source, 0) {
            Ok(found) => found,
            Err(kind) => {
                return Err(ReadError::ReadIoError(kind));
            },
        };
        let text = ascii_as_bytes(&first);
        let (a, b) = trim_range(text, 0, text.len());
        assert(text@.subrange(0, text.len() as int) == text@);
        let trimmed = copy_range(text, a, b);
        let (method, path, version) = match parse_request_line_bytes(trimmed.as_slice()) {
            Ok(parts) => parts,
            Err(e) => {
                return Err(e);
            },
        };
        let ghost whole = read_headers(source@.skip(start as int), version, Seq::empty());
        let mut headers = header_map_new();
        let mut names: usize = 0;
        let mut pos: usize = start;
        assert(read_request(self.is_secure(), source@) == finished(
            self.is_secure(),
            method@,
            path@,
            version,
            start as int,
            whole,
        ));
        loop
            invariant_except_break
                names <= MAX_REQUEST_HEADERS,
                header_map_groups(headers).len() == names,
                whole == shifted(
                    read_headers(source@.skip(pos as int), version, header_map_groups(headers)),
                    pos - start,
                ),
            invariant
                start <= pos <= source.len(),
                read_request(self.is_secure(), source@) == finished(
                    self.is_secure(),
                    method@,
                    path@,
                    version,
                    start as int,
                    whole,
                ),
            ensures
                start <= pos <= source.len(),
                whole == Ok::<(Seq<(Seq<u8>, Seq<Seq<u8>>)>, int), ReadError>(
                    (header_map_groups(headers), pos - start),
                ),
            decreases source.len() - pos,
        {
            let ghost rest = source@.skip(pos as int);
            let (line, next) = match read_next_line(source, pos) {
                Ok(found) => found,
                Err(kind) => {
                    return Err(ReadError::ReadIoError(kind));
                },
            };
            let bytes = ascii_as_bytes(&line);
            if bytes.len() == 0 {
                pos = next;
                break ;
            }
            let (name, value) = match parse_header_line(bytes) {
                Some(pair) => pair,
                None => {
                    return Err(ReadError::WrongHeader(version));
                },
            };
            let known = header_map_contains(&headers, &name);
            if names >= MAX_REQUEST_HEADERS && !known {
                return Err(ReadError::WrongHeader(version));
            }
            proof {
                lemma_appended(
                    header_map_groups(headers),
                    header_name_bytes(name),
                    header_value_bytes(value),
                );
                assert(rest.skip(next - pos) == source@.skip(next as int));
            }
            header_map_append(&mut headers, &name, &value);
            if !known {
                names += 1;
            }
            pos = next;
        }
        match new_request(self.secure, method, path, version, headers) {
            Ok(request) => Ok((request, pos)),
            Err(_) => Err(ReadError::ExpectationFailed(version)),
        }
    }

    /// Decides what becomes of the outcome of reading a request, and closes
    /// the connection where that request is the last.
    pub fn decide(&mut self, outcome: Result<Request, ReadError>) -> (r: Next)
        ensures
            (final(self).is_closed(), r@) == decided(old(self).is_closed(), outcome_view(outcome)),
            final(self).is_secure() == old(self).is_secure(),
    {
        if self.no_more_requests {
            return Next::Closed;
        }
        let request = match outcome {
            Ok(request) => request,
            Err(error) => {
                self.no_more_requests = true;
                return match error {
                    ReadError::WrongRequestLine => Next::Reject {
                        response: Response::new_empty(StatusCode::of(400)),
                        http_version: HTTPVersion(1, 1),
                        do_not_send_body: false,
                    },
                    ReadError::WrongHeader(version) => Next::Reject {
                        response: Response::new_empty(StatusCode::of(400)),
                        http_version: version,
                        do_not_send_body: false,
                    },
                    ReadError::ReadIoError(IoErrorKind::TimedOut) => Next::Reject {
                        response: Response::new_empty(StatusCode::of(408)),
                        http_version: HTTPVersion(1, 1),
                        do_not_send_body: false,
                    },
                    ReadError::ExpectationFailed(version) => Next::Reject {
                        response: Response::new_empty(StatusCode::of(417)),
                        http_version: version,
                        do_not_send_body: true,
                    },
                    ReadError::ReadIoError(_) => Next::Closed,
                };
            },
        };
        // checking HTTP version
        let version = *request.http_version();
        if !(version.0 == 1 && (version.1 == 0 || version.1 == 1)) {
            self.no_more_requests = true;
            let response = Response::from_string(
                "This server only supports HTTP versions 1.0 and 1.1",
            ).with_status_code(StatusCode::of(505));
            return Next::Reject {
                response,
                http_version: HTTPVersion(1, 1),
                do_not_send_body: false,
            };
        }
        // updating the status of the connection
        proof {
            reveal_strlit("connection");
            reveal_strlit("close");
            reveal_strlit("upgrade");
            reveal_strlit("keep-alive");
            assert(lower(connection_header_name()) =~= connection_header_name());
        }
        let is_1_0 = version.0 == 1 && version.1 == 0;
        let values = header_map_get_all(request.headers(), &literal_name("connection"));
        let ghost connection_values = values_of(request@.headers, connection_header_name());
        if values.len() > 0 {
            let first = header_value_as_bytes(&values[0]);
            assert(first@ == connection_values[0]) by {
                assert(values@.map_values(|v: HeaderValue| header_value_bytes(v))[0]
                    == header_value_bytes(values@[0]));
            }
            if bytes_visible(first) {
                let value = to_lower(first);
                if bytes_contain(value.as_slice(), literal("close")) || bytes_contain(
                    value.as_slice(),
                    literal("upgrade"),
                ) || (!bytes_contain(value.as_slice(), literal("keep-alive")) && is_1_0) {
                    self.no_more_requests = true;
                }
            } else if is_1_0 {
                self.no_more_requests = true;
            }
        } else {
            assert(connection_values.len() == values@.map_values(
                |v: HeaderValue| header_value_bytes(v),
            ).len());
            if is_1_0 {
                self.no_more_requests = true;
            }
        }
        Next::Serve(request)
    }

    /// Reads the next request from the front of `source`, unless the
    /// connection is closed, and decides what becomes of it. Gives the
    /// decision and the number of bytes that the head of a served request
    /// takes.
    pub fn next(&mut self, source: &[u8]) -> (r: (Next, usize))
        ensures
            final(self).is_secure() == old(self).is_secure(),
            old(self).is_closed() ==> final(self).is_closed() && r.0@ == NextView::Closed && r.1
                == 0,
            !old(self).is_closed() ==> match read_request(old(self).is_secure(), source@) {
                Ok((request, n)) => (final(self).is_closed(), r.0@) == decided(
                    false,
                    Ok::<RequestView, ReadError>(request),
                ) && r.1 == n,
                Err(error) => (final(self).is_closed(), r.0@) == decided(
                    false,
                    Err::<RequestView, ReadError>(error),
                ) && r.1 == 0,
            },
    {
        // the client sent a "connection: close" header in the previous
        // request or is using HTTP 1.0, meaning that no new request will come
        if self.no_more_requests {
            return (Next::Closed, 0);
        }
        match self.read(source) {
            Ok((request, n)) => (self.decide(Ok(request)), n),
            Err(error) => (self.decide(Err(error)), 0),
        }
    }
}

} // verus!
