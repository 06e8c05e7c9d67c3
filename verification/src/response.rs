//! Responses: their headers, the choice of framing, and the bytes that go on
//! the wire.

use http::header::{HeaderMap, HeaderName, HeaderValue};
use vstd::prelude::*;
use vstd::string::{StringSliceAdditionalSpecFns, StrSliceExecFns};
use crate::chunked::{
    chunked, crlf, ends_with, lemma_chunked_ends_with_terminator, terminator, write_chunked,
};
use crate::date::{date_at, DATE_LIMIT, http_date_bytes, unix_time_now};
use crate::encoding::{chosen_encoding, parse_preferred, requested, TransferEncoding};
use crate::headers::{
    appended, distinct_names, has_name, header_map_append, header_map_clone, header_map_contains,
    header_map_get_all, header_map_groups, header_map_insert, header_map_names, header_map_new,
    header_map_pairs, header_name_as_bytes, header_name_bytes, header_value_as_bytes,
    header_value_bytes, header_value_from_bytes, inserted, is_header_name, is_header_value,
    lemma_appended, lemma_appended_values, lemma_inserted, lemma_inserted_values, lemma_names_bound,
    lemma_pairs_names, literal_name, literal_value, MAX_HEADER_NAMES, pairs, values_of,
};
use crate::status::{is_bodiless, status_text, StatusCode};
use crate::text::{
    bytes_eq, bytes_of, copy_range, decimal, decimal_bytes, lemma_decimal_digits, literal, lower,
    parse_usize, push_all, unsigned_value,
};
use crate::version::HTTPVersion;

verus! {

/// The body length from which on a response is chunked, unless it says
/// otherwise.
pub const DEFAULT_CHUNKED_THRESHOLD: usize = 32768;

/// The most distinct header names that a response may hold. The headers that
/// are added when the response is sent come on top.
pub const MAX_RESPONSE_NAMES: usize = 4092;

/// The name of the `Connection` header.
pub open spec fn connection_name() -> Seq<u8> {
    bytes_of("connection"@)
}

/// The name of the `Trailer` header.
pub open spec fn trailer_name() -> Seq<u8> {
    bytes_of("trailer"@)
}

/// The name of the `Transfer-Encoding` header.
pub open spec fn transfer_encoding_name() -> Seq<u8> {
    bytes_of("transfer-encoding"@)
}

/// The name of the `Upgrade` header.
pub open spec fn upgrade_name() -> Seq<u8> {
    bytes_of("upgrade"@)
}

/// The name of the `Content-Length` header.
pub open spec fn content_length_name() -> Seq<u8> {
    bytes_of("content-length"@)
}

/// The name of the `Content-Type` header.
pub open spec fn content_type_name() -> Seq<u8> {
    bytes_of("content-type"@)
}

/// The name of the `Date` header.
pub open spec fn date_name() -> Seq<u8> {
    bytes_of("date"@)
}

/// The name of the `Server` header.
pub open spec fn server_name() -> Seq<u8> {
    bytes_of("server"@)
}

/// The name of the `TE` header.
pub open spec fn te_name() -> Seq<u8> {
    bytes_of("te"@)
}

/// The value of the `Server` header that is added to a response without one.
pub open spec fn server_value() -> Seq<u8> {
    bytes_of("tiny-http"@)
}

/// The names that an application cannot set, because the server chooses
/// them: `Connection`, `Trailer`, `Transfer-Encoding` and `Upgrade`.
pub open spec fn is_forbidden(name: Seq<u8>) -> bool {
    name == connection_name() || name == trailer_name() || name == transfer_encoding_name() || name
        == upgrade_name()
}

/// Whether no group has a forbidden name.
pub open spec fn no_forbidden(groups: Seq<(Seq<u8>, Seq<Seq<u8>>)>) -> bool {
    forall|i: int| 0 <= i < groups.len() ==> !is_forbidden((#[trigger] groups[i]).0)
}

/// The length that a `Content-Length` value declares: that of an unsigned
/// decimal number that fits the machine.
pub open spec fn declared_length(value: Seq<u8>) -> Option<usize> {
    match unsigned_value(value) {
        Some(n) => if n <= usize::MAX {
            Some(n as usize)
        } else {
            None
        },
        None => None,
    }
}

/// What a response is, as the contracts see it.
pub struct ResponseView {
    /// The status code.
    pub status: u16,
    /// The header groups, in order.
    pub headers: Seq<(Seq<u8>, Seq<Seq<u8>>)>,
    /// The body.
    pub data: Seq<u8>,
    /// The length that was declared for the body, if any.
    pub data_length: Option<usize>,
    /// The threshold that was set for chunking, if any.
    pub chunked_threshold: Option<usize>,
}

impl ResponseView {
    /// What holds of every response: the status is a three-digit number, no
    /// header has a forbidden name or is a `Content-Length`, no two groups
    /// have the same name, and the names are few enough to leave room for
    /// those that are added on sending.
    pub open spec fn wf(self) -> bool {
        &&& 100 <= self.status <= 999
        &&& no_forbidden(self.headers)
        &&& !has_name(self.headers, content_length_name())
        &&& distinct_names(self.headers)
        &&& self.headers.len() <= MAX_RESPONSE_NAMES
    }

    /// Whether a header of this name is stored with the headers: not where
    /// its name is forbidden, and not a `Content-Length`.
    pub open spec fn stores(name: Seq<u8>) -> bool {
        !is_forbidden(name) && name != content_length_name()
    }

    /// Whether the response can take a header of this name: the header is
    /// not stored, or its name is there already, or there is room for one
    /// more name.
    pub open spec fn has_room_for(self, name: Seq<u8>) -> bool {
        !Self::stores(name) || has_name(self.headers, name) || self.headers.len()
            < MAX_RESPONSE_NAMES
    }

    /// The body length from which on the response is chunked.
    pub open spec fn threshold(self) -> usize {
        match self.chunked_threshold {
            Some(n) => n,
            None => DEFAULT_CHUNKED_THRESHOLD,
        }
    }

    /// The response after the application added one header.
    ///
    /// A forbidden name changes nothing. `Content-Length` sets the declared
    /// length where its value is a number, and is not stored. `Content-Type`
    /// takes the place of an earlier one. Any other header is added to those
    /// of its name.
    pub open spec fn with_header(self, name: Seq<u8>, value: Seq<u8>) -> ResponseView {
        if is_forbidden(name) {
            self
        } else if name == content_length_name() {
            match declared_length(value) {
                Some(n) => ResponseView { data_length: Some(n), ..self },
                None => self,
            }
        } else if name == content_type_name() {
            ResponseView { headers: inserted(self.headers, name, value), ..self }
        } else {
            ResponseView { headers: appended(self.headers, name, value), ..self }
        }
    }

    /// The response after the application added the headers `list`, first to
    /// last.
    pub open spec fn with_headers(self, list: Seq<(Seq<u8>, Seq<u8>)>) -> ResponseView
        decreases list.len(),
    {
        if list.len() == 0 {
            self
        } else {
            self.with_headers(list.drop_last()).with_header(list.last().0, list.last().1)
        }
    }

    /// The length that `Content-Length` announces, which is the number of
    /// body bytes that are sent without a transfer encoding: the declared
    /// length as far as the body has that many bytes, or the length of the
    /// body where none was declared.
    pub open spec fn announced_length(self) -> nat {
        match self.data_length {
            Some(n) => if n <= self.data.len() {
                n as nat
            } else {
                self.data.len()
            },
            None => self.data.len(),
        }
    }
}

/// What adding a header does to the headers of a well-formed response: a
/// header that is not stored leaves them as they are; a stored one adds at
/// most its own name, and a new name only where the name was not there. The
/// response stays well formed where it had room.
pub proof fn lemma_with_header(view: ResponseView, name: Seq<u8>, value: Seq<u8>)
    requires
        view.wf(),
    ensures
        !ResponseView::stores(name) ==> view.with_header(name, value).headers == view.headers,
        distinct_names(view.with_header(name, value).headers),
        no_forbidden(view.with_header(name, value).headers),
        !has_name(view.with_header(name, value).headers, content_length_name()),
        view.with_header(name, value).headers.len() == if ResponseView::stores(name) && !has_name(
            view.headers,
            name,
        ) {
            view.headers.len() + 1
        } else {
            view.headers.len()
        },
        forall|k: int|
            0 <= k < view.with_header(name, value).headers.len() ==> {
                ||| (#[trigger] view.with_header(name, value).headers[k]).0 == name
                ||| has_name(view.headers, view.with_header(name, value).headers[k].0)
            },
        view.has_room_for(name) ==> view.with_header(name, value).wf(),
{
    lemma_appended(view.headers, name, value);
    lemma_inserted(view.headers, name, value);
    lemma_appended_values(view.headers, name, value);
    lemma_inserted_values(view.headers, name, value);
    let after = view.with_header(name, value).headers;
    assert forall|k: int| 0 <= k < after.len() implies {
        ||| (#[trigger] after[k]).0 == name
        ||| has_name(view.headers, after[k].0)
    } by {
        if after[k].0 != name {
            assert(k < view.headers.len() && after[k].0 == view.headers[k].0);
        }
    }
    assert(!has_name(after, content_length_name())) by {
        if has_name(after, content_length_name()) {
            let k = choose|k: int| 0 <= k < after.len() && (#[trigger] after[k]).0
                == content_length_name();
            assert(after[k].0 == name || has_name(view.headers, after[k].0));
        }
    }
}

/// A header that is stored and is no `Content-Type` comes behind the values
/// that its name has, and a `Content-Type` becomes the only one; the values
/// of every other name stay as they are.
pub proof fn lemma_stored_header(view: ResponseView, name: Seq<u8>, value: Seq<u8>)
    requires
        view.wf(),
        ResponseView::stores(name),
    ensures
        values_of(view.with_header(name, value).headers, name) == if name == content_type_name() {
            seq![value]
        } else {
            values_of(view.headers, name).push(value)
        },
        forall|other: Seq<u8>|
            other != name ==> #[trigger] values_of(view.with_header(name, value).headers, other)
                == values_of(view.headers, other),
{
    lemma_appended_values(view.headers, name, value);
    lemma_inserted_values(view.headers, name, value);
}

/// The upper-case form of one byte.
pub open spec fn upper_byte(b: u8) -> u8 {
    if 0x61 <= b <= 0x7a {
        (b - 32) as u8
    } else {
        b
    }
}

/// A header name as it is written: the first letter and each letter behind a
/// hyphen in upper case, as in `Content-Length`.
pub open spec fn title_case(name: Seq<u8>) -> Seq<u8> {
    Seq::new(
        name.len(),
        |i: int|
            if i == 0 || name[i - 1] == 0x2d {
                upper_byte(name[i])
            } else {
                name[i]
            },
    )
}

/// One header line: the name, a colon and a space, the value, a line break.
pub open spec fn header_line(name: Seq<u8>, value: Seq<u8>) -> Seq<u8> {
    title_case(name) + seq![0x3au8, 0x20u8] + value + crlf()
}

/// The header lines of the pairs `list`, in order.
pub open spec fn header_lines(list: Seq<(Seq<u8>, Seq<u8>)>) -> Seq<u8>
    decreases list.len(),
{
    if list.len() == 0 {
        Seq::empty()
    } else {
        header_lines(list.drop_last()) + header_line(list.last().0, list.last().1)
    }
}

/// The protocol name with the version, such as `HTTP/1.1`.
pub open spec fn version_text(version: HTTPVersion) -> Seq<u8> {
    bytes_of("HTTP/"@) + decimal(version.0 as nat) + seq![0x2eu8] + decimal(version.1 as nat)
}

/// The status line: version, code and reason phrase, and a line break.
pub open spec fn status_line(version: HTTPVersion, status: u16) -> Seq<u8> {
    version_text(version) + seq![0x20u8] + status_text(status) + crlf()
}

/// The two header lines that announce a switch of protocol.
pub open spec fn upgrade_lines(upgrade: Option<Seq<u8>>) -> Seq<u8> {
    match upgrade {
        Some(protocol) => header_line(upgrade_name(), protocol) + header_line(
            connection_name(),
            bytes_of("Upgrade"@),
        ),
        None => Seq::empty(),
    }
}

/// The head of a message: status line, the lines of a protocol switch, the
/// header lines, and an empty line.
pub open spec fn message_header(
    version: HTTPVersion,
    status: u16,
    upgrade: Option<Seq<u8>>,
    groups: Seq<(Seq<u8>, Seq<Seq<u8>>)>,
) -> Seq<u8> {
    status_line(version, status) + upgrade_lines(upgrade) + header_lines(pairs(groups)) + crlf()
}

/// The groups with `value` under `name`, unless the name is there already.
pub open spec fn with_default(groups: Seq<(Seq<u8>, Seq<Seq<u8>>)>, name: Seq<u8>, value: Seq<u8>) -> Seq<
    (Seq<u8>, Seq<Seq<u8>>),
> {
    if has_name(groups, name) {
        groups
    } else {
        appended(groups, name, value)
    }
}

/// The framing of a response: none when the protocol is switched, else the
/// transfer encoding that the request and the response call for.
pub open spec fn framing(
    view: ResponseView,
    version: HTTPVersion,
    te_values: Seq<Seq<u8>>,
    upgrade: Option<Seq<u8>>,
) -> Option<TransferEncoding> {
    if upgrade.is_some() {
        None
    } else {
        Some(
            chosen_encoding(
                view.status,
                te_values,
                version,
                view.data_length,
                false,
                view.threshold(),
            ),
        )
    }
}

/// The groups with the header of a framing added: `Transfer-Encoding:
/// chunked` for a chunked message, `Content-Length` with `length` for one
/// that is sent as it is, nothing without framing.
pub open spec fn framed(
    groups: Seq<(Seq<u8>, Seq<Seq<u8>>)>,
    encoding: Option<TransferEncoding>,
    length: nat,
) -> Seq<(Seq<u8>, Seq<Seq<u8>>)> {
    match encoding {
        Some(TransferEncoding::Chunked) => appended(
            groups,
            transfer_encoding_name(),
            bytes_of("chunked"@),
        ),
        Some(TransferEncoding::Identity) => appended(groups, content_length_name(), decimal(length)),
        None => groups,
    }
}

/// The groups with a `Date` header for `date`, unless they have one, or no
/// date can be written.
pub open spec fn dated(groups: Seq<(Seq<u8>, Seq<Seq<u8>>)>, date: Option<Seq<u8>>) -> Seq<
    (Seq<u8>, Seq<Seq<u8>>),
> {
    match date {
        Some(text) => with_default(groups, date_name(), text),
        None => groups,
    }
}

/// The headers that are sent: those of the response, a `Date` header where
/// it has none and the date can be written, a `Server` header where it has
/// none, and the header of its framing.
pub open spec fn sent_headers(
    view: ResponseView,
    encoding: Option<TransferEncoding>,
    date: Option<Seq<u8>>,
) -> Seq<(Seq<u8>, Seq<Seq<u8>>)> {
    let served = with_default(dated(view.headers, date), server_name(), server_value());
    framed(served, encoding, view.announced_length())
}

/// Whether the body goes out: not when the caller asks to leave it out, and
/// never with a status that has no body.
pub open spec fn body_is_sent(status: u16, do_not_send_body: bool) -> bool {
    !do_not_send_body && !is_bodiless(status)
}

/// The body bytes of a response that is sent without a transfer encoding:
/// as many as announced.
pub open spec fn identity_body(view: ResponseView) -> Seq<u8> {
    view.data.take(view.announced_length() as int)
}

/// The bytes that follow the head.
pub open spec fn message_body(view: ResponseView, encoding: Option<TransferEncoding>, do_not_send_body: bool) -> Seq<
    u8,
> {
    if !body_is_sent(view.status, do_not_send_body) {
        Seq::empty()
    } else {
        match encoding {
            Some(TransferEncoding::Chunked) => chunked(view.data),
            Some(TransferEncoding::Identity) => identity_body(view),
            None => Seq::empty(),
        }
    }
}

/// The whole message as it goes on the wire.
pub open spec fn message(
    view: ResponseView,
    version: HTTPVersion,
    te_values: Seq<Seq<u8>>,
    do_not_send_body: bool,
    upgrade: Option<Seq<u8>>,
    date: Option<Seq<u8>>,
) -> Seq<u8> {
    let encoding = framing(view, version, te_values, upgrade);
    message_header(version, view.status, upgrade, sent_headers(view, encoding, date))
        + message_body(view, encoding, do_not_send_body)
}

/// The pairs of name and value that the items of `list` stand for.
pub open spec fn named(list: Seq<(HeaderName, HeaderValue)>) -> Seq<(Seq<u8>, Seq<u8>)> {
    list.map_values(|p: (HeaderName, HeaderValue)| (header_name_bytes(p.0), header_value_bytes(p.1)))
}

/// An HTTP response that is built step by step and then written out once.
///
/// Some headers cannot be set, and setting one of them has no effect:
/// `Connection`, `Trailer`, `Transfer-Encoding` and `Upgrade`. Setting
/// `Content-Length` declares the length of the body; the header itself is
/// written only where the response is sent without a transfer encoding.
/// `Content-Type` has one value at a time: setting it again replaces it.
pub struct Response {
    data: Vec<u8>,
    status_code: StatusCode,
    headers: HeaderMap<HeaderValue>,
    data_length: Option<usize>,
    chunked_threshold: Option<usize>,
}

impl View for Response {
    type V = ResponseView;

    closed spec fn view(&self) -> ResponseView {
        ResponseView {
            status: self.status_code@,
            headers: header_map_groups(self.headers),
            data: self.data@,
            data_length: self.data_length,
            chunked_threshold: self.chunked_threshold,
        }
    }
}

impl Clone for Response {
    fn clone(&self) -> (r: Response) {
        self.duplicate()
    }
}

/// Whether `name` is one of the names that the server chooses.
pub fn name_is_forbidden(name: &[u8]) -> (r: bool)
    ensures
        r == is_forbidden(name@),
{
    proof {
        reveal_strlit("connection");
        reveal_strlit("trailer");
        reveal_strlit("transfer-encoding");
        reveal_strlit("upgrade");
    }
    bytes_eq(name, literal("connection")) || bytes_eq(name, literal("trailer")) || bytes_eq(
        name,
        literal("transfer-encoding"),
    ) || bytes_eq(name, literal("upgrade"))
}

impl Response {
    #[verifier::type_invariant]
    spec fn valid(self) -> bool {
        self@.wf()
    }

    /// Creates a response with the given status, headers and body.
    ///
    /// The headers of `headers` are added one by one as `add_header` adds
    /// them, and after them those of `additional_headers`. The names of
    /// `headers` and the headers of `additional_headers` together must not be
    /// more than a response can hold.
    pub fn new(
        status_code: StatusCode,
        headers: HeaderMap<HeaderValue>,
        data: Vec<u8>,
        data_length: Option<usize>,
        additional_headers: Option<Vec<(HeaderName, HeaderValue)>>,
    ) -> (r: Response)
        requires
            header_map_groups(headers).len() + (match additional_headers {
                Some(list) => list@.len(),
                None => 0,
            }) <= MAX_RESPONSE_NAMES,
        ensures
            r@.wf(),
            r@ == (ResponseView {
                status: status_code@,
                headers: Seq::empty(),
                data: data@,
                data_length: data_length,
                chunked_threshold: None,
            }).with_headers(pairs(header_map_groups(headers))).with_headers(
                match additional_headers {
                    Some(list) => named(list@),
                    None => Seq::empty(),
                },
            ),
    {
        let code = status_code.as_u16();
        let mut response = Response {
            data,
            status_code,
            headers: header_map_new(),
            data_length,
            chunked_threshold: None,
        };
        let ghost base = response@;
        let given = header_map_pairs(&headers);
        let ghost groups = header_map_groups(headers);
        let ghost list = pairs(groups);
        let mut i: usize = 0;
        proof {
            lemma_pairs_names(groups);
        }
        while i < given.len()
            invariant
                0 <= i <= given.len(),
                named(given@) == list,
                list == pairs(groups),
                groups.len() <= MAX_RESPONSE_NAMES,
                forall|k: int| 0 <= k < list.len() ==> has_name(groups, (#[trigger] list[k]).0),
                response@.wf(),
                forall|k: int|
                    0 <= k < response@.headers.len() ==> has_name(
                        groups,
                        (#[trigger] response@.headers[k]).0,
                    ),
                response@ == base.with_headers(list.take(i as int)),
            decreases given.len() - i,
        {
            let ghost name = header_name_bytes(given@[i as int].0);
            let ghost value = header_value_bytes(given@[i as int].1);
            proof {
                assert(list.take(i + 1).drop_last() == list.take(i as int));
                assert(list.take(i + 1).last() == list[i as int]);
                assert(named(given@)[i as int] == (name, value));
                assert(has_name(groups, list[i as int].0));
                // the headers after this one are within the names that were
                // given, so there is room for this one
                lemma_with_header(response@, name, value);
                let after = response@.with_header(name, value).headers;
                assert forall|k: int| 0 <= k < after.len() implies has_name(
                    groups,
                    (#[trigger] after[k]).0,
                ) by {
                    if after[k].0 != name {
                        let at = choose|at: int|
                            0 <= at < response@.headers.len() && (#[trigger] response@.headers[at]).0
                                == after[k].0;
                        assert(has_name(groups, response@.headers[at].0));
                    }
                }
                lemma_names_bound(after, groups);
            }
            response.add_header_ref(&given[i].0, &given[i].1);
            i += 1;
        }
        assert(list.take(given.len() as int) == list);
        proof {
            lemma_names_bound(response@.headers, groups);
        }
        let ghost middle = response@;
        match additional_headers {
            Some(more) => {
                let ghost extra = named(more@);
                let mut j: usize = 0;
                while j < more.len()
                    invariant
                        0 <= j <= more.len(),
                        named(more@) == extra,
                        groups.len() + more.len() <= MAX_RESPONSE_NAMES,
                        response@.wf(),
                        response@.headers.len() <= groups.len() + j,
                        response@ == middle.with_headers(extra.take(j as int)),
                    decreases more.len() - j,
                {
                    proof {
                        assert(extra.take(j + 1).drop_last() == extra.take(j as int));
                        assert(extra.take(j + 1).last() == extra[j as int]);
                        assert(named(more@)[j as int] == (
                            header_name_bytes(more@[j as int].0),
                            header_value_bytes(more@[j as int].1),
                        ));
                        lemma_with_header(
                            response@,
                            header_name_bytes(more@[j as int].0),
                            header_value_bytes(more@[j as int].1),
                        );
                    }
                    response.add_header_ref(&more[j].0, &more[j].1);
                    j += 1;
                }
                assert(extra.take(more.len() as int) == extra);
            },
            None => {},
        }
        response
    }

    /// Creates a response as `new` does, where the names of `headers` and
    /// the headers of `additional_headers` together are not more than a
    /// response can hold; `None` where they are.
    pub fn try_new(
        status_code: StatusCode,
        headers: HeaderMap<HeaderValue>,
        data: Vec<u8>,
        data_length: Option<usize>,
        additional_headers: Option<Vec<(HeaderName, HeaderValue)>>,
    ) -> (r: Option<Response>)
        ensures
            r.is_some() == (header_map_groups(headers).len() + (match additional_headers {
                Some(list) => list@.len(),
                None => 0,
            }) <= MAX_RESPONSE_NAMES),
            r matches Some(response) ==> response@.wf() && response@ == (ResponseView {
                status: status_code@,
                headers: Seq::empty(),
                data: data@,
                data_length: data_length,
                chunked_threshold: None,
            }).with_headers(pairs(header_map_groups(headers))).with_headers(
                match additional_headers {
                    Some(list) => named(list@),
                    None => Seq::empty(),
                },
            ),
    {
        let names = header_map_names(&headers);
        let more = match &additional_headers {
            Some(list) => list.len(),
            None => 0,
        };
        if names <= MAX_RESPONSE_NAMES && more <= MAX_RESPONSE_NAMES - names {
            Some(Response::new(status_code, headers, data, data_length, additional_headers))
        } else {
            None
        }
    }

    /// Sets the body length from which on the response is chunked. A
    /// response may be chunked below it, where the request asks for it or the
    /// length of the body is unknown.
    pub fn with_chunked_threshold(self, length: usize) -> (r: Response)
        ensures
            r@ == (ResponseView { chunked_threshold: Some(length), ..self@ }),
            r@.wf(),
    {
        proof {
            use_type_invariant(&self);
        }
        let mut response = self;
        response.chunked_threshold = Some(length);
        response
    }

    /// Gives up the response for its body.
    pub fn into_reader(self) -> (r: Vec<u8>)
        ensures
            r@ == self@.data,
    {
        self.data
    }

    /// The body length from which on the response is chunked: 32768 unless
    /// another was set.
    pub fn chunked_threshold(&self) -> (r: usize)
        ensures
            r == self@.threshold(),
    {
        match self.chunked_threshold {
            Some(n) => n,
            None => DEFAULT_CHUNKED_THRESHOLD,
        }
    }

    /// Adds a header, with the checks that `add_header` makes.
    fn add_header_ref(&mut self, name: &HeaderName, value: &HeaderValue)
        requires
            old(self)@.has_room_for(header_name_bytes(*name)),
        ensures
            final(self)@ == old(self)@.with_header(
                header_name_bytes(*name),
                header_value_bytes(*value),
            ),
            final(self)@.wf(),
    {
        proof {
            use_type_invariant(&*self);
            reveal_strlit("content-length");
            reveal_strlit("content-type");
            lemma_with_header(self@, header_name_bytes(*name), header_value_bytes(*value));
        }
        let text = header_name_as_bytes(name);
        if name_is_forbidden(text) {
            return ;
        }
        if bytes_eq(text, literal("content-length")) {
            match parse_usize(header_value_as_bytes(value)) {
                Some(n) => {
                    self.data_length = Some(n);
                },
                None => {},
            }
        } else {
            let mut headers = header_map_new();
            std::mem::swap(&mut self.headers, &mut headers);
            if bytes_eq(text, literal("content-type")) {
                header_map_insert(&mut headers, name, value);
            } else {
                header_map_append(&mut headers, name, value);
            }
            self.headers = headers;
        }
    }

    /// Adds a header to the response.
    ///
    /// A header named `Connection`, `Trailer`, `Transfer-Encoding` or
    /// `Upgrade` is dropped. `Content-Length` declares the length of the body
    /// where its value is a number, and is not stored. `Content-Type` replaces
    /// the one that is there. Every other header is added to those of its
    /// name. Only a header that brings a new name needs room for it.
    pub fn add_header(&mut self, name: HeaderName, value: HeaderValue)
        requires
            old(self)@.has_room_for(header_name_bytes(name)),
        ensures
            final(self)@ == old(self)@.with_header(header_name_bytes(name), header_value_bytes(value)),
            final(self)@.wf(),
    {
        self.add_header_ref(&name, &value);
    }

    /// Adds a header as `add_header` does, where the response has room for
    /// it; else the response stays as it is. The answer says which.
    pub fn try_add_header(&mut self, name: HeaderName, value: HeaderValue) -> (r: bool)
        ensures
            r == old(self)@.has_room_for(header_name_bytes(name)),
            r ==> final(self)@ == old(self)@.with_header(
                header_name_bytes(name),
                header_value_bytes(value),
            ),
            !r ==> final(self)@ == old(self)@,
            final(self)@.wf(),
    {
        proof {
            use_type_invariant(&*self);
            reveal_strlit("content-length");
        }
        let text = header_name_as_bytes(&name);
        let stored = !name_is_forbidden(text) && !bytes_eq(text, literal("content-length"));
        if !stored || header_map_contains(&self.headers, &name) || header_map_names(&self.headers)
            < MAX_RESPONSE_NAMES {
            self.add_header_ref(&name, &value);
            true
        } else {
            false
        }
    }

    /// The same response with one more header, added as `add_header` adds it.
    pub fn with_header(self, name: HeaderName, value: HeaderValue) -> (r: Response)
        requires
            self@.has_room_for(header_name_bytes(name)),
        ensures
            r@ == self@.with_header(header_name_bytes(name), header_value_bytes(value)),
            r@.wf(),
    {
        let mut response = self;
        response.add_header_ref(&name, &value);
        response
    }

    /// The same response with another status code.
    pub fn with_status_code(self, code: StatusCode) -> (r: Response)
        ensures
            r@ == (ResponseView { status: code@, ..self@ }),
            r@.wf(),
    {
        proof {
            use_type_invariant(&self);
        }
        let number = code.as_u16();
        let mut response = self;
        response.status_code = code;
        response
    }

    /// The same response with another body, of the declared length
    /// `data_length`.
    pub fn with_data(self, data: Vec<u8>, data_length: Option<usize>) -> (r: Response)
        ensures
            r@ == (ResponseView { data: data@, data_length: data_length, ..self@ }),
            r@.wf(),
    {
        proof {
            use_type_invariant(&self);
        }
        let mut response = self;
        response.data = data;
        response.data_length = data_length;
        response
    }

    /// The same response. Every response holds its body in memory, so that
    /// responses with bodies of any source are of one type already.
    pub fn boxed(self) -> (r: Response)
        ensures
            r@ == self@,
            r@.wf(),
    {
        proof {
            use_type_invariant(&self);
        }
        self
    }

    /// A copy of the response.
    pub fn duplicate(&self) -> (r: Response)
        ensures
            r@ == self@,
            r@.wf(),
    {
        proof {
            use_type_invariant(self);
        }
        let data = copy_range(self.data.as_slice(), 0, self.data.len());
        assert(data@ == self.data@);
        Response {
            data,
            status_code: self.status_code,
            headers: header_map_clone(&self.headers),
            data_length: self.data_length,
            chunked_threshold: self.chunked_threshold,
        }
    }

    /// The status code of the response.
    pub fn status_code(&self) -> (r: StatusCode)
        ensures
            r@ == self@.status,
    {
        self.status_code
    }

    /// The declared length of the body, if one was declared.
    pub fn data_length(&self) -> (r: Option<usize>)
        ensures
            r == self@.data_length,
    {
        self.data_length
    }

    /// The headers of the response. None of them has a name that the server
    /// chooses.
    pub fn headers(&self) -> (r: &HeaderMap<HeaderValue>)
        ensures
            header_map_groups(*r) == self@.headers,
            no_forbidden(header_map_groups(*r)),
    {
        proof {
            use_type_invariant(self);
        }
        &self.headers
    }

    /// A response with status 200, no headers and the body `data`, whose
    /// length is declared.
    pub fn from_data(data: Vec<u8>) -> (r: Response)
        ensures
            r@ == (ResponseView {
                status: 200,
                headers: Seq::empty(),
                data: data@,
                data_length: Some(data.len()),
                chunked_threshold: None,
            }),
            r@.wf(),
    {
        let length = data.len();
        Response {
            data,
            status_code: StatusCode::of(200),
            headers: header_map_new(),
            data_length: Some(length),
            chunked_threshold: None,
        }
    }

    /// A response with status 200 and the text `data` as its body, declared
    /// as plain text in UTF-8.
    pub fn from_string(data: &str) -> (r: Response)
        ensures
            r@ == (ResponseView {
                status: 200,
                headers: seq![(content_type_name(), seq![bytes_of("text/plain; charset=UTF-8"@)])],
                data: data.spec_bytes(),
                data_length: Some(data.spec_bytes().len() as usize),
                chunked_threshold: None,
            }),
            r@.wf(),
    {
        let bytes = data.as_bytes_vec();
        let mut response = Response::from_data(bytes);
        proof {
            reveal_strlit("content-type");
            reveal_strlit("text/plain; charset=UTF-8");
            lemma_content_type_is_plain();
        }
        let name = literal_name("content-type");
        let value = literal_value("text/plain; charset=UTF-8");
        response.add_header_ref(&name, &value);
        assert(response@.headers =~= seq![
            (content_type_name(), seq![bytes_of("text/plain; charset=UTF-8"@)]),
        ]);
        response
    }

    /// A response with the given status, no headers and an empty body.
    pub fn empty(status_code: StatusCode) -> (r: Response)
        ensures
            r@ == (ResponseView {
                status: status_code@,
                headers: Seq::empty(),
                data: Seq::empty(),
                data_length: Some(0),
                chunked_threshold: None,
            }),
            r@.wf(),
    {
        let number = status_code.as_u16();
        Response {
            data: Vec::new(),
            status_code,
            headers: header_map_new(),
            data_length: Some(0),
            chunked_threshold: None,
        }
    }

    /// The same as `empty`, under its older name.
    pub fn new_empty(status_code: StatusCode) -> (r: Response)
        ensures
            r@ == (ResponseView {
                status: status_code@,
                headers: Seq::empty(),
                data: Seq::empty(),
                data_length: Some(0),
                chunked_threshold: None,
            }),
            r@.wf(),
    {
        Response::empty(status_code)
    }
}

/// `content-type` is a header name in lower case and none of the forbidden
/// ones, nor `content-length`.
pub proof fn lemma_content_type_is_plain()
    ensures
        is_header_name(content_type_name()),
        lower(content_type_name()) == content_type_name(),
        !is_forbidden(content_type_name()),
        content_type_name() != content_length_name(),
        is_header_value(bytes_of("text/plain; charset=UTF-8"@)),
{
    reveal_strlit("content-type");
    reveal_strlit("content-length");
    reveal_strlit("connection");
    reveal_strlit("trailer");
    reveal_strlit("transfer-encoding");
    reveal_strlit("upgrade");
    reveal_strlit("text/plain; charset=UTF-8");
    let n = content_type_name();
    assert(n.len() == 12);
    assert(content_length_name().len() == 14);
    assert(connection_name().len() == 10);
    assert(trailer_name().len() == 7);
    assert(transfer_encoding_name().len() == 17);
    assert(upgrade_name().len() == 7);
    assert(lower(n) =~= n);
}

/// Why a response could not be written.
#[derive(Debug, Clone, Copy, PartialEq, Eq, Structural)]
pub enum PrintError {
    /// The protocol to switch to cannot stand in a header.
    InvalidUpgrade,
}

/// The bytes of the protocol that a response switches to, if it does.
pub open spec fn upgrade_bytes(upgrade: Option<&str>) -> Option<Seq<u8>> {
    match upgrade {
        Some(protocol) => Some(protocol.spec_bytes()),
        None => None,
    }
}

/// What writing a response at the second `now` does, given the bytes
/// `before` that the writer holds: the outcome `result` and the bytes `after`.
///
/// The protocol to switch to must be a header value: else the error says so
/// and nothing is written. In all other cases the message is added to the
/// writer. It has a `Date` header of its own making only where the time can
/// be written, which is before the year 10000.
pub open spec fn printed(
    view: ResponseView,
    version: HTTPVersion,
    te_values: Seq<Seq<u8>>,
    do_not_send_body: bool,
    upgrade: Option<Seq<u8>>,
    now: u64,
    result: Result<(), PrintError>,
    before: Seq<u8>,
    after: Seq<u8>,
) -> bool {
    if upgrade.is_some() && !is_header_value(upgrade.unwrap()) {
        result == Err::<(), PrintError>(PrintError::InvalidUpgrade) && after == before
    } else {
        result == Ok::<(), PrintError>(()) && after == before + message(
            view,
            version,
            te_values,
            do_not_send_body,
            upgrade,
            date_at(now),
        )
    }
}

/// Whether every byte of `s` is a tab or a printable ASCII character.
pub fn bytes_visible(s: &[u8]) -> (r: bool)
    ensures
        r == crate::encoding::is_visible(s@),
{
    let mut i: usize = 0;
    while i < s.len()
        invariant
            0 <= i <= s.len(),
            forall|k: int| 0 <= k < i ==> (32 <= #[trigger] s@[k] < 127 || s@[k] == 9),
        decreases s.len() - i,
    {
        if !((32 <= s[i] && s[i] < 127) || s[i] == 9) {
            return false;
        }
        i += 1;
    }
    true
}

/// Chooses the transfer encoding of a response from its status, the
/// request's `TE` header and version, the declared length of the body and
/// the threshold for chunking.
pub fn choose_transfer_encoding(
    status_code: StatusCode,
    request_headers: &HeaderMap<HeaderValue>,
    http_version: &HTTPVersion,
    entity_length: &Option<usize>,
    has_additional_headers: bool,
    chunked_threshold: usize,
) -> (r: TransferEncoding)
    ensures
        r == chosen_encoding(
            status_code@,
            values_of(header_map_groups(*request_headers), te_name()),
            *http_version,
            *entity_length,
            has_additional_headers,
            chunked_threshold,
        ),
{
    if http_version.0 < 1 || (http_version.0 == 1 && http_version.1 == 0) {
        return TransferEncoding::Identity;
    }
    if status_code.is_informational() || status_code.as_u16() == 204 {
        return TransferEncoding::Identity;
    }
    proof {
        reveal_strlit("te");
        assert(lower(te_name()) =~= te_name());
    }
    let te = literal_name("te");
    let values = header_map_get_all(request_headers, &te);
    let ghost te_values = values_of(header_map_groups(*request_headers), te_name());
    if values.len() > 0 {
        let first = header_value_as_bytes(&values[0]);
        assert(first@ == te_values[0]) by {
            assert(values@.map_values(|v: HeaderValue| header_value_bytes(v))[0]
                == header_value_bytes(values@[0]));
        }
        if bytes_visible(first) {
            match parse_preferred(first) {
                Some(encoding) => {
                    return encoding;
                },
                None => {},
            }
        }
    } else {
        assert(te_values.len() == values@.map_values(|v: HeaderValue| header_value_bytes(v)).len());
    }
    assert(requested(te_values).is_none());
    if has_additional_headers {
        return TransferEncoding::Chunked;
    }
    match entity_length {
        Some(length) => {
            if *length >= chunked_threshold {
                TransferEncoding::Chunked
            } else {
                TransferEncoding::Identity
            }
        },
        None => TransferEncoding::Chunked,
    }
}

/// Writes a header name with the first letter, and each letter behind a
/// hyphen, in upper case.
pub fn write_title_case(writer: &mut Vec<u8>, name: &[u8])
    ensures
        final(writer)@ == old(writer)@ + title_case(name@),
{
    let mut i: usize = 0;
    while i < name.len()
        invariant
            0 <= i <= name.len(),
            writer@ == old(writer)@ + title_case(name@).take(i as int),
        decreases name.len() - i,
    {
        let b = name[i];
        let out: u8 = if (i == 0 || name[i - 1] == 0x2d) && 0x61 <= b && b <= 0x7a {
            b - 32
        } else {
            b
        };
        writer.push(out);
        i += 1;
        assert(writer@ =~= old(writer)@ + title_case(name@).take(i as int));
    }
    assert(title_case(name@).take(name.len() as int) == title_case(name@));
}

/// Writes one header line.
pub fn write_header_line(writer: &mut Vec<u8>, name: &[u8], value: &[u8])
    ensures
        final(writer)@ == old(writer)@ + header_line(name@, value@),
{
    write_title_case(writer, name);
    writer.push(0x3a);
    writer.push(0x20);
    push_all(writer, value);
    writer.push(0x0d);
    writer.push(0x0a);
    assert(writer@ =~= old(writer)@ + header_line(name@, value@));
}

/// Writes the status line.
pub fn write_status_line(writer: &mut Vec<u8>, http_version: &HTTPVersion, status_code: &StatusCode)
    ensures
        final(writer)@ == old(writer)@ + status_line(*http_version, status_code@),
{
    proof {
        reveal_strlit("HTTP/");
    }
    let mut line: Vec<u8> = Vec::new();
    push_all(&mut line, literal("HTTP/"));
    let mut major = decimal_bytes(http_version.0 as usize);
    line.append(&mut major);
    line.push(0x2e);
    let mut minor = decimal_bytes(http_version.1 as usize);
    line.append(&mut minor);
    assert(line@ =~= version_text(*http_version));
    line.push(0x20);
    let mut status = status_code.to_bytes();
    line.append(&mut status);
    line.push(0x0d);
    line.push(0x0a);
    assert(line@ =~= status_line(*http_version, status_code@));
    push_all(writer, line.as_slice());
}

/// Writes the two lines that announce a switch of protocol, where there is
/// one.
pub fn write_upgrade_lines(writer: &mut Vec<u8>, upgrade: Option<&[u8]>)
    ensures
        final(writer)@ == old(writer)@ + upgrade_lines(
            match upgrade {
                Some(protocol) => Some(protocol@),
                None => None,
            },
        ),
{
    proof {
        reveal_strlit("upgrade");
        reveal_strlit("connection");
        reveal_strlit("Upgrade");
    }
    match upgrade {
        Some(protocol) => {
            write_header_line(writer, literal("upgrade"), protocol);
            write_header_line(writer, literal("connection"), literal("Upgrade"));
            assert(writer@ =~= old(writer)@ + upgrade_lines(Some(protocol@)));
        },
        None => {
            assert(writer@ =~= old(writer)@ + upgrade_lines(None));
        },
    }
}

/// Writes one line for every header, in the order of the collection.
pub fn write_header_lines(writer: &mut Vec<u8>, headers: &HeaderMap<HeaderValue>)
    ensures
        final(writer)@ == old(writer)@ + header_lines(pairs(header_map_groups(*headers))),
{
    let list = header_map_pairs(headers);
    let ghost all = pairs(header_map_groups(*headers));
    let mut i: usize = 0;
    assert(writer@ =~= old(writer)@ + header_lines(all.take(0)));
    while i < list.len()
        invariant
            0 <= i <= list.len(),
            named(list@) == all,
            writer@ == old(writer)@ + header_lines(all.take(i as int)),
        decreases list.len() - i,
    {
        proof {
            assert(all.take(i + 1).drop_last() == all.take(i as int));
            assert(all.take(i + 1).last() == all[i as int]);
            assert(named(list@)[i as int] == (
                header_name_bytes(list@[i as int].0),
                header_value_bytes(list@[i as int].1),
            ));
        }
        write_header_line(
            writer,
            header_name_as_bytes(&list[i].0),
            header_value_as_bytes(&list[i].1),
        );
        i += 1;
        assert(writer@ =~= old(writer)@ + header_lines(all.take(i as int)));
    }
    assert(all.take(list.len() as int) == all);
}

/// Writes the head of a response: the status line, the two lines of a
/// protocol switch where `upgrade` names a protocol, one line for every
/// header in the order of the collection, and the empty line that ends the
/// head.
pub fn write_message_header(
    writer: &mut Vec<u8>,
    http_version: &HTTPVersion,
    status_code: &StatusCode,
    upgrade: Option<&[u8]>,
    headers: &HeaderMap<HeaderValue>,
)
    ensures
        final(writer)@ == old(writer)@ + message_header(
            *http_version,
            status_code@,
            match upgrade {
                Some(protocol) => Some(protocol@),
                None => None,
            },
            header_map_groups(*headers),
        ),
{
    write_status_line(writer, http_version, status_code);
    write_upgrade_lines(writer, upgrade);
    write_header_lines(writer, headers);
    writer.push(0x0d);
    writer.push(0x0a);
    assert(writer@ =~= old(writer)@ + message_header(
        *http_version,
        status_code@,
        match upgrade {
            Some(protocol) => Some(protocol@),
            None => None,
        },
        header_map_groups(*headers),
    ));
}

/// The names and values that are added on sending can stand in a header.
pub proof fn lemma_sent_names()
    ensures
        is_header_name(date_name()) && lower(date_name()) == date_name(),
        is_header_name(server_name()) && lower(server_name()) == server_name(),
        is_header_name(transfer_encoding_name()) && lower(transfer_encoding_name())
            == transfer_encoding_name(),
        is_header_name(content_length_name()) && lower(content_length_name())
            == content_length_name(),
        is_header_value(server_value()),
        is_header_value(bytes_of("chunked"@)),
{
    reveal_strlit("date");
    reveal_strlit("server");
    reveal_strlit("transfer-encoding");
    reveal_strlit("content-length");
    reveal_strlit("tiny-http");
    reveal_strlit("chunked");
    assert(lower(date_name()) =~= date_name());
    assert(lower(server_name()) =~= server_name());
    assert(lower(transfer_encoding_name()) =~= transfer_encoding_name());
    assert(lower(content_length_name()) =~= content_length_name());
}

/// Adds `value` under `name` unless the name is there already.
fn add_default(headers: &mut HeaderMap<HeaderValue>, name: &HeaderName, value: &HeaderValue)
    requires
        header_map_groups(*old(headers)).len() < MAX_HEADER_NAMES,
    ensures
        header_map_groups(*final(headers)) == with_default(
            header_map_groups(*old(headers)),
            header_name_bytes(*name),
            header_value_bytes(*value),
        ),
        header_map_groups(*final(headers)).len() <= header_map_groups(*old(headers)).len() + 1,
{
    proof {
        lemma_appended(
            header_map_groups(*headers),
            header_name_bytes(*name),
            header_value_bytes(*value),
        );
    }
    if !header_map_contains(headers, name) {
        header_map_append(headers, name, value);
    }
}

/// The headers with which a response goes out: a `Date` for the second
/// `now`, where it can be written, and a `Server` header are added where the
/// response has none, and then the header of the framing, which announces
/// `length` bytes where the response is sent as it is.
fn complete_headers(
    headers: HeaderMap<HeaderValue>,
    encoding: Option<TransferEncoding>,
    length: usize,
    now: u64,
) -> (r: HeaderMap<HeaderValue>)
    requires
        header_map_groups(headers).len() <= MAX_RESPONSE_NAMES,
    ensures
        header_map_groups(r) == framed(
            with_default(
                dated(header_map_groups(headers), date_at(now)),
                server_name(),
                server_value(),
            ),
            encoding,
            length as nat,
        ),
{
    proof {
        lemma_sent_names();
        reveal_strlit("date");
        reveal_strlit("server");
        reveal_strlit("tiny-http");
    }
    let mut headers = headers;
    // the date, unless the response has one or the time cannot be written
    if now < DATE_LIMIT {
        let date_key = literal_name("date");
        if !header_map_contains(&headers, &date_key) {
            let text = http_date_bytes(now);
            let date = match header_value_from_bytes(text.as_slice()) {
                Some(value) => value,
                None => vstd::pervasive::unreached(),
            };
            add_default(&mut headers, &date_key, &date);
        }
    }
    // the server, unless the response names one
    let server = literal_name("server");
    let product = literal_value("tiny-http");
    add_default(&mut headers, &server, &product);
    add_framing(&mut headers, encoding, length);
    headers
}

/// Adds the header of the framing: `Transfer-Encoding: chunked` for a
/// chunked response, `Content-Length` with `length` for one that is sent as
/// it is, nothing without framing.
fn add_framing(headers: &mut HeaderMap<HeaderValue>, encoding: Option<TransferEncoding>, length: usize)
    requires
        header_map_groups(*old(headers)).len() < MAX_HEADER_NAMES,
    ensures
        header_map_groups(*final(headers)) == framed(
            header_map_groups(*old(headers)),
            encoding,
            length as nat,
        ),
{
    proof {
        lemma_sent_names();
        reveal_strlit("transfer-encoding");
        reveal_strlit("content-length");
        reveal_strlit("chunked");
    }
    match encoding {
        Some(TransferEncoding::Chunked) => {
            let name = literal_name("transfer-encoding");
            let value = literal_value("chunked");
            header_map_append(headers, &name, &value);
        },
        Some(TransferEncoding::Identity) => {
            let name = literal_name("content-length");
            let digits = decimal_bytes(length);
            proof {
                lemma_decimal_digits(length as nat);
            }
            let value = match header_value_from_bytes(digits.as_slice()) {
                Some(value) => value,
                None => vstd::pervasive::unreached(),
            };
            header_map_append(headers, &name, &value);
        },
        None => {},
    }
}

/// Writes the body of a response: in chunks for a chunked response, and for
/// one that is sent as it is the first `length` bytes.
fn write_body(writer: &mut Vec<u8>, data: &[u8], encoding: Option<TransferEncoding>, length: usize)
    requires
        length <= data@.len(),
    ensures
        final(writer)@ == old(writer)@ + match encoding {
            Some(TransferEncoding::Chunked) => chunked(data@),
            Some(TransferEncoding::Identity) => data@.take(length as int),
            None => Seq::empty(),
        },
{
    match encoding {
        Some(TransferEncoding::Chunked) => {
            write_chunked(writer, data);
        },
        Some(TransferEncoding::Identity) => {
            let body = copy_range(data, 0, length);
            push_all(writer, body.as_slice());
        },
        None => {
            assert(writer@ =~= old(writer)@ + Seq::<u8>::empty());
        },
    }
}

impl Response {
    /// Writes the response to `writer` as it is sent at the second `now`
    /// after the start of 1970. A response without `Date` header gets one for
    /// that second, unless the second lies beyond the year 9999, for which no
    /// date can be written.
    ///
    /// The version and the headers of the request decide the framing. With
    /// `upgrade` the response announces a switch to that protocol and has no
    /// framing and no body. The writer is not flushed.
    pub fn raw_print_at(
        self,
        writer: &mut Vec<u8>,
        http_version: HTTPVersion,
        request_headers: &HeaderMap<HeaderValue>,
        do_not_send_body: bool,
        upgrade: Option<&str>,
        now: u64,
    ) -> (r: Result<(), PrintError>)
        ensures
            printed(
                self@,
                http_version,
                values_of(header_map_groups(*request_headers), te_name()),
                do_not_send_body,
                upgrade_bytes(upgrade),
                now,
                r,
                old(writer)@,
                final(writer)@,
            ),
    {
        proof {
            use_type_invariant(&self);
        }
        let ghost view = self@;
        let ghost te_values = values_of(header_map_groups(*request_headers), te_name());
        let Response { data, status_code, headers, data_length, chunked_threshold } = self;
        let protocol: Option<&[u8]> = match upgrade {
            Some(text) => {
                let bytes = text.as_bytes();
                if header_value_from_bytes(bytes).is_none() {
                    return Err(PrintError::InvalidUpgrade);
                }
                Some(bytes)
            },
            None => None,
        };
        let threshold = match chunked_threshold {
            Some(n) => n,
            None => DEFAULT_CHUNKED_THRESHOLD,
        };
        let encoding = if upgrade.is_some() {
            None
        } else {
            Some(
                choose_transfer_encoding(
                    status_code,
                    request_headers,
                    &http_version,
                    &data_length,
                    false,
                    threshold,
                ),
            )
        };
        assert(encoding == framing(view, http_version, te_values, upgrade_bytes(upgrade)));
        let length = match data_length {
            Some(n) => if n <= data.len() {
                n
            } else {
                data.len()
            },
            None => data.len(),
        };
        assert(length == view.announced_length());
        let headers = complete_headers(headers, encoding, length, now);
        assert(header_map_groups(headers) == sent_headers(view, encoding, date_at(now)));
        write_message_header(writer, &http_version, &status_code, protocol, &headers);
        let ghost head = writer@;
        if !do_not_send_body && !status_code.forbids_body() {
            write_body(writer, data.as_slice(), encoding, length);
        }
        assert(writer@ =~= head + message_body(view, encoding, do_not_send_body));
        assert(writer@ =~= old(writer)@ + message(
            view,
            http_version,
            te_values,
            do_not_send_body,
            upgrade_bytes(upgrade),
            date_at(now),
        ));
        Ok(())
    }

    /// Writes the response to `writer` as it is sent now, by the clock of
    /// the machine. What is written is what `raw_print_at` writes for the
    /// second that the clock shows.
    pub fn raw_print(
        self,
        writer: &mut Vec<u8>,
        http_version: HTTPVersion,
        request_headers: &HeaderMap<HeaderValue>,
        do_not_send_body: bool,
        upgrade: Option<&str>,
    ) -> (r: Result<(), PrintError>)
        ensures
            exists|now: u64|
                printed(
                    self@,
                    http_version,
                    values_of(header_map_groups(*request_headers), te_name()),
                    do_not_send_body,
                    upgrade_bytes(upgrade),
                    now,
                    r,
                    old(writer)@,
                    final(writer)@,
                ),
    {
        let now = unix_time_now();
        self.raw_print_at(writer, http_version, request_headers, do_not_send_body, upgrade, now)
    }
}

/// The names that are added on sending differ from one another and from the
/// names that an application cannot set.
pub proof fn lemma_names_differ()
    ensures
        !is_forbidden(date_name()),
        !is_forbidden(server_name()),
        !is_forbidden(content_length_name()),
        is_forbidden(transfer_encoding_name()),
        date_name() != content_length_name(),
        server_name() != content_length_name(),
        date_name() != server_name(),
{
    reveal_strlit("date");
    reveal_strlit("server");
    reveal_strlit("content-length");
    reveal_strlit("connection");
    reveal_strlit("trailer");
    reveal_strlit("transfer-encoding");
    reveal_strlit("upgrade");
    assert(date_name().len() == 4);
    assert(server_name().len() == 6);
    assert(content_length_name().len() == 14);
    assert(connection_name().len() == 10);
    assert(trailer_name().len() == 7);
    assert(transfer_encoding_name().len() == 17);
    assert(upgrade_name().len() == 7);
}

/// The headers that are sent are those of the response, then a `Date`
/// header where the response had none and the date can be written, then a
/// `Server` header where the response had none, then the header of the
/// framing as the last one.
pub proof fn lemma_sent_headers(
    view: ResponseView,
    encoding: Option<TransferEncoding>,
    date: Option<Seq<u8>>,
)
    requires
        view.wf(),
    ensures
        ({
            let served = with_default(dated(view.headers, date), server_name(), server_value());
            &&& no_forbidden(served)
            &&& !has_name(served, content_length_name())
            &&& sent_headers(view, encoding, date) == match encoding {
                Some(TransferEncoding::Chunked) => served.push(
                    (transfer_encoding_name(), seq![bytes_of("chunked"@)]),
                ),
                Some(TransferEncoding::Identity) => served.push(
                    (content_length_name(), seq![decimal(view.announced_length())]),
                ),
                None => served,
            }
        }),
{
    lemma_names_differ();
    let first = dated(view.headers, date);
    if date.is_some() {
        lemma_appended(view.headers, date_name(), date.unwrap());
    }
    let served = with_default(first, server_name(), server_value());
    lemma_appended(first, server_name(), server_value());
    assert(no_forbidden(first));
    assert(no_forbidden(served));
    assert(!has_name(first, content_length_name())) by {
        if has_name(first, content_length_name()) {
            let i = choose|i: int|
                0 <= i < first.len() && (#[trigger] first[i]).0 == content_length_name();
            assert(i < view.headers.len() ==> view.headers[i].0 == content_length_name());
        }
    }
    assert(!has_name(served, content_length_name())) by {
        if has_name(served, content_length_name()) {
            let i = choose|i: int|
                0 <= i < served.len() && (#[trigger] served[i]).0 == content_length_name();
            assert(i < first.len() ==> first[i].0 == content_length_name());
        }
    }
    assert(!has_name(served, transfer_encoding_name()));
}

/// A response whose status is 1xx, 204 or 304 is sent without body bytes:
/// the message is its head.
pub proof fn lemma_no_body_for_bodiless_status(
    view: ResponseView,
    version: HTTPVersion,
    te_values: Seq<Seq<u8>>,
    do_not_send_body: bool,
    upgrade: Option<Seq<u8>>,
    date: Option<Seq<u8>>,
)
    requires
        is_bodiless(view.status),
    ensures
        message(view, version, te_values, do_not_send_body, upgrade, date) == message_header(
            version,
            view.status,
            upgrade,
            sent_headers(view, framing(view, version, te_values, upgrade), date),
        ),
{
    let encoding = framing(view, version, te_values, upgrade);
    assert(message_body(view, encoding, do_not_send_body) == Seq::<u8>::empty());
    let head = message_header(version, view.status, upgrade, sent_headers(view, encoding, date));
    assert(head + Seq::<u8>::empty() =~= head);
}

/// No header of a sent response is named `Connection`, `Trailer` or
/// `Upgrade`, and the only `Transfer-Encoding` is the `chunked` that the
/// server adds as the last header of a chunked response. The only lines with
/// `Upgrade` and `Connection` are the two that announce a switch of protocol.
pub proof fn lemma_forbidden_headers_are_the_servers(
    view: ResponseView,
    encoding: Option<TransferEncoding>,
    date: Option<Seq<u8>>,
)
    requires
        view.wf(),
    ensures
        forall|i: int|
            0 <= i < sent_headers(view, encoding, date).len() && is_forbidden(
                (#[trigger] sent_headers(view, encoding, date)[i]).0,
            ) ==> {
                &&& encoding == Some(TransferEncoding::Chunked)
                &&& i == sent_headers(view, encoding, date).len() - 1
                &&& sent_headers(view, encoding, date)[i] == (
                    transfer_encoding_name(),
                    seq![bytes_of("chunked"@)],
                )
            },
{
    lemma_sent_headers(view, encoding, date);
    lemma_names_differ();
}

/// The `Content-Length` that the server writes is the number of body bytes
/// that follow, wherever a body follows. It is the last header, and the only
/// one of its name.
pub proof fn lemma_content_length_is_body_length(
    view: ResponseView,
    date: Option<Seq<u8>>,
    do_not_send_body: bool,
)
    requires
        view.wf(),
        body_is_sent(view.status, do_not_send_body),
    ensures
        ({
            let sent = sent_headers(view, Some(TransferEncoding::Identity), date);
            let body = message_body(view, Some(TransferEncoding::Identity), do_not_send_body);
            &&& sent.len() > 0
            &&& sent.last() == (content_length_name(), seq![decimal(body.len())])
            &&& forall|i: int|
                0 <= i < sent.len() - 1 ==> (#[trigger] sent[i]).0 != content_length_name()
        }),
{
    lemma_sent_headers(view, Some(TransferEncoding::Identity), date);
}

/// A chunked response whose body is sent ends with `0\r\n\r\n`.
pub proof fn lemma_chunked_message_ends_with_terminator(
    view: ResponseView,
    version: HTTPVersion,
    te_values: Seq<Seq<u8>>,
    do_not_send_body: bool,
    date: Option<Seq<u8>>,
)
    requires
        body_is_sent(view.status, do_not_send_body),
        framing(view, version, te_values, None) == Some(TransferEncoding::Chunked),
    ensures
        ends_with(message(view, version, te_values, do_not_send_body, None, date), terminator()),
{
    let encoding = framing(view, version, te_values, None);
    let head = message_header(version, view.status, None, sent_headers(view, encoding, date));
    let body = chunked(view.data);
    lemma_chunked_ends_with_terminator(view.data);
    let whole = head + body;
    assert(whole.subrange(whole.len() - 5, whole.len() as int) == body.subrange(
        body.len() - 5,
        body.len() as int,
    ));
}

} // verus!
