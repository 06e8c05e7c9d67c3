//! Headers as a field name with a value, both ASCII text.


use vstd::prelude::*;
use vstd::std_specs::cmp::PartialEqSpecImpl;
use vstd::string::{StringExecFns, StringSliceAdditionalSpecFns};
use crate::chars::{
    any_whitespace, ascii_bytes_of, char_is_whitespace, chars_ascii, find_char, is_whitespace,
    lemma_find_char, lemma_find_char_is, lemma_leading_whitespace_is, lemma_trailing_whitespace_is,
    lemma_trim_chars, text_of, to_chars, trim_chars, trim_chars_range,
};
use crate::text::{all_ascii, bytes_eq_ignore_case, bytes_of, eq_ignore_case};
pub use crate::version::HTTPVersion;

verus! {

/// `ascii::AsciiString`: a string of ASCII characters.
#[verifier::external_type_specification]
#[verifier::external_body]
pub struct ExAsciiString(ascii::AsciiString);

/// The bytes of an ASCII string.
pub uninterp spec fn ascii_string_bytes(s: ascii::AsciiString) -> Seq<u8>;

/// `AsciiString::from_ascii`: the bytes are accepted where all of them are
/// ASCII, and are kept as they are.
#[verifier::external_body]
pub(crate) fn ascii_from_bytes(bytes: Vec<u8>) -> (r: Option<ascii::AsciiString>)
    ensures
        r.is_some() == all_ascii(bytes@),
        r matches Some(s) ==> ascii_string_bytes(s) == bytes@,
{
    ascii::AsciiString::from_ascii(bytes).ok()
}

/// `AsciiStr::as_bytes`: the bytes of the string, all of them ASCII.
#[verifier::external_body]
pub(crate) fn ascii_as_bytes(s: &ascii::AsciiString) -> (r: &[u8])
    ensures
        r@ == ascii_string_bytes(*s),
        all_ascii(r@),
{
    s.as_bytes()
}

/// `AsciiStr::as_str`: the string as text, one character for each byte.
#[verifier::external_body]
pub(crate) fn ascii_as_str(s: &ascii::AsciiString) -> (r: &str)
    ensures
        r@ == text_of(ascii_string_bytes(*s)),
{
    s.as_str()
}

/// `AsciiString::clone`: a copy holds the same bytes.
pub assume_specification[ <ascii::AsciiString as Clone>::clone ](s: &ascii::AsciiString) -> (r:
    ascii::AsciiString)
    ensures
        ascii_string_bytes(r) == ascii_string_bytes(*s),
;

/// Field of a header (such as `Content-Type` or `Content-Length`).
///
/// Two fields are equal where they differ in ASCII case only.
#[derive(Debug, Clone, Eq)]
pub struct HeaderField(ascii::AsciiString);

impl View for HeaderField {
    type V = Seq<u8>;

    closed spec fn view(&self) -> Seq<u8> {
        ascii_string_bytes(self.0)
    }
}

/// A header: a field and its value.
#[derive(Debug, Clone)]
pub struct Header {
    pub field: HeaderField,
    pub value: ascii::AsciiString,
}

impl View for Header {
    type V = (Seq<u8>, Seq<u8>);

    open spec fn view(&self) -> (Seq<u8>, Seq<u8>) {
        (self.field@, ascii_string_bytes(self.value))
    }
}

/// What a header line stands for: the field before the first colon, which
/// must be ASCII without any white space, and the value behind it, which
/// must be ASCII once the white space at its ends is taken away. `None` for a
/// line without colon or with another field or value.
pub open spec fn parsed_header(line: Seq<char>) -> Option<(Seq<u8>, Seq<u8>)> {
    let colon = find_char(line, ':');
    let field = line.take(colon);
    let value = trim_chars(line.skip(colon + 1));
    if colon >= line.len() || any_whitespace(field) || !chars_ascii(field) || !chars_ascii(value) {
        None
    } else {
        Some((bytes_of(field), bytes_of(value)))
    }
}

/// The line that a header is written as: field, colon, space, value.
pub open spec fn header_text(header: (Seq<u8>, Seq<u8>)) -> Seq<char> {
    text_of(header.0) + seq![':', ' '] + text_of(header.1)
}

/// An ASCII character and its byte stand for one another.
pub proof fn lemma_ascii_char(c: char)
    requires
        (c as u32) < 128,
    ensures
        (c as u8) as char == c,
        (c as u8) < 128,
{
    let b = c as u8;
    assert(b as int == c as int);
}

/// ASCII characters and their bytes stand for one another.
pub proof fn lemma_text_of_ascii(s: Seq<char>)
    requires
        chars_ascii(s),
    ensures
        text_of(bytes_of(s)) == s,
        all_ascii(bytes_of(s)),
{
    assert forall|i: int| 0 <= i < s.len() implies #[trigger] text_of(bytes_of(s))[i] == s[i] by {
        lemma_ascii_char(s[i]);
    }
    assert(text_of(bytes_of(s)) =~= s);
    assert forall|i: int| 0 <= i < s.len() implies #[trigger] bytes_of(s)[i] < 128 by {
        lemma_ascii_char(s[i]);
    }
}

/// Parsing a header line and writing the header out again gives the line
/// back, but for the white space around the value, which becomes one space
/// in front of it.
pub proof fn lemma_parse_then_write(line: Seq<char>)
    requires
        parsed_header(line).is_some(),
    ensures
        header_text(parsed_header(line).unwrap()) == line.take(find_char(line, ':')) + seq![
            ':',
            ' ',
        ] + trim_chars(line.skip(find_char(line, ':') + 1)),
{
    let colon = find_char(line, ':');
    lemma_text_of_ascii(line.take(colon));
    lemma_text_of_ascii(trim_chars(line.skip(colon + 1)));
}

/// A header that came out of parsing is read back from its written form as
/// it is: writing and parsing again changes nothing.
pub proof fn lemma_write_then_parse(line: Seq<char>)
    requires
        parsed_header(line).is_some(),
    ensures
        parsed_header(header_text(parsed_header(line).unwrap())) == parsed_header(line),
{
    let colon = find_char(line, ':');
    lemma_find_char(line, ':');
    let field = line.take(colon);
    let value = trim_chars(line.skip(colon + 1));
    lemma_text_of_ascii(field);
    lemma_text_of_ascii(value);
    lemma_trim_chars(line.skip(colon + 1));
    let written = header_text(parsed_header(line).unwrap());
    assert(written == field + seq![':', ' '] + value);
    // the first colon of the written form is the one behind the field
    assert forall|i: int| 0 <= i < colon implies #[trigger] written[i] != ':' by {
        assert(written[i] == line[i]);
    }
    assert(written[colon] == ':');
    lemma_find_char_is(written, ':', colon);
    assert(written.take(colon) == field);
    // behind it stand one space and the value, which is trimmed already
    let rest = written.skip(colon + 1);
    assert(rest == seq![' '] + value);
    assert(is_whitespace(' '));
    assert(rest[0] == ' ');
    if value.len() > 0 {
        assert(rest[1] == value[0]);
    }
    lemma_leading_whitespace_is(rest, 1);
    let tail = rest.skip(1);
    assert(tail == value);
    lemma_trailing_whitespace_is(tail, 0);
    assert(tail.take(tail.len() as int) == tail);
    assert(trim_chars(rest) == value);
}

impl HeaderField {
    /// The field whose name is `bytes`, where all of them are ASCII.
    pub fn from_bytes(bytes: Vec<u8>) -> (r: Result<HeaderField, ()>)
        ensures
            r.is_ok() == all_ascii(bytes@),
            r matches Ok(field) ==> field@ == bytes@,
    {
        match ascii_from_bytes(bytes) {
            Some(name) => Ok(HeaderField(name)),
            None => Err(()),
        }
    }

    /// The name of the field.
    pub fn as_str(&self) -> (r: &ascii::AsciiString)
        ensures
            ascii_string_bytes(*r) == self@,
    {
        &self.0
    }

    /// Whether the field is `other`, ASCII case ignored.
    pub fn equiv(&self, other: &'static str) -> (r: bool)
        ensures
            r == eq_ignore_case(other.spec_bytes(), self@),
    {
        bytes_eq_ignore_case(other.as_bytes(), ascii_as_bytes(&self.0))
    }

    /// The field that `s` names: `s` must be ASCII without white space.
    pub fn parse(s: &str) -> (r: Result<HeaderField, ()>)
        ensures
            r.is_ok() == (!any_whitespace(s@) && chars_ascii(s@)),
            r matches Ok(field) ==> field@ == bytes_of(s@),
    {
        let chars = to_chars(s);
        let mut i: usize = 0;
        while i < chars.len()
            invariant
                0 <= i <= chars.len(),
                chars@ == s@,
                forall|k: int| 0 <= k < i ==> !is_whitespace(#[trigger] chars@[k]),
            decreases chars.len() - i,
        {
            if char_is_whitespace(chars[i]) {
                assert(is_whitespace(s@[i as int]));
                return Err(());
            }
            i += 1;
        }
        assert(chars@.subrange(0, chars.len() as int) == chars@);
        match ascii_bytes_of(&chars, 0, chars.len()) {
            Some(bytes) => {
                proof {
                    lemma_text_of_ascii(chars@);
                }
                HeaderField::from_bytes(bytes)
            },
            None => Err(()),
        }
    }

    /// The name of the field as text.
    pub fn to_string(&self) -> (r: String)
        ensures
            r@ == text_of(self@),
    {
        String::from_str(ascii_as_str(&self.0))
    }
}

impl PartialEq for HeaderField {
    fn eq(&self, other: &HeaderField) -> (r: bool) {
        bytes_eq_ignore_case(ascii_as_bytes(&self.0), ascii_as_bytes(&other.0))
    }
}

impl PartialEqSpecImpl for HeaderField {
    open spec fn obeys_eq_spec() -> bool {
        true
    }

    open spec fn eq_spec(&self, other: &HeaderField) -> bool {
        eq_ignore_case(self@, other@)
    }
}

impl std::str::FromStr for HeaderField {
    type Err = ();

    /// The field that `s` names: `s` must be ASCII without white space.
    fn from_str(s: &str) -> (r: Result<HeaderField, ()>)
        ensures
            r.is_ok() == (!any_whitespace(s@) && chars_ascii(s@)),
            r matches Ok(field) ==> field@ == bytes_of(s@),
    {
        HeaderField::parse(s)
    }
}

impl Header {
    /// The header with the field `header` and the value `value`, where both
    /// are ASCII.
    pub fn from_bytes(header: Vec<u8>, value: Vec<u8>) -> (r: Result<Header, ()>)
        ensures
            r.is_ok() == (all_ascii(header@) && all_ascii(value@)),
            r matches Ok(h) ==> h@ == (header@, value@),
    {
        let field = match HeaderField::from_bytes(header) {
            Ok(field) => field,
            Err(_) => {
                return Err(());
            },
        };
        match ascii_from_bytes(value) {
            Some(value) => Ok(Header { field, value }),
            None => Err(()),
        }
    }

    /// Reads a header from a line such as `Content-Type: text/html`.
    ///
    /// The field ends at the first colon and must not hold white space, not
    /// in front of the colon and not at the start of the line either. The
    /// white space around the value is dropped.
    pub fn parse(input: &str) -> (r: Result<Header, ()>)
        ensures
            r.is_ok() == parsed_header(input@).is_some(),
            r matches Ok(header) ==> parsed_header(input@) == Some(header@),
    {
        let chars = to_chars(input);
        let mut colon: usize = 0;
        while colon < chars.len() && chars[colon] != ':'
            invariant
                0 <= colon <= chars.len(),
                forall|k: int| 0 <= k < colon ==> #[trigger] chars@[k] != ':',
            decreases chars.len() - colon,
        {
            colon += 1;
        }
        proof {
            lemma_find_char_is(chars@, ':', colon as int);
        }
        if colon == chars.len() {
            return Err(());
        }
        let mut i: usize = 0;
        while i < colon
            invariant
                0 <= i <= colon < chars.len(),
                chars@ == input@,
                colon == find_char(input@, ':'),
                forall|k: int| 0 <= k < i ==> !is_whitespace(#[trigger] chars@[k]),
            decreases colon - i,
        {
            if char_is_whitespace(chars[i]) {
                assert(is_whitespace(input@.take(colon as int)[i as int]));
                return Err(());
            }
            i += 1;
        }
        let ghost field_chars = chars@.take(colon as int);
        assert(!any_whitespace(field_chars)) by {
            if any_whitespace(field_chars) {
                let k = choose|k: int| 0 <= k < field_chars.len() && is_whitespace(
                    #[trigger] field_chars[k],
                );
                assert(field_chars[k] == chars@[k]);
            }
        }
        assert(chars@.subrange(0, colon as int) == field_chars);
        let field_bytes = match ascii_bytes_of(&chars, 0, colon) {
            Some(bytes) => bytes,
            None => {
                return Err(());
            },
        };
        let (a, b) = trim_chars_range(&chars, colon + 1);
        let value_bytes = match ascii_bytes_of(&chars, a, b) {
            Some(bytes) => bytes,
            None => {
                return Err(());
            },
        };
        proof {
            lemma_text_of_ascii(field_chars);
            lemma_text_of_ascii(trim_chars(chars@.skip(colon + 1)));
        }
        Header::from_bytes(field_bytes, value_bytes)
    }

    /// The header as a line: field, colon, space, value.
    pub fn to_string(&self) -> (r: String)
        ensures
            r@ == header_text(self@),
    {
        let mut out = self.field.to_string();
        proof {
            reveal_strlit(": ");
        }
        out.append(": ");
        out.append(ascii_as_str(&self.value));
        assert(out@ =~= header_text(self@));
        out
    }
}

impl std::str::FromStr for Header {
    type Err = ();

    /// Reads a header from a line such as `Content-Type: text/html`, as
    /// `Header::parse` does.
    fn from_str(input: &str) -> (r: Result<Header, ()>)
        ensures
            r.is_ok() == parsed_header(input@).is_some(),
            r matches Ok(header) ==> parsed_header(input@) == Some(header@),
    {
        Header::parse(input)
    }
}

} // verus!
