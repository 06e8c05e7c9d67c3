//! Status codes of responses.

use vstd::prelude::*;
use crate::text::{bytes_of, copy_range, decimal, decimal_bytes, literal};

verus! {

/// The reason phrase that the `http` crate knows for a status code, as
/// bytes; `None` where it knows none.
pub uninterp spec fn canonical_reason(code: u16) -> Option<Seq<u8>>;

/// `StatusCode::from_u16` and `StatusCode::canonical_reason`: the standard
/// reason phrase of a code, where it has one. A number that is no status code
/// has none.
#[verifier::external_body]
pub(crate) fn canonical_reason_bytes(code: u16) -> (r: Option<Vec<u8>>)
    ensures
        match r {
            Some(text) => canonical_reason(code) == Some(text@),
            None => canonical_reason(code).is_none(),
        },
{
    match http::StatusCode::from_u16(code) {
        Ok(status) => status.canonical_reason().map(|text| text.as_bytes().to_vec()),
        Err(_) => None,
    }
}

/// An HTTP status code: a number from 100 to 999.
#[derive(Debug, Clone, Copy, PartialEq, Eq, Structural, Hash)]
pub struct StatusCode {
    code: u16,
}

impl View for StatusCode {
    type V = u16;

    closed spec fn view(&self) -> u16 {
        self.code
    }
}

/// What is written for a code that has no standard reason phrase.
pub open spec fn unknown_reason() -> Seq<u8> {
    bytes_of("<unknown status code>"@)
}

/// The reason phrase that goes on the status line for `code`.
pub open spec fn reason_phrase(code: u16) -> Seq<u8> {
    match canonical_reason(code) {
        Some(text) => text,
        None => unknown_reason(),
    }
}

/// Whether a response with this code never has a body: 1xx, 204 and 304.
pub open spec fn is_bodiless(code: u16) -> bool {
    (100 <= code <= 199) || code == 204 || code == 304
}

/// The code and its reason phrase, as they stand on the status line.
pub open spec fn status_text(code: u16) -> Seq<u8> {
    decimal(code as nat) + seq![0x20u8] + reason_phrase(code)
}

impl StatusCode {
    #[verifier::type_invariant]
    spec fn in_range(self) -> bool {
        100 <= self.code <= 999
    }

    /// The status code with the number `code`, where it lies between 100 and
    /// 999.
    pub fn from_u16(code: u16) -> (r: Option<StatusCode>)
        ensures
            r.is_some() == (100 <= code <= 999),
            r matches Some(status) ==> status@ == code,
    {
        if 100 <= code && code <= 999 {
            Some(StatusCode { code })
        } else {
            None
        }
    }

    /// The status code with the number `code`, which lies between 100 and
    /// 999.
    pub fn of(code: u16) -> (r: StatusCode)
        requires
            100 <= code <= 999,
        ensures
            r@ == code,
    {
        StatusCode { code }
    }

    /// The number of the code.
    pub fn as_u16(&self) -> (r: u16)
        ensures
            r == self@,
            100 <= r <= 999,
    {
        proof {
            use_type_invariant(self);
        }
        self.code
    }

    /// Whether the code is informational (1xx).
    pub fn is_informational(&self) -> (r: bool)
        ensures
            r == (100 <= self@ <= 199),
    {
        proof {
            use_type_invariant(self);
        }
        self.code < 200
    }

    /// Whether a response with this code never has a body.
    pub fn forbids_body(&self) -> (r: bool)
        ensures
            r == is_bodiless(self@),
    {
        proof {
            use_type_invariant(self);
        }
        self.code < 200 || self.code == 204 || self.code == 304
    }

    /// The code and its reason phrase as text, such as `404 Not Found`.
    pub fn to_bytes(&self) -> (r: Vec<u8>)
        ensures
            r@ == status_text(self@),
    {
        let mut out = decimal_bytes(self.code as usize);
        out.push(0x20);
        match canonical_reason_bytes(self.code) {
            Some(text) => {
                let mut text = text;
                out.append(&mut text);
            },
            None => {
                proof {
                    reveal_strlit("<unknown status code>");
                }
                let mut text = copy_range(literal("<unknown status code>"), 0, 21);
                assert(text@ == unknown_reason());
                out.append(&mut text);
            },
        }
        out
    }
}

} // verus!
