//! HTTP protocol versions and their ordering.

use std::cmp::Ordering;
use vstd::prelude::*;
use vstd::std_specs::cmp::{PartialEqSpecImpl, PartialOrdSpecImpl};
use vstd::std_specs::convert::FromSpecImpl;
use vstd::string::StringExecFns;

verus! {

/// HTTP version (usually 1.0 or 1.1), as a major and a minor number.
#[allow(clippy::upper_case_acronyms)]
#[derive(Debug, Clone, Copy, PartialEq, Eq, Structural, Ord, Hash)]
pub struct HTTPVersion(pub u8, pub u8);

/// How two versions compare: by major number first, then by minor number.
pub open spec fn version_order(a: HTTPVersion, b: HTTPVersion) -> Ordering {
    if a.0 < b.0 {
        Ordering::Less
    } else if a.0 > b.0 {
        Ordering::Greater
    } else if a.1 < b.1 {
        Ordering::Less
    } else if a.1 > b.1 {
        Ordering::Greater
    } else {
        Ordering::Equal
    }
}

/// The character that stands for a decimal digit.
pub open spec fn digit_char(d: nat) -> char {
    if d % 10 == 0 {
        '0'
    } else if d % 10 == 1 {
        '1'
    } else if d % 10 == 2 {
        '2'
    } else if d % 10 == 3 {
        '3'
    } else if d % 10 == 4 {
        '4'
    } else if d % 10 == 5 {
        '5'
    } else if d % 10 == 6 {
        '6'
    } else if d % 10 == 7 {
        '7'
    } else if d % 10 == 8 {
        '8'
    } else {
        '9'
    }
}

/// The decimal digits of `n`, most significant first.
pub open spec fn decimal_text(n: nat) -> Seq<char>
    decreases n,
{
    if n < 10 {
        seq![digit_char(n)]
    } else {
        decimal_text(n / 10).push(digit_char(n % 10))
    }
}

/// A version as text: `<major>.<minor>`.
pub open spec fn version_text(version: HTTPVersion) -> Seq<char> {
    decimal_text(version.0 as nat).push('.') + decimal_text(version.1 as nat)
}

/// The text of one decimal digit.
fn digit_str(d: u8) -> (r: &'static str)
    requires
        d < 10,
    ensures
        r@ == seq![digit_char(d as nat)],
{
    proof {
        reveal_strlit("0");
        reveal_strlit("1");
        reveal_strlit("2");
        reveal_strlit("3");
        reveal_strlit("4");
        reveal_strlit("5");
        reveal_strlit("6");
        reveal_strlit("7");
        reveal_strlit("8");
        reveal_strlit("9");
    }
    let r = if d == 0 {
        "0"
    } else if d == 1 {
        "1"
    } else if d == 2 {
        "2"
    } else if d == 3 {
        "3"
    } else if d == 4 {
        "4"
    } else if d == 5 {
        "5"
    } else if d == 6 {
        "6"
    } else if d == 7 {
        "7"
    } else if d == 8 {
        "8"
    } else {
        "9"
    };
    assert(r@ =~= seq![digit_char(d as nat)]);
    r
}

/// Appends the decimal digits of `n` to `out`.
fn push_decimal(out: &mut String, n: u8)
    ensures
        final(out)@ == old(out)@ + decimal_text(n as nat),
    decreases n,
{
    if n >= 10 {
        push_decimal(out, n / 10);
    }
    out.append(digit_str(n % 10));
    proof {
        if n >= 10 {
            assert(out@ =~= old(out)@ + decimal_text(n as nat));
        } else {
            assert(out@ =~= old(out)@ + decimal_text(n as nat));
        }
    }
}

impl HTTPVersion {
    /// Compares two versions, major number first.
    pub fn compare(&self, other: &HTTPVersion) -> (r: Ordering)
        ensures
            r == version_order(*self, *other),
    {
        if self.0 < other.0 {
            Ordering::Less
        } else if self.0 > other.0 {
            Ordering::Greater
        } else if self.1 < other.1 {
            Ordering::Less
        } else if self.1 > other.1 {
            Ordering::Greater
        } else {
            Ordering::Equal
        }
    }

    /// The version as text, such as `1.1`.
    pub fn to_string(&self) -> (r: String)
        ensures
            r@ == version_text(*self),
    {
        let mut out = String::new();
        push_decimal(&mut out, self.0);
        proof {
            reveal_strlit(".");
        }
        out.append(".");
        push_decimal(&mut out, self.1);
        assert(out@ =~= version_text(*self));
        out
    }
}

impl PartialOrd for HTTPVersion {
    fn partial_cmp(&self, other: &HTTPVersion) -> (r: Option<Ordering>) {
        Some(self.compare(other))
    }
}

impl PartialOrdSpecImpl for HTTPVersion {
    open spec fn obeys_partial_cmp_spec() -> bool {
        true
    }

    open spec fn partial_cmp_spec(&self, other: &HTTPVersion) -> Option<Ordering> {
        Some(version_order(*self, *other))
    }
}

impl From<(u8, u8)> for HTTPVersion {
    fn from(pair: (u8, u8)) -> (r: HTTPVersion) {
        HTTPVersion(pair.0, pair.1)
    }
}

impl FromSpecImpl<(u8, u8)> for HTTPVersion {
    open spec fn obeys_from_spec() -> bool {
        true
    }

    open spec fn from_spec(pair: (u8, u8)) -> HTTPVersion {
        HTTPVersion(pair.0, pair.1)
    }
}

impl PartialEq<(u8, u8)> for HTTPVersion {
    fn eq(&self, other: &(u8, u8)) -> (r: bool) {
        self.0 == other.0 && self.1 == other.1
    }
}

impl PartialEqSpecImpl<(u8, u8)> for HTTPVersion {
    open spec fn obeys_eq_spec() -> bool {
        true
    }

    open spec fn eq_spec(&self, other: &(u8, u8)) -> bool {
        self.0 == other.0 && self.1 == other.1
    }
}

impl PartialEq<HTTPVersion> for (u8, u8) {
    fn eq(&self, other: &HTTPVersion) -> (r: bool) {
        self.0 == other.0 && self.1 == other.1
    }
}

impl PartialEqSpecImpl<HTTPVersion> for (u8, u8) {
    open spec fn obeys_eq_spec() -> bool {
        true
    }

    open spec fn eq_spec(&self, other: &HTTPVersion) -> bool {
        self.0 == other.0 && self.1 == other.1
    }
}

impl PartialOrd<(u8, u8)> for HTTPVersion {
    fn partial_cmp(&self, other: &(u8, u8)) -> (r: Option<Ordering>) {
        Some(self.compare(&HTTPVersion(other.0, other.1)))
    }
}

impl PartialOrdSpecImpl<(u8, u8)> for HTTPVersion {
    open spec fn obeys_partial_cmp_spec() -> bool {
        true
    }

    open spec fn partial_cmp_spec(&self, other: &(u8, u8)) -> Option<Ordering> {
        Some(version_order(*self, HTTPVersion(other.0, other.1)))
    }
}

impl PartialOrd<HTTPVersion> for (u8, u8) {
    fn partial_cmp(&self, other: &HTTPVersion) -> (r: Option<Ordering>) {
        Some(HTTPVersion(self.0, self.1).compare(other))
    }
}

impl PartialOrdSpecImpl<HTTPVersion> for (u8, u8) {
    open spec fn obeys_partial_cmp_spec() -> bool {
        true
    }

    open spec fn partial_cmp_spec(&self, other: &HTTPVersion) -> Option<Ordering> {
        Some(version_order(HTTPVersion(self.0, self.1), *other))
    }
}

} // verus!
