//! The transfer encoding of a response, and how a request's `TE` header and
//! the response's size decide it.

use std::cmp::Ordering;
use vstd::prelude::*;
use crate::text::{
    bytes_eq_ignore_case, bytes_of, copy_range, eq_ignore_case, literal, skip_spaces, split,
    split_bytes, trim, trim_range, trim_start, views,
};
use crate::version::{HTTPVersion, version_order};

verus! {

/// Transfer encoding to use when sending a message. Only the encodings that
/// this library can produce are listed.
#[derive(Debug, Clone, Copy, PartialEq, Eq, Structural)]
pub enum TransferEncoding {
    Identity,
    Chunked,
}

/// The weight of an entry that names none: 1, in thousandths.
pub const FULL_WEIGHT: u16 = 1000;

/// The encoding that a token names, ASCII case ignored.
pub open spec fn recognised(token: Seq<u8>) -> Option<TransferEncoding> {
    if eq_ignore_case(token, bytes_of("identity"@)) {
        Some(TransferEncoding::Identity)
    } else if eq_ignore_case(token, bytes_of("chunked"@)) {
        Some(TransferEncoding::Chunked)
    } else {
        None
    }
}

/// The value of a digit at position `i` of `s`, zero past the end.
pub open spec fn digit_at(s: Seq<u8>, i: int) -> nat {
    if 0 <= i < s.len() {
        (s[i] - 0x30) as nat
    } else {
        0
    }
}

/// A weight in thousandths: `0` or `1`, then optionally a point and digits.
/// After `1` the digits are zeros. After `0` the first three digits count;
/// where they are zeros and a later digit is not, the weight is the smallest
/// one above zero, so that a weight is zero only where all its digits are.
/// `None` for any other text.
pub open spec fn qvalue(s: Seq<u8>) -> Option<nat> {
    if s.len() == 0 || (s[0] != 0x30 && s[0] != 0x31) {
        None
    } else if s.len() >= 2 && s[1] != 0x2e {
        None
    } else if exists|i: int| 2 <= i < s.len() && !(0x30 <= #[trigger] s[i] <= 0x39) {
        None
    } else if s[0] == 0x31 {
        if exists|i: int| 2 <= i < s.len() && #[trigger] s[i] != 0x30 {
            None
        } else {
            Some(1000)
        }
    } else {
        let front = digit_at(s, 2) * 100 + digit_at(s, 3) * 10 + digit_at(s, 4);
        if front == 0 && exists|i: int| 5 <= i < s.len() && #[trigger] s[i] != 0x30 {
            Some(1)
        } else {
            Some(front)
        }
    }
}

/// The weight that one parameter gives: the parameter is `q=` and a weight,
/// with white space allowed before `q` and around the weight.
pub open spec fn param_weight(param: Seq<u8>) -> Option<nat> {
    let t = trim_start(param);
    if t.len() >= 2 && t[0] == 0x71 && t[1] == 0x3d {
        qvalue(trim(t.skip(2)))
    } else {
        None
    }
}

/// The weight of an entry with the parameters `params`: that of the first
/// parameter that gives one, else 1.
pub open spec fn weight_of(params: Seq<Seq<u8>>) -> nat
    decreases params.len(),
{
    if params.len() == 0 {
        FULL_WEIGHT as nat
    } else {
        match param_weight(params[0]) {
            Some(w) => w,
            None => weight_of(params.skip(1)),
        }
    }
}

/// One entry of a header value: the token before the first `;`, trimmed,
/// and the weight that its parameters give.
pub open spec fn entry_of(element: Seq<u8>) -> (Seq<u8>, nat) {
    let parts = split(element, 0x3b);
    (trim(parts[0]), weight_of(parts.skip(1)))
}

/// The entries of a header value, which are separated by commas.
pub open spec fn preferences(value: Seq<u8>) -> Seq<(Seq<u8>, nat)> {
    split(value, 0x2c).map_values(|element: Seq<u8>| entry_of(element))
}

/// Whether an entry can be chosen: its weight is above zero and its token
/// names an encoding.
pub open spec fn eligible(entry: (Seq<u8>, nat)) -> bool {
    entry.1 > 0 && recognised(entry.0).is_some()
}

/// The position of the entry to choose among the first `n`: the eligible
/// entry of the greatest weight, and of several such the first.
pub open spec fn best(entries: Seq<(Seq<u8>, nat)>, n: int) -> Option<int>
    decreases n,
{
    if n <= 0 {
        None
    } else {
        let before = best(entries, n - 1);
        if eligible(entries[n - 1]) && (before.is_none() || entries[before.unwrap()].1 < entries[n
            - 1].1) {
            Some(n - 1)
        } else {
            before
        }
    }
}

/// The encoding that the entries ask for, if any.
pub open spec fn preferred(entries: Seq<(Seq<u8>, nat)>) -> Option<TransferEncoding> {
    match best(entries, entries.len() as int) {
        Some(i) => recognised(entries[i].0),
        None => None,
    }
}

/// The chosen entry is eligible, no eligible entry weighs more, and every
/// eligible entry before it weighs less; and where none is chosen, none is
/// eligible. This is what sorting the entries by falling weight, keeping the
/// order of equal ones, and taking the first eligible one gives.
pub proof fn lemma_best(entries: Seq<(Seq<u8>, nat)>, n: int)
    requires
        0 <= n <= entries.len(),
    ensures
        match best(entries, n) {
            Some(i) => {
                &&& 0 <= i < n
                &&& eligible(entries[i])
                &&& forall|j: int| 0 <= j < n && eligible(entries[j]) ==> entries[j].1 <= entries[i].1
                &&& forall|j: int| 0 <= j < i && eligible(entries[j]) ==> entries[j].1 < entries[i].1
            },
            None => forall|j: int| 0 <= j < n ==> !eligible(entries[j]),
        },
    decreases n,
{
    if n > 0 {
        lemma_best(entries, n - 1);
    }
}

/// Whether a version is HTTP/1.0 or older.
pub open spec fn at_most_1_0(version: HTTPVersion) -> bool {
    version_order(version, HTTPVersion(1, 0)) != Ordering::Greater
}

/// Whether every byte is a tab or a printable ASCII character.
pub open spec fn is_visible(s: Seq<u8>) -> bool {
    forall|i: int| 0 <= i < s.len() ==> (32 <= #[trigger] s[i] < 127 || s[i] == 9)
}

/// What the values of a request's `TE` header ask for: the first value
/// counts, and only where it is printable text.
pub open spec fn requested(te_values: Seq<Seq<u8>>) -> Option<TransferEncoding> {
    if te_values.len() > 0 && is_visible(te_values[0]) {
        preferred(preferences(te_values[0]))
    } else {
        None
    }
}

/// The transfer encoding of a response.
///
/// HTTP/1.0 and older get the identity encoding, and so do responses with a
/// 1xx or 204 status. Else the request's `TE` header decides, where it names
/// an encoding with a weight above zero. Else a response with additional
/// headers is chunked, and so is one whose length is unknown or at least
/// `threshold`. All others are sent as they are.
pub open spec fn chosen_encoding(
    status: u16,
    te_values: Seq<Seq<u8>>,
    version: HTTPVersion,
    entity_length: Option<usize>,
    has_additional_headers: bool,
    threshold: usize,
) -> TransferEncoding {
    if at_most_1_0(version) {
        TransferEncoding::Identity
    } else if (100 <= status <= 199) || status == 204 {
        TransferEncoding::Identity
    } else if requested(te_values).is_some() {
        requested(te_values).unwrap()
    } else if has_additional_headers {
        TransferEncoding::Chunked
    } else if entity_length.is_none() || entity_length.unwrap() >= threshold {
        TransferEncoding::Chunked
    } else {
        TransferEncoding::Identity
    }
}

impl TransferEncoding {
    /// The encoding that `token` names, ASCII case ignored.
    pub fn from_bytes(token: &[u8]) -> (r: Option<TransferEncoding>)
        ensures
            r == recognised(token@),
    {
        proof {
            reveal_strlit("identity");
            reveal_strlit("chunked");
        }
        if bytes_eq_ignore_case(token, literal("identity")) {
            Some(TransferEncoding::Identity)
        } else if bytes_eq_ignore_case(token, literal("chunked")) {
            Some(TransferEncoding::Chunked)
        } else {
            None
        }
    }
}

/// Reads a weight in thousandths.
pub fn parse_qvalue(s: &[u8]) -> (r: Option<u16>)
    ensures
        r.is_some() == qvalue(s@).is_some(),
        r matches Some(w) ==> qvalue(s@) == Some(w as nat) && w <= 1000,
{
    let n = s.len();
    if n == 0 || (s[0] != 0x30 && s[0] != 0x31) {
        return None;
    }
    if n >= 2 && s[1] != 0x2e {
        return None;
    }
    let mut value: u16 = 0;
    let mut scale: u16 = 100;
    let mut all_zero = true;
    let mut late = false;
    let mut i: usize = 2;
    while i < n
        invariant
            2 <= i,
            n == s.len(),
            i <= n || n < 2,
            n < 2 ==> i == 2,
            forall|k: int| 2 <= k < i && k < n ==> 0x30 <= #[trigger] s@[k] <= 0x39,
            all_zero == (forall|k: int| 2 <= k < i && k < n ==> #[trigger] s@[k] == 0x30),
            late == (exists|k: int| 5 <= k < i && k < n && #[trigger] s@[k] != 0x30),
            i == 2 ==> value == 0 && scale == 100,
            i == 3 ==> value == digit_at(s@, 2) * 100 && scale == 10,
            i == 4 ==> value == digit_at(s@, 2) * 100 + digit_at(s@, 3) * 10 && scale == 1,
            i >= 5 ==> value == digit_at(s@, 2) * 100 + digit_at(s@, 3) * 10 + digit_at(s@, 4)
                && scale == 0,
        decreases n - i,
    {
        let b = s[i];
        if !(0x30 <= b && b <= 0x39) {
            return None;
        }
        if b != 0x30 {
            all_zero = false;
            if i >= 5 {
                late = true;
            }
        }
        if i < 5 {
            value = value + (b - 0x30) as u16 * scale;
            scale = scale / 10;
        }
        i += 1;
    }
    if s[0] == 0x31 {
        if all_zero {
            Some(1000)
        } else {
            None
        }
    } else if value == 0 && late {
        Some(1)
    } else {
        Some(value)
    }
}

/// The weight that one parameter gives, if it gives one.
pub fn parse_param_weight(param: &[u8]) -> (r: Option<u16>)
    ensures
        r.is_some() == param_weight(param@).is_some(),
        r matches Some(w) ==> param_weight(param@) == Some(w as nat),
{
    let start = skip_spaces(param, 0);
    assert(param@.skip(0) == param@);
    let ghost t = trim_start(param@);
    if param.len() - start >= 2 && param[start] == 0x71 && param[start + 1] == 0x3d {
        let (x, y) = trim_range(param, start + 2, param.len());
        assert(param@.subrange(start + 2, param.len() as int) == t.skip(2));
        let text = copy_range(param, x, y);
        parse_qvalue(text.as_slice())
    } else {
        None
    }
}

/// The weight of an entry whose parameters are `parts[from..]`.
pub fn parse_weight(parts: &Vec<Vec<u8>>, from: usize) -> (r: u16)
    requires
        from <= parts.len(),
    ensures
        r == weight_of(views(parts@).skip(from as int)),
{
    let mut i: usize = from;
    while i < parts.len()
        invariant
            from <= i <= parts.len(),
            weight_of(views(parts@).skip(from as int)) == weight_of(views(parts@).skip(i as int)),
        decreases parts.len() - i,
    {
        let ghost rest = views(parts@).skip(i as int);
        assert(rest[0] == parts@[i as int]@);
        assert(rest.skip(1) == views(parts@).skip(i + 1));
        match parse_param_weight(parts[i].as_slice()) {
            Some(w) => {
                return w;
            },
            None => {},
        }
        i += 1;
    }
    FULL_WEIGHT
}

/// The encoding that a header value asks for, if any.
pub fn parse_preferred(value: &[u8]) -> (r: Option<TransferEncoding>)
    ensures
        r == preferred(preferences(value@)),
{
    let elements = split_bytes(value, 0x2c);
    let ghost entries = preferences(value@);
    let mut choice: Option<TransferEncoding> = None;
    let mut weight: u16 = 0;
    let mut i: usize = 0;
    while i < elements.len()
        invariant
            0 <= i <= elements.len(),
            views(elements@) == split(value@, 0x2c),
            entries == preferences(value@),
            entries.len() == elements.len(),
            match best(entries, i as int) {
                Some(k) => 0 <= k < i && choice == recognised(entries[k].0) && weight
                    == entries[k].1,
                None => choice.is_none(),
            },
        decreases elements.len() - i,
    {
        let parts = split_bytes(elements[i].as_slice(), 0x3b);
        let (a, b) = trim_range(parts[0].as_slice(), 0, parts[0].len());
        let token = copy_range(parts[0].as_slice(), a, b);
        let w = parse_weight(&parts, 1);
        let encoding = TransferEncoding::from_bytes(token.as_slice());
        proof {
            let element = elements@[i as int]@;
            assert(views(elements@)[i as int] == element);
            assert(entries[i as int] == entry_of(element));
            assert(views(parts@)[0] == parts@[0]@);
            assert(parts@[0]@.subrange(0, parts@[0]@.len() as int) == parts@[0]@);
            assert(token@ == trim(parts@[0]@));
            assert(entries[i as int] == (token@, w as nat));
            assert(eligible(entries[i as int]) == (w > 0 && encoding.is_some()));
            lemma_best(entries, i as int);
        }
        if w > 0 && encoding.is_some() && (choice.is_none() || weight < w) {
            choice = encoding;
            weight = w;
        }
        i += 1;
    }
    choice
}

} // verus!
