//! The date of a response, in the fixed-length format of HTTP.

use vstd::prelude::*;
use crate::headers::is_header_value;

verus! {

/// The first second that can no longer be written with a four-digit year:
/// the start of the year 10000.
pub const DATE_LIMIT: u64 = 253402300800;

/// The length of every formatted date.
pub const DATE_LEN: usize = 29;

/// The HTTP date of the second `secs` after the start of 1970, such as
/// `Wed, 04 May 1983 11:17:00 GMT`.
pub uninterp spec fn http_date_text(secs: u64) -> Seq<u8>;

/// The date of the second `now`, where it can be written: before the year
/// 10000.
pub open spec fn date_at(now: u64) -> Option<Seq<u8>> {
    if now < DATE_LIMIT {
        Some(http_date_text(now))
    } else {
        None
    }
}

/// `SystemTime::now` and `SystemTime::duration_since`: the seconds that have
/// passed since the start of 1970, zero where the clock stands before it.
/// Nothing is known of the number.
#[verifier::external_body]
pub(crate) fn unix_time_now() -> (r: u64) {
    match std::time::SystemTime::now().duration_since(std::time::UNIX_EPOCH) {
        Ok(elapsed) => elapsed.as_secs(),
        Err(_) => 0,
    }
}

/// `httpdate::fmt_http_date`: the date of a second before the year 10000,
/// always 29 bytes of letters, digits, spaces, a comma and colons. Later
/// seconds make it panic.
#[verifier::external_body]
pub(crate) fn http_date_bytes(secs: u64) -> (r: Vec<u8>)
    requires
        secs < DATE_LIMIT,
    ensures
        r@ == http_date_text(secs),
        r@.len() == DATE_LEN,
        is_header_value(r@),
{
    let time = std::time::UNIX_EPOCH + std::time::Duration::from_secs(secs);
    httpdate::fmt_http_date(time).into_bytes()
}

/// The HTTP date of the second `secs` after the start of 1970; `None` from
/// the year 10000 on.
pub fn format_http_date(secs: u64) -> (r: Option<Vec<u8>>)
    ensures
        r.is_some() == (secs < DATE_LIMIT),
        r matches Some(text) ==> date_at(secs) == Some(text@) && text@.len() == DATE_LEN,
{
    if secs < DATE_LIMIT {
        Some(http_date_bytes(secs))
    } else {
        None
    }
}

} // verus!
