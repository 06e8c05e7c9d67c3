//! Chunked transfer encoding of a response body.

use std::io::Write;
use vstd::prelude::*;

verus! {

/// The largest number of body bytes that go into one chunk.
pub const CHUNK_SIZE: usize = 8192;

/// The byte that stands for a hexadecimal digit, in lower case.
pub open spec fn hex_digit(d: nat) -> u8 {
    if d % 16 < 10 {
        (0x30 + d % 16) as u8
    } else {
        (0x61 + d % 16 - 10) as u8
    }
}

/// The hexadecimal digits of `n` in lower case, most significant first,
/// without leading zeros.
pub open spec fn lower_hex(n: nat) -> Seq<u8>
    decreases n,
{
    if n < 16 {
        seq![hex_digit(n)]
    } else {
        lower_hex(n / 16).push(hex_digit(n % 16))
    }
}

/// Carriage return and line feed.
pub open spec fn crlf() -> Seq<u8> {
    seq![0x0du8, 0x0au8]
}

/// The chunk of length zero that ends a chunked body: `0\r\n\r\n`.
pub open spec fn terminator() -> Seq<u8> {
    seq![0x30u8, 0x0du8, 0x0au8, 0x0du8, 0x0au8]
}

/// One chunk: the length of `data` in hexadecimal, a line break, `data`, a
/// line break.
pub open spec fn chunk(data: Seq<u8>) -> Seq<u8> {
    lower_hex(data.len()) + crlf() + data + crlf()
}

/// The chunked form of `body`: chunks of `CHUNK_SIZE` bytes, a shorter last
/// one for what remains, then the terminator.
pub open spec fn chunked(body: Seq<u8>) -> Seq<u8>
    decreases body.len(),
{
    if body.len() == 0 {
        terminator()
    } else {
        let n = if body.len() < CHUNK_SIZE {
            body.len() as int
        } else {
            CHUNK_SIZE as int
        };
        chunk(body.take(n)) + chunked(body.skip(n))
    }
}

/// Whether `s` ends with `tail`.
pub open spec fn ends_with(s: Seq<u8>, tail: Seq<u8>) -> bool {
    s.len() >= tail.len() && s.subrange(s.len() - tail.len(), s.len() as int) == tail
}

/// Chunked output always ends with the terminator `0\r\n\r\n`.
pub proof fn lemma_chunked_ends_with_terminator(body: Seq<u8>)
    ensures
        ends_with(chunked(body), terminator()),
    decreases body.len(),
{
    if body.len() == 0 {
        assert(chunked(body).subrange(0, 5) == terminator());
    } else {
        let n = if body.len() < CHUNK_SIZE {
            body.len() as int
        } else {
            CHUNK_SIZE as int
        };
        let head = chunk(body.take(n));
        let rest = chunked(body.skip(n));
        lemma_chunked_ends_with_terminator(body.skip(n));
        let whole = head + rest;
        assert(whole.subrange(whole.len() - 5, whole.len() as int) == rest.subrange(
            rest.len() - 5,
            rest.len() as int,
        ));
    }
}

/// `chunked_transfer::Encoder`, made with `Encoder::new`, given the whole
/// body in one `write_all` and then dropped: it gathers the body in chunks of
/// 8192 bytes, writes each as its length in lower-case hexadecimal, a line
/// break, the bytes and a line break, and on drop writes what is left as a
/// last chunk and then `0\r\n\r\n`. Writing to a vector does not fail.
#[verifier::external_body]
pub(crate) fn write_chunked(out: &mut Vec<u8>, body: &[u8])
    ensures
        final(out)@ == old(out)@ + chunked(body@),
{
    let mut encoder = chunked_transfer::Encoder::new(out);
    let _ = encoder.write_all(body);
}

/// The chunked form of `body`.
pub fn encode(body: &[u8]) -> (r: Vec<u8>)
    ensures
        r@ == chunked(body@),
        ends_with(r@, terminator()),
{
    let mut out: Vec<u8> = Vec::new();
    write_chunked(&mut out, body);
    proof {
        lemma_chunked_ends_with_terminator(body@);
        assert(out@ == chunked(body@));
    }
    out
}

} // verus!
