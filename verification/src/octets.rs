//! Byte-level helpers for literal rendering: hexadecimal encoding, UTF-8
//! decoding, and the printable-text heuristic that decides whether a byte
//! column value is rendered as a quoted string or as a hex literal.
use vstd::prelude::*;
use vstd::utf8::{encode_utf8, valid_utf8};

verus! {

/// Lowercase hexadecimal digit for a value between 0 and 15.
pub open spec fn hex_digit(d: int) -> char {
    if d < 10 {
        crate::text::dec_digit(d)
    } else if d == 10 {
        'a'
    } else if d == 11 {
        'b'
    } else if d == 12 {
        'c'
    } else if d == 13 {
        'd'
    } else if d == 14 {
        'e'
    } else {
        'f'
    }
}

/// Lowercase hexadecimal rendering of a byte sequence, two digits per byte,
/// high nibble first.
pub open spec fn hex_chars(b: Seq<u8>) -> Seq<char>
    decreases b.len(),
{
    if b.len() == 0 {
        Seq::empty()
    } else {
        hex_chars(b.drop_last()) + seq![
            hex_digit(b.last() as int / 16),
            hex_digit(b.last() as int % 16),
        ]
    }
}

/// Relies on hex::encode: every input byte becomes exactly two lowercase
/// hexadecimal digits, high nibble first, in input order.
#[verifier::external_body]
pub(crate) fn hex_encode_chars(b: &[u8]) -> (r: Vec<char>)
    ensures
        r@ == hex_chars(b@),
{
    hex::encode(b).chars().collect()
}

/// Relies on std's str::from_utf8: it succeeds exactly on valid UTF-8 input,
/// and the returned text is the one whose UTF-8 encoding is that input.
#[verifier::external_body]
pub(crate) fn utf8_to_str(b: &[u8]) -> (r: Option<&str>)
    ensures
        r is Some <==> valid_utf8(b@),
        r matches Some(s) ==> encode_utf8(s@) == b@,
{
    std::str::from_utf8(b).ok()
}

/// The characters a sequence of valid UTF-8 bytes decodes to.
pub open spec fn utf8_chars(b: Seq<u8>) -> Seq<char> {
    vstd::utf8::decode_utf8(b)
}

/// The bytes counted as printable by the text heuristic: the visible ASCII
/// range plus space, newline, carriage return, and tab.
pub open spec fn is_printable_byte(b: u8) -> bool {
    (32 <= b < 127) || b == 10 || b == 13 || b == 9
}

/// How many bytes of `b` are printable.
pub open spec fn printable_count(b: Seq<u8>) -> nat
    decreases b.len(),
{
    if b.len() == 0 {
        0
    } else {
        printable_count(b.drop_last()) + if is_printable_byte(b.last()) {
            1nat
        } else {
            0nat
        }
    }
}

/// The heuristic deciding whether bytes are treated as text: they must be
/// valid UTF-8 and at least nine of every ten bytes must be printable.
pub open spec fn likely_text(b: Seq<u8>) -> bool {
    valid_utf8(b) && printable_count(b) * 10 >= b.len() * 9
}

fn printable_count_exec(bytes: &[u8]) -> (n: usize)
    ensures
        n == printable_count(bytes@),
{
    let mut n: usize = 0;
    let len = bytes.len();
    for k in 0..len
        invariant
            len == bytes@.len(),
            n == printable_count(bytes@.take(k as int)),
            n <= k,
    {
        let b = bytes[k];
        proof {
            assert(bytes@.take(k + 1).drop_last() =~= bytes@.take(k as int));
            assert(bytes@.take(k + 1).last() == b);
        }
        if (32 <= b && b < 127) || b == 10 || b == 13 || b == 9 {
            n = n + 1;
        }
    }
    proof {
        assert(bytes@.take(len as int) =~= bytes@);
    }
    n
}

/// Whether `bytes` look like text: valid UTF-8 with at least 90% printable
/// bytes.
pub fn is_likely_text(bytes: &[u8]) -> (r: bool)
    ensures
        r == likely_text(bytes@),
{
    if utf8_to_str(bytes).is_none() {
        return false;
    }
    let count = printable_count_exec(bytes);
    let len = bytes.len();
    (count as u128) * 10 >= (len as u128) * 9
}

} // verus!
