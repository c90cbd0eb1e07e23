//! Lower-case hexadecimal encoding and decoding of byte strings.
//!
//! The mathematical form of the encoding lives in [`hex_of`] and
//! [`hex_decoded`]; the executable conversions are delegated to the
//! `hex` crate through the two trusted wrappers at the bottom.

use vstd::prelude::*;

verus! {

/// The lower-case hex digit for a nibble value.
pub open spec fn hex_digit(n: u8) -> char
    recommends
        n < 16,
{
    if n == 0 {
        '0'
    } else if n == 1 {
        '1'
    } else if n == 2 {
        '2'
    } else if n == 3 {
        '3'
    } else if n == 4 {
        '4'
    } else if n == 5 {
        '5'
    } else if n == 6 {
        '6'
    } else if n == 7 {
        '7'
    } else if n == 8 {
        '8'
    } else if n == 9 {
        '9'
    } else if n == 10 {
        'a'
    } else if n == 11 {
        'b'
    } else if n == 12 {
        'c'
    } else if n == 13 {
        'd'
    } else if n == 14 {
        'e'
    } else {
        'f'
    }
}

/// The nibble value of a hex digit; upper- and lower-case letters both count.
pub open spec fn hex_char_val(c: char) -> Option<u8> {
    if c == '0' {
        Some(0u8)
    } else if c == '1' {
        Some(1u8)
    } else if c == '2' {
        Some(2u8)
    } else if c == '3' {
        Some(3u8)
    } else if c == '4' {
        Some(4u8)
    } else if c == '5' {
        Some(5u8)
    } else if c == '6' {
        Some(6u8)
    } else if c == '7' {
        Some(7u8)
    } else if c == '8' {
        Some(8u8)
    } else if c == '9' {
        Some(9u8)
    } else if c == 'a' || c == 'A' {
        Some(10u8)
    } else if c == 'b' || c == 'B' {
        Some(11u8)
    } else if c == 'c' || c == 'C' {
        Some(12u8)
    } else if c == 'd' || c == 'D' {
        Some(13u8)
    } else if c == 'e' || c == 'E' {
        Some(14u8)
    } else if c == 'f' || c == 'F' {
        Some(15u8)
    } else {
        None
    }
}

/// The lower-case hex string of a byte string: two digits per byte,
/// high nibble first.
pub open spec fn hex_of(b: Seq<u8>) -> Seq<char> {
    Seq::new(
        b.len() * 2,
        |i: int|
            if i % 2 == 0 {
                hex_digit(b[i / 2] >> 4)
            } else {
                hex_digit(b[i / 2] & 0xf)
            },
    )
}

/// Whether a character string is a well-formed hex encoding:
/// even length, every character a hex digit.
pub open spec fn hex_valid(s: Seq<char>) -> bool {
    &&& s.len() % 2 == 0
    &&& forall|i: int| 0 <= i < s.len() ==> (#[trigger] hex_char_val(s[i])) is Some
}

/// The byte string encoded by a well-formed hex string.
pub open spec fn hex_decoded(s: Seq<char>) -> Seq<u8>
    recommends
        hex_valid(s),
{
    Seq::new(
        s.len() / 2,
        |i: int| (hex_char_val(s[2 * i]).unwrap() * 16 + hex_char_val(s[2 * i + 1]).unwrap()) as u8,
    )
}

/// Relies on hex::encode: every input byte becomes exactly two lower-case
/// hex digits, high nibble first, in input order.
#[verifier::external_body]
pub fn hex_encode(bytes: &[u8]) -> (r: String)
    ensures
        r@ == hex_of(bytes@),
{
    hex::encode(bytes)
}

/// Relies on hex::decode: it succeeds exactly on strings of even length
/// whose characters are all hex digits (either case), and then returns
/// one byte per digit pair, high nibble first.
#[verifier::external_body]
pub fn hex_decode(s: &str) -> (r: Option<Vec<u8>>)
    ensures
        r is Some <==> hex_valid(s@),
        r is Some ==> r.unwrap()@ == hex_decoded(s@),
{
    match hex::decode(s) {
        Ok(v) => Some(v),
        Err(_) => None,
    }
}

} // verus!
