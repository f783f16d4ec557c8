//! Hexadecimal byte streams: the mathematical meaning of hex decoding and
//! the trusted call into the `hex` crate that performs it.

use vstd::prelude::*;

verus! {

/// Whether `c` is one of the sixteen hex digits, in either case.
pub open spec fn is_hex_digit(c: char) -> bool {
    (48 <= c as u32 && c as u32 <= 57)  // '0' ..= '9'
    || (97 <= c as u32 && c as u32 <= 102)  // 'a' ..= 'f'
    || (65 <= c as u32 && c as u32 <= 70)  // 'A' ..= 'F'
}

/// The numeric value of a hex digit; meaningful only when `is_hex_digit(c)`.
pub open spec fn hex_digit_value(c: char) -> u8 {
    if 48 <= c as u32 && c as u32 <= 57 {
        (c as u32 - 48) as u8
    } else if 97 <= c as u32 && c as u32 <= 102 {
        (c as u32 - 87) as u8
    } else {
        (c as u32 - 55) as u8
    }
}

/// Whether `s` is a well-formed hex byte stream: even length, hex digits only.
pub open spec fn hex_ok(s: Seq<char>) -> bool {
    s.len() % 2 == 0 && (forall|i: int| 0 <= i < s.len() ==> is_hex_digit(#[trigger] s[i]))
}

/// The bytes a well-formed hex stream denotes: two digits per byte, the
/// first digit carrying the high nibble.
pub open spec fn hex_bytes(s: Seq<char>) -> Seq<u8> {
    Seq::new((s.len() / 2) as nat, |i: int| (16 * hex_digit_value(s[2 * i]) + hex_digit_value(
        s[2 * i + 1],
    )) as u8)
}

#[verifier::external_type_specification]
#[verifier::external_body]
pub struct ExFromHexError(hex::FromHexError);

/// Relies on `hex::decode`: it returns one byte for each pair of hex digits,
/// high nibble first, and an error exactly when the input has odd length or
/// holds a character that is no hex digit.
#[verifier::external_body]
pub fn hex_decode(s: &str) -> (r: Result<Vec<u8>, hex::FromHexError>)
    ensures
        r is Ok <==> hex_ok(s@),
        r is Ok ==> r->Ok_0@ == hex_bytes(s@),
{
    hex::decode(s)
}

} // verus!

