//! Hex-digit decoding: one ASCII character to a nibble, two characters
//! to a byte.

use vstd::prelude::*;

verus! {

/// The value of one ASCII hex digit: `'0'`-`'9'` map to 0-9,
/// `'A'`-`'F'` and `'a'`-`'f'` map to 10-15, and every other byte is
/// rejected.
pub open spec fn spec_digit_value(c: u8) -> Option<u8> {
    if '0' as u8 <= c && c <= '9' as u8 {
        Some((c - '0' as u8) as u8)
    } else if 'A' as u8 <= c && c <= 'F' as u8 {
        Some((c - 'A' as u8 + 10) as u8)
    } else if 'a' as u8 <= c && c <= 'f' as u8 {
        Some((c - 'a' as u8 + 10) as u8)
    } else {
        None
    }
}

/// The byte encoded by two hex digits: sixteen times the high digit
/// plus the low digit, invalid as soon as either digit is.
pub open spec fn spec_decode_byte(c1: u8, c2: u8) -> Option<u8> {
    match (spec_digit_value(c1), spec_digit_value(c2)) {
        (Some(hi), Some(lo)) => Some((16 * hi + lo) as u8),
        _ => None,
    }
}

/// Decode one ASCII hex digit.
pub fn char_to_byte(c: u8) -> (r: Option<u8>)
    ensures
        r == spec_digit_value(c),
{
    let zero = '0' as u8;
    let nine = '9' as u8;
    let a = 'a' as u8;
    let f = 'f' as u8;
    let cap_a = 'A' as u8;
    let cap_f = 'F' as u8;

    if c >= zero && c <= nine {
        Some(c - zero)
    } else if c >= cap_a && c <= cap_f {
        Some(c - cap_a + 10)
    } else if c >= a && c <= f {
        Some(c - a + 10)
    } else {
        None
    }
}

/// Decode two ASCII hex digits into one byte, high nibble first.
pub fn two_char_to_byte(char1: u8, char2: u8) -> (r: Option<u8>)
    ensures
        r == spec_decode_byte(char1, char2),
{
    let n1 = match char_to_byte(char1) {
        Some(n) => n,
        None => {
            return None;
        },
    };
    let n2 = match char_to_byte(char2) {
        Some(n) => n,
        None => {
            return None;
        },
    };
    Some(n1 * 16 + n2)
}

/// Hex digits decode case-insensitively: a lowercase letter maps to the
/// same value as its uppercase counterpart.
pub proof fn lemma_digit_value_case_insensitive(upper: u8, lower: u8)
    requires
        'A' as u8 <= upper && upper <= 'F' as u8,
        lower == upper + 32,
    ensures
        spec_digit_value(lower) == spec_digit_value(upper),
{
}

/// Exactly the twenty-two ASCII hex-digit characters decode; every
/// other byte is rejected.
pub proof fn lemma_digit_value_total(c: u8)
    ensures
        spec_digit_value(c) is Some <==> (('0' as u8 <= c && c <= '9' as u8) || ('A' as u8 <= c
            && c <= 'F' as u8) || ('a' as u8 <= c && c <= 'f' as u8)),
{
}

/// A byte decodes to sixteen times its high digit plus its low digit
/// whenever both digits are valid, and fails as soon as either digit
/// is invalid.
pub proof fn lemma_decode_byte_value(c1: u8, c2: u8)
    ensures
        spec_digit_value(c1) is Some && spec_digit_value(c2) is Some ==> spec_decode_byte(c1, c2)
            == Some((16 * spec_digit_value(c1)->Some_0 + spec_digit_value(c2)->Some_0) as u8),
        spec_digit_value(c1) is None || spec_digit_value(c2) is None ==> spec_decode_byte(c1, c2)
            is None,
{
}

} // verus!
