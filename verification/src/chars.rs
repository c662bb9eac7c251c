//! Character classes used by the scanner.
//!
//! The classification of ASCII characters is written out in full. Outside
//! ASCII the classes follow the Unicode character database as shipped with the
//! standard library; that part is named here and left uninterpreted.

use vstd::prelude::*;

verus! {

/// For a character outside ASCII: whether the Unicode property `Alphabetic` holds of it,
/// as `char::is_alphabetic` reports it.
pub uninterp spec fn unicode_alphabetic(c: char) -> bool;

/// For a character outside ASCII: whether its general category is one of `Nd`, `Nl`, `No`,
/// as `char::is_numeric` reports it.
pub uninterp spec fn unicode_numeric(c: char) -> bool;

/// For a character outside ASCII: whether the Unicode property `White_Space` holds of it,
/// as `char::is_whitespace` reports it.
pub uninterp spec fn unicode_whitespace(c: char) -> bool;

/// The character lies in the ASCII range.
pub open spec fn is_ascii(c: char) -> bool {
    c <= '\x7f'
}

/// One of the ten ASCII decimal digits.
pub open spec fn is_decimal_digit(c: char) -> bool {
    '0' <= c <= '9'
}

/// One of the fifty-two ASCII letters.
pub open spec fn is_ascii_letter(c: char) -> bool {
    'a' <= c <= 'z' || 'A' <= c <= 'Z'
}

/// Space, tab, line feed, vertical tab, form feed or carriage return.
pub open spec fn is_ascii_whitespace(c: char) -> bool {
    c == ' ' || '\x09' <= c <= '\x0d'
}

/// A letter: an ASCII letter, or a character outside ASCII that Unicode calls alphabetic.
pub open spec fn alphabetic(c: char) -> bool {
    if is_ascii(c) {
        is_ascii_letter(c)
    } else {
        unicode_alphabetic(c)
    }
}

/// A numeric character: an ASCII decimal digit, or a character outside ASCII that Unicode
/// puts in a number category.
pub open spec fn numeric(c: char) -> bool {
    if is_ascii(c) {
        is_decimal_digit(c)
    } else {
        unicode_numeric(c)
    }
}

/// A letter or a numeric character.
pub open spec fn alphanumeric(c: char) -> bool {
    alphabetic(c) || numeric(c)
}

/// White space: space, tab, line feed, vertical tab, form feed, carriage return, or a
/// character outside ASCII that Unicode calls white space.
pub open spec fn white_space(c: char) -> bool {
    if is_ascii(c) {
        is_ascii_whitespace(c)
    } else {
        unicode_whitespace(c)
    }
}

/// Trusted: `char::is_alphabetic` holds of the ASCII letters and of no other ASCII
/// character; outside ASCII its answer is [`unicode_alphabetic`]. Together: [`alphabetic`].
pub assume_specification[ char::is_alphabetic ](c: char) -> (r: bool)
    ensures
        is_ascii(c) ==> r == is_ascii_letter(c),
        !is_ascii(c) ==> r == unicode_alphabetic(c),
;

/// Trusted: `char::is_numeric` holds of the ASCII decimal digits and of no other ASCII
/// character; outside ASCII its answer is [`unicode_numeric`]. Together: [`numeric`].
pub assume_specification[ char::is_numeric ](c: char) -> (r: bool)
    ensures
        is_ascii(c) ==> r == is_decimal_digit(c),
        !is_ascii(c) ==> r == unicode_numeric(c),
;

/// Trusted: `char::is_alphanumeric` holds exactly of the characters of which
/// `char::is_alphabetic` or `char::is_numeric` holds.
pub assume_specification[ char::is_alphanumeric ](c: char) -> (r: bool)
    ensures
        r == alphanumeric(c),
;

/// Trusted: among the ASCII characters `char::is_whitespace` holds of space, tab, line feed,
/// vertical tab, form feed and carriage return; outside ASCII its answer is
/// [`unicode_whitespace`]. Together: [`white_space`].
pub assume_specification[ char::is_whitespace ](c: char) -> (r: bool)
    ensures
        is_ascii(c) ==> r == is_ascii_whitespace(c),
        !is_ascii(c) ==> r == unicode_whitespace(c),
;

/// How far a character stands behind `'0'`: for a decimal digit, its value.
pub open spec fn digit_of(c: char) -> u8 {
    (c as u32 - '0' as u32) as u8
}

/// The value of an ASCII decimal digit, and `None` for every other character.
pub open spec fn digit_value(c: char) -> Option<u8> {
    if is_decimal_digit(c) {
        Some(digit_of(c))
    } else {
        None
    }
}

/// Reads one character as a decimal digit.
pub fn decimal_digit(c: char) -> (r: Option<u8>)
    ensures
        r == digit_value(c),
        r matches Some(d) ==> d < 10,
{
    if '0' <= c && c <= '9' {
        let d: u32 = c as u32 - '0' as u32;
        Some(d as u8)
    } else {
        None
    }
}

} // verus!
