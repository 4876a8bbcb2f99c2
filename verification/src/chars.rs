//! Character classes used by the identifier normalizer, with executable
//! checks proved against their specification-level definitions.

use vstd::prelude::*;

verus! {

/// An ASCII lowercase letter.
pub open spec fn is_lower(c: char) -> bool {
    97 <= c as u32 && c as u32 <= 122
}

/// An ASCII uppercase letter.
pub open spec fn is_upper(c: char) -> bool {
    65 <= c as u32 && c as u32 <= 90
}

/// An ASCII decimal digit.
pub open spec fn is_digit(c: char) -> bool {
    48 <= c as u32 && c as u32 <= 57
}

/// An ASCII letter.
pub open spec fn is_letter(c: char) -> bool {
    is_lower(c) || is_upper(c)
}

/// A character that may appear in an identifier: letter, digit or underscore.
pub open spec fn is_word_char(c: char) -> bool {
    is_letter(c) || is_digit(c) || c == '_'
}

/// A character that may open an identifier: letter or underscore.
pub open spec fn is_lead_char(c: char) -> bool {
    is_letter(c) || c == '_'
}

/// ASCII whitespace: space, tab, line feed, form feed, carriage return.
pub open spec fn is_space(c: char) -> bool {
    c == ' ' || c == '\t' || c == '\n' || c == '\u{c}' || c == '\r'
}

/// The lowercase counterpart of an ASCII uppercase letter; any other
/// character is left as it is.
pub open spec fn to_lower(c: char) -> char {
    if is_upper(c) {
        ((c as u32 + 32) as u8) as char
    } else {
        c
    }
}

/// Executable check for [`is_lower`].
pub fn check_lower(c: char) -> (r: bool)
    ensures
        r == is_lower(c),
{
    let u = c as u32;
    97 <= u && u <= 122
}

/// Executable check for [`is_upper`].
pub fn check_upper(c: char) -> (r: bool)
    ensures
        r == is_upper(c),
{
    let u = c as u32;
    65 <= u && u <= 90
}

/// Executable check for [`is_digit`].
pub fn check_digit(c: char) -> (r: bool)
    ensures
        r == is_digit(c),
{
    let u = c as u32;
    48 <= u && u <= 57
}

/// Executable check for [`is_word_char`].
pub fn check_word_char(c: char) -> (r: bool)
    ensures
        r == is_word_char(c),
{
    check_lower(c) || check_upper(c) || check_digit(c) || c == '_'
}

/// Executable check for [`is_lead_char`].
pub fn check_lead_char(c: char) -> (r: bool)
    ensures
        r == is_lead_char(c),
{
    check_lower(c) || check_upper(c) || c == '_'
}

/// Executable check for [`is_space`].
pub fn check_space(c: char) -> (r: bool)
    ensures
        r == is_space(c),
{
    c == ' ' || c == '\t' || c == '\n' || c == '\u{c}' || c == '\r'
}

/// Executable lowercasing of a single character, per [`to_lower`].
pub fn lower_char(c: char) -> (r: char)
    ensures
        r == to_lower(c),
{
    if check_upper(c) {
        ((c as u32 + 32) as u8) as char
    } else {
        c
    }
}

} // verus!
