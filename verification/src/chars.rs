//! Character classes of the template language.

use vstd::prelude::*;

verus! {

/// Whether `c` is alphabetic or numeric in the sense of the Unicode character database.
pub uninterp spec fn unicode_alphanumeric(c: char) -> bool;

/// `char::is_alphanumeric` of the standard library: the answer depends on the character alone,
/// and is given the name `unicode_alphanumeric`. Nothing more is claimed of it.
#[verifier::external_body]
fn char_is_alphanumeric(c: char) -> (r: bool)
    ensures
        r == unicode_alphanumeric(c),
{
    c.is_alphanumeric()
}

/// A blank inside an action: space or tab.
pub open spec fn space_char(c: char) -> bool {
    c == ' ' || c == '\t'
}

/// A line break: carriage return or line feed.
pub open spec fn end_of_line_char(c: char) -> bool {
    c == '\r' || c == '\n'
}

/// A printable ASCII character that may stand alone in an action:
/// strictly between U+0020 and U+007E.
pub open spec fn print_char(c: char) -> bool {
    '\u{20}' < c && c < '\u{7e}'
}

/// A decimal digit.
pub open spec fn digit_char(c: char) -> bool {
    '0' <= c && c <= '9'
}

/// A character of an identifier: an underscore, a letter or a digit.
pub open spec fn word_char(c: char) -> bool {
    c == '_' || unicode_alphanumeric(c)
}

/// `word_char` lifted to a rune that may be missing at the end of input.
pub open spec fn word_rune(r: Option<char>) -> bool {
    match r {
        Some(c) => word_char(c),
        None => false,
    }
}

/// Tells whether `input` is a space or a tab.
pub fn is_space(input: char) -> (r: bool)
    ensures
        r == space_char(input),
{
    input == ' ' || input == '\t'
}

/// Tells whether `r` is a carriage return or a line feed.
pub fn is_end_of_line(r: char) -> (res: bool)
    ensures
        res == end_of_line_char(r),
{
    r == '\r' || r == '\n'
}

/// Tells whether `r` is a printable ASCII character that may stand alone in an action.
pub fn is_print(r: char) -> (res: bool)
    ensures
        res == print_char(r),
{
    '\u{20}' < r && r < '\u{7e}'
}

/// Tells whether `r` is a decimal digit.
pub fn is_digit(r: char) -> (res: bool)
    ensures
        res == digit_char(r),
{
    '0' <= r && r <= '9'
}

/// Tells whether `r` is there and is an underscore, a letter or a digit.
pub fn is_alphanumeric(r: Option<char>) -> (res: bool)
    ensures
        res == word_rune(r),
{
    match r {
        None => false,
        Some(c) => c == '_' || char_is_alphanumeric(c),
    }
}

} // verus!
