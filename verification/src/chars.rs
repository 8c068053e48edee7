//! Character classes of the scanner.

use vstd::prelude::*;

verus! {

/// Whether `c` has the Unicode `Alphabetic` property, as
/// `char::is_alphabetic` reports it.
pub uninterp spec fn alphabetic(c: char) -> bool;

/// Believed, not proved: `char::is_alphabetic` of the standard library
/// depends on the character alone, and its result is the value that
/// `alphabetic` names. Nothing is claimed about which characters those are.
pub assume_specification[ char::is_alphabetic ](c: char) -> (b: bool)
    ensures
        b == alphabetic(c),
;

/// The characters skipped between tokens.
pub open spec fn is_blank(c: char) -> bool {
    c == ' ' || c == '\r' || c == '\t' || c == '\n'
}

/// A decimal digit, `0` to `9`.
pub open spec fn is_digit(c: char) -> bool {
    '0' <= c && c <= '9'
}

/// A letter of the basic Latin alphabet, the only characters that start an
/// identifier.
pub open spec fn is_letter(c: char) -> bool {
    ('a' <= c && c <= 'z') || ('A' <= c && c <= 'Z')
}

/// A character of the basic set, up to `'\x7f'`. Blanks, digits, quotes and
/// all punctuation of the language belong to it.
pub open spec fn is_basic(c: char) -> bool {
    c <= '\x7f'
}

/// A character that continues an identifier: a letter or a decimal digit.
/// In the basic set the letters are those of the basic Latin alphabet;
/// beyond it, a letter is what counts as alphabetic.
pub open spec fn is_word(c: char) -> bool {
    if is_basic(c) {
        is_letter(c) || is_digit(c)
    } else {
        alphabetic(c)
    }
}

/// Whether `c` is a blank.
pub fn blank(c: char) -> (b: bool)
    ensures
        b == is_blank(c),
{
    c == ' ' || c == '\r' || c == '\t' || c == '\n'
}

/// Whether `c` is a decimal digit.
pub fn digit(c: char) -> (b: bool)
    ensures
        b == is_digit(c),
{
    '0' <= c && c <= '9'
}

/// Whether `c` is a letter of the basic Latin alphabet.
pub fn letter(c: char) -> (b: bool)
    ensures
        b == is_letter(c),
{
    ('a' <= c && c <= 'z') || ('A' <= c && c <= 'Z')
}

/// Whether `c` continues an identifier: a letter of any alphabet or a
/// decimal digit.
pub fn word(c: char) -> (b: bool)
    ensures
        b == is_word(c),
{
    if c <= '\x7f' {
        letter(c) || digit(c)
    } else {
        c.is_alphabetic()
    }
}

} // verus!
