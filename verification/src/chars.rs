//! Character classes that the scanner dispatches on.
//!
//! The Unicode classes (white space, alphabetic, numeric) are those of the
//! standard library's `char` methods. White space and the ASCII classes are
//! stated exactly; the alphabetic and numeric classes, large tables of the
//! Unicode database, are named.

use vstd::prelude::*;

verus! {

/// Whether `c` has the Unicode `White_Space` property, which is what
/// `char::is_whitespace` tests: tab, line feed, vertical tab, form feed,
/// carriage return, space, next line, no-break space, ogham space mark, the
/// spaces from en quad to hair space, line and paragraph separator, narrow
/// no-break space, medium mathematical space and ideographic space.
pub open spec fn unicode_whitespace(c: char) -> bool {
    let v = c as int;
    ||| 0x09 <= v <= 0x0D
    ||| v == 0x20
    ||| v == 0x85
    ||| v == 0xA0
    ||| v == 0x1680
    ||| 0x2000 <= v <= 0x200A
    ||| v == 0x2028
    ||| v == 0x2029
    ||| v == 0x202F
    ||| v == 0x205F
    ||| v == 0x3000
}

/// Whether `char::is_alphabetic` holds of `c` (the Unicode `Alphabetic` property).
pub uninterp spec fn unicode_alphabetic(c: char) -> bool;

/// Whether `char::is_numeric` holds of `c` (a Unicode number category).
pub uninterp spec fn unicode_numeric(c: char) -> bool;

/// Calls `char::is_whitespace`, which holds exactly of the `White_Space`
/// characters that `unicode_whitespace` lists.
#[verifier::external_body]
pub(crate) fn is_whitespace(c: char) -> (r: bool)
    ensures
        r == unicode_whitespace(c),
{
    c.is_whitespace()
}

/// Calls `char::is_alphabetic`; its result is named `unicode_alphabetic(c)`.
/// Of ASCII characters the contract claims what the Unicode database
/// gives: the letters are alphabetic, the digits are not.
#[verifier::external_body]
pub(crate) fn is_alphabetic(c: char) -> (r: bool)
    ensures
        r == unicode_alphabetic(c),
        ascii_alphabetic(c) ==> r,
        ascii_digit(c) ==> !r,
{
    c.is_alphabetic()
}

/// Calls `char::is_numeric`; its result is named `unicode_numeric(c)`.
/// Of ASCII characters the contract claims what the Unicode database
/// gives: the digits are numeric, the letters are not.
#[verifier::external_body]
pub(crate) fn is_numeric(c: char) -> (r: bool)
    ensures
        r == unicode_numeric(c),
        ascii_digit(c) ==> r,
        ascii_alphabetic(c) ==> !r,
{
    c.is_numeric()
}

/// An ASCII decimal digit, `'0'..='9'`.
pub open spec fn ascii_digit(c: char) -> bool {
    '0' <= c && c <= '9'
}

/// An ASCII letter, `'A'..='Z'` or `'a'..='z'`.
pub open spec fn ascii_alphabetic(c: char) -> bool {
    ('A' <= c && c <= 'Z') || ('a' <= c && c <= 'z')
}

/// Tests `ascii_digit`.
pub fn is_ascii_digit(c: char) -> (r: bool)
    ensures
        r == ascii_digit(c),
{
    '0' <= c && c <= '9'
}

/// Tests `ascii_alphabetic`.
pub fn is_ascii_alphabetic(c: char) -> (r: bool)
    ensures
        r == ascii_alphabetic(c),
{
    ('A' <= c && c <= 'Z') || ('a' <= c && c <= 'z')
}

} // verus!
