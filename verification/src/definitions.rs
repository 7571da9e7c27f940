//! Code point classes of CSS Syntax Level 3, section 4.2.
use vstd::prelude::*;

verus! {

/// The character that peeking yields once the input is exhausted.
pub const EOF_CHAR: char = '\0';

pub open spec fn spec_is_dight(c: char) -> bool {
    '0' <= c <= '9'
}

/// A digit: a code point between U+0030 (0) and U+0039 (9) inclusive.
#[verifier::when_used_as_spec(spec_is_dight)]
pub fn is_dight(c: char) -> (b: bool)
    ensures
        b == spec_is_dight(c),
{
    '0' <= c && c <= '9'
}

pub open spec fn spec_is_hex_digit(c: char) -> bool {
    ('0' <= c <= '9') || ('a' <= c <= 'f') || ('A' <= c <= 'F')
}

/// A hex digit: a digit, or a letter between A and F in either case.
#[verifier::when_used_as_spec(spec_is_hex_digit)]
pub fn is_hex_digit(c: char) -> (b: bool)
    ensures
        b == spec_is_hex_digit(c),
{
    ('0' <= c && c <= '9') || ('a' <= c && c <= 'f') || ('A' <= c && c <= 'F')
}

pub open spec fn spec_is_letter(c: char) -> bool {
    ('a' <= c <= 'z') || ('A' <= c <= 'Z')
}

/// A letter: an ASCII letter in either case.
#[verifier::when_used_as_spec(spec_is_letter)]
pub fn is_letter(c: char) -> (b: bool)
    ensures
        b == spec_is_letter(c),
{
    ('a' <= c && c <= 'z') || ('A' <= c && c <= 'Z')
}

pub open spec fn spec_is_non_ascii(c: char) -> bool {
    c > '\x7f'
}

/// A non-ASCII code point: U+0080 or above.
#[verifier::when_used_as_spec(spec_is_non_ascii)]
pub fn is_non_ascii(c: char) -> (b: bool)
    ensures
        b == spec_is_non_ascii(c),
{
    c > '\x7f'
}

pub open spec fn spec_is_ident_start(c: char) -> bool {
    spec_is_letter(c) || spec_is_non_ascii(c) || c == '_'
}

/// An ident-start code point: a letter, a non-ASCII code point, or U+005F (_).
#[verifier::when_used_as_spec(spec_is_ident_start)]
pub fn is_ident_start(c: char) -> (b: bool)
    ensures
        b == spec_is_ident_start(c),
{
    is_letter(c) || is_non_ascii(c) || c == '_'
}

pub open spec fn spec_is_ident(c: char) -> bool {
    spec_is_ident_start(c) || spec_is_dight(c) || c == '-'
}

/// An ident code point: an ident-start code point, a digit, or U+002D (-).
#[verifier::when_used_as_spec(spec_is_ident)]
pub fn is_ident(c: char) -> (b: bool)
    ensures
        b == spec_is_ident(c),
{
    is_ident_start(c) || is_dight(c) || c == '-'
}

pub open spec fn spec_is_non_printable(c: char) -> bool {
    (c <= '\x08') || c == '\x0b' || ('\x0e' <= c <= '\x1f') || c == '\x7f'
}

/// A non-printable code point: U+0000 to U+0008, U+000B, U+000E to U+001F, or
/// U+007F.
#[verifier::when_used_as_spec(spec_is_non_printable)]
pub fn is_non_printable(c: char) -> (b: bool)
    ensures
        b == spec_is_non_printable(c),
{
    (c >= '\x00' && c <= '\x08') || c == '\x0b' || (c >= '\x0e' && c <= '\x1f') || c == '\x7f'
}

pub open spec fn spec_is_newline(c: char) -> bool {
    c == '\x0a' || c == '\x0d' || c == '\x0c'
}

/// A newline: U+000A (line feed), U+000D (carriage return) or U+000C (form
/// feed). The input is not preprocessed, so the latter two count as well.
#[verifier::when_used_as_spec(spec_is_newline)]
pub fn is_newline(c: char) -> (b: bool)
    ensures
        b == spec_is_newline(c),
{
    c == '\x0a' || c == '\x0d' || c == '\x0c'
}

pub open spec fn spec_is_whitespace(c: char) -> bool {
    spec_is_newline(c) || c == '\x09' || c == '\x20'
}

/// Whitespace: a newline, U+0009 (tab) or U+0020 (space).
#[verifier::when_used_as_spec(spec_is_whitespace)]
pub fn is_whitespace(c: char) -> (b: bool)
    ensures
        b == spec_is_whitespace(c),
{
    is_newline(c) || c == '\x09' || c == '\x20'
}

} // verus!
