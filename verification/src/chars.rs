//! The character classes that the tokenizer tells apart.
//!
//! Each class is a spec predicate on `char`, stated by code points, and an
//! executable test that is proved to compute it.
use vstd::prelude::*;

verus! {

/// The characters with the Unicode property `White_Space`: the controls
/// U+0009 to U+000D, the space, U+0085, and the spaces and separators
/// beyond ASCII.
pub open spec fn white_space(c: char) -> bool {
    ||| '\u{9}' <= c <= '\u{d}'
    ||| c == ' '
    ||| c == '\u{85}'
    ||| c == '\u{a0}'
    ||| c == '\u{1680}'
    ||| '\u{2000}' <= c <= '\u{200a}'
    ||| c == '\u{2028}'
    ||| c == '\u{2029}'
    ||| c == '\u{202f}'
    ||| c == '\u{205f}'
    ||| c == '\u{3000}'
}

/// The ASCII decimal digits, `0` to `9`.
pub open spec fn ascii_digit(c: char) -> bool {
    '0' <= c <= '9'
}

/// The ASCII letters, `A` to `Z` and `a` to `z`.
pub open spec fn ascii_alphabetic(c: char) -> bool {
    'A' <= c <= 'Z' || 'a' <= c <= 'z'
}

/// The ASCII letters and decimal digits.
pub open spec fn ascii_alphanumeric(c: char) -> bool {
    ascii_alphabetic(c) || ascii_digit(c)
}

/// Tests whether `c` is white space.
pub fn is_whitespace(c: char) -> (b: bool)
    ensures
        b == white_space(c),
{
    (c >= '\u{9}' && c <= '\u{d}') || c == ' ' || c == '\u{85}' || c == '\u{a0}' || c
        == '\u{1680}' || (c >= '\u{2000}' && c <= '\u{200a}') || c == '\u{2028}' || c
        == '\u{2029}' || c == '\u{202f}' || c == '\u{205f}' || c == '\u{3000}'
}

/// Tests whether `c` is an ASCII decimal digit.
pub fn is_ascii_digit(c: char) -> (b: bool)
    ensures
        b == ascii_digit(c),
{
    c >= '0' && c <= '9'
}

/// Tests whether `c` is an ASCII letter.
pub fn is_ascii_alphabetic(c: char) -> (b: bool)
    ensures
        b == ascii_alphabetic(c),
{
    (c >= 'A' && c <= 'Z') || (c >= 'a' && c <= 'z')
}

/// Tests whether `c` is an ASCII letter or decimal digit.
pub fn is_ascii_alphanumeric(c: char) -> (b: bool)
    ensures
        b == ascii_alphanumeric(c),
{
    is_ascii_alphabetic(c) || is_ascii_digit(c)
}

} // verus!
