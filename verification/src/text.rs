//! Character classes and case-insensitive matching over character
//! sequences, the vocabulary every other module speaks in.
//!
//! Case-insensitivity throughout the crate means ASCII case folding:
//! `'A'..='Z'` fold to `'a'..='z'`, every other character stands for
//! itself.

use vstd::prelude::*;

verus! {

/// An ASCII uppercase letter.
pub open spec fn is_upper(c: char) -> bool {
    'A' <= c && c <= 'Z'
}

/// An ASCII lowercase letter.
pub open spec fn is_lower(c: char) -> bool {
    'a' <= c && c <= 'z'
}

/// Whitespace as the trimming and tokenizing rules understand it.
pub open spec fn is_space(c: char) -> bool {
    c == ' ' || c == '\t' || c == '\n' || c == '\r'
}

/// ASCII case folding of one character.
pub open spec fn fold_char(c: char) -> char {
    if is_upper(c) {
        (((c as u8) + 32) as char)
    } else {
        c
    }
}

/// ASCII case folding of a sequence, character by character.
pub open spec fn fold(s: Seq<char>) -> Seq<char> {
    s.map_values(|c: char| fold_char(c))
}

/// Two sequences that are equal up to ASCII case.
pub open spec fn eq_fold(a: Seq<char>, b: Seq<char>) -> bool {
    fold(a) == fold(b)
}

pub fn char_is_upper(c: char) -> (r: bool)
    ensures
        r == is_upper(c),
{
    'A' <= c && c <= 'Z'
}

pub fn char_is_lower(c: char) -> (r: bool)
    ensures
        r == is_lower(c),
{
    'a' <= c && c <= 'z'
}

pub fn char_is_space(c: char) -> (r: bool)
    ensures
        r == is_space(c),
{
    c == ' ' || c == '\t' || c == '\n' || c == '\r'
}

pub fn char_fold(c: char) -> (r: char)
    ensures
        r == fold_char(c),
{
    if 'A' <= c && c <= 'Z' {
        ((c as u8) + 32) as char
    } else {
        c
    }
}

} // verus!
