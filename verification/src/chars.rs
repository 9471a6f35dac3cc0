//! Character classes and ASCII case mapping, and what is taken on trust of
//! the standard library's functions on characters.

use vstd::prelude::*;

verus! {

/// What `char::is_alphabetic` returns: whether the character has the
/// Alphabetic property of the Unicode Character Database.
pub uninterp spec fn unicode_alphabetic(c: char) -> bool;

/// True for `A` to `Z`.
pub open spec fn is_ascii_upper(c: char) -> bool {
    'A' <= c <= 'Z'
}

/// True for `a` to `z`.
pub open spec fn is_ascii_lower(c: char) -> bool {
    'a' <= c <= 'z'
}

/// True for the 52 letters of ASCII.
pub open spec fn is_ascii_letter(c: char) -> bool {
    is_ascii_upper(c) || is_ascii_lower(c)
}

/// True for the 128 characters of ASCII.
pub open spec fn is_ascii(c: char) -> bool {
    c <= '\u{7f}'
}

/// The characters that count as letters: within ASCII the 52 letters, and
/// outside it every character with the Alphabetic property.
pub open spec fn is_letter(c: char) -> bool {
    if is_ascii(c) {
        is_ascii_letter(c)
    } else {
        unicode_alphabetic(c)
    }
}

/// `char::is_alphabetic` tells whether a character has the Alphabetic
/// property of Unicode. Trusted: the result depends on the character alone,
/// and within ASCII the property belongs to the 52 letters and to nothing
/// else.
pub assume_specification[ char::is_alphabetic ](c: char) -> (b: bool)
    ensures
        b == unicode_alphabetic(c),
        is_ascii(c) ==> b == is_ascii_letter(c),
;

/// `String::push` appends one character. Trusted: the string afterwards is
/// the string before with `c` at its end.
pub assume_specification[ String::push ](s: &mut String, c: char)
    ensures
        final(s)@ == old(s)@.push(c),
;

/// `A` to `Z` become `a` to `z`; every other character stays.
pub open spec fn ascii_lower(c: char) -> char {
    if is_ascii_upper(c) {
        ((c as u8) + 32) as char
    } else {
        c
    }
}

/// `a` to `z` become `A` to `Z`; every other character stays.
pub open spec fn ascii_upper(c: char) -> char {
    if is_ascii_lower(c) {
        ((c as u8) - 32) as char
    } else {
        c
    }
}

/// Two characters that differ at most in ASCII case.
pub open spec fn same_letter(a: char, b: char) -> bool {
    ascii_lower(a) == ascii_lower(b)
}

/// The lower-case form of an ASCII letter, any other character unchanged.
pub fn to_ascii_lower(c: char) -> (r: char)
    ensures
        r == ascii_lower(c),
{
    if 'A' <= c && c <= 'Z' {
        let code: u8 = c as u8;
        (code + 32) as char
    } else {
        c
    }
}

/// The upper-case form of an ASCII letter, any other character unchanged.
pub fn to_ascii_upper(c: char) -> (r: char)
    ensures
        r == ascii_upper(c),
{
    if 'a' <= c && c <= 'z' {
        let code: u8 = c as u8;
        (code - 32) as char
    } else {
        c
    }
}

} // verus!
