//! The character table shared by the encoder and the decoder.
//!
//! Every character has a value in `0..40`: digits take 1 to 10, letters of
//! either case 11 to 36, and `.`, `$`, `%` take 37, 38, 39. Whitespace, and
//! every character outside that set, takes 0, the value of a space.

use vstd::prelude::*;

verus! {

/// Number of distinct character values, and the base of a packed word.
pub const RADIX: u8 = 40;

/// The value of a character in the table.
pub open spec fn char_value(c: char) -> int {
    if 'A' as int <= c as int <= 'Z' as int {
        11 + (c as int - 'A' as int)
    } else if 'a' as int <= c as int <= 'z' as int {
        11 + (c as int - 'a' as int)
    } else if '0' as int <= c as int <= '9' as int {
        1 + (c as int - '0' as int)
    } else if c == '.' {
        37
    } else if c == '$' {
        38
    } else if c == '%' {
        39
    } else {
        0
    }
}

/// The character that a value decodes to: letters come out upper case, and a
/// value outside `0..40` decodes to a space.
pub open spec fn value_char(v: int) -> char {
    if 1 <= v <= 10 {
        ('0' as int + (v - 1)) as char
    } else if 11 <= v <= 36 {
        ('A' as int + (v - 11)) as char
    } else if v == 37 {
        '.'
    } else if v == 38 {
        '$'
    } else if v == 39 {
        '%'
    } else {
        ' '
    }
}

/// What a character reads as after it has been encoded and decoded.
pub open spec fn normalized(c: char) -> char {
    value_char(char_value(c))
}

/// Every character value lies in `0..40`.
pub proof fn lemma_char_value_range(c: char)
    ensures
        0 <= char_value(c) < RADIX,
{
}

/// Decoding is a right inverse of encoding: a value in `0..40` decodes to a
/// character whose value it is.
pub proof fn lemma_value_char_inverse(v: int)
    requires
        0 <= v < RADIX,
    ensures
        char_value(value_char(v)) == v,
{
}

/// The value of a character; total, with 0 for anything outside the table.
pub fn char_to_value(c: char) -> (v: u8)
    ensures
        v as int == char_value(c),
        v < RADIX,
{
    if 'A' <= c && c <= 'Z' {
        (c as u32 - 'A' as u32 + 11) as u8
    } else if 'a' <= c && c <= 'z' {
        (c as u32 - 'a' as u32 + 11) as u8
    } else if '0' <= c && c <= '9' {
        (c as u32 - '0' as u32 + 1) as u8
    } else if c == '.' {
        37
    } else if c == '$' {
        38
    } else if c == '%' {
        39
    } else {
        0
    }
}

/// The character that a value decodes to; a space for any value past 39.
pub fn value_to_char(v: u8) -> (c: char)
    ensures
        c == value_char(v as int),
{
    if 1 <= v && v <= 10 {
        ('0' as u8 + (v - 1)) as char
    } else if 11 <= v && v <= 36 {
        ('A' as u8 + (v - 11)) as char
    } else if v == 37 {
        '.'
    } else if v == 38 {
        '$'
    } else if v == 39 {
        '%'
    } else {
        ' '
    }
}

} // verus!
