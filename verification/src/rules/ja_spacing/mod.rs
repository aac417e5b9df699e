//! Spacing between full-width and half-width text.

pub mod ja_no_space_between_full_width;
pub mod ja_space_between_half_and_full_width;

use vstd::prelude::*;

verus! {

/// Kanji, hiragana, katakana and the Japanese comma and period.
pub open spec fn full_width(c: char) -> bool {
    let v = c as u32;
    c == '々' || c == '〇' || c == '〻' || c == '、' || c == '。' || (0x3400 <= v <= 0x4DBF) || (0x4E00 <= v
        <= 0x9FFF) || (0xF900 <= v <= 0xFAFF) || (0x20000 <= v <= 0x2A6DF) || (0x2A700 <= v <= 0x2EBEF)
        || (0x3041 <= v <= 0x3093) || (0x30A1 <= v <= 0x30F6)
}

pub fn is_full_width(c: char) -> (r: bool)
    ensures
        r == full_width(c),
{
    let v = c as u32;
    c == '々' || c == '〇' || c == '〻' || c == '、' || c == '。' || (0x3400 <= v && v <= 0x4DBF) || (0x4E00
        <= v && v <= 0x9FFF) || (0xF900 <= v && v <= 0xFAFF) || (0x20000 <= v && v <= 0x2A6DF) || (0x2A700
        <= v && v <= 0x2EBEF) || (0x3041 <= v && v <= 0x3093) || (0x30A1 <= v && v <= 0x30F6)
}

/// Katakana, which may form a compound across a space.
pub open spec fn katakana(c: char) -> bool {
    0x30A1 <= (c as u32) <= 0x30F6
}

pub fn is_katakana_in_compound(c: char) -> (r: bool)
    ensures
        r == katakana(c),
{
    let v = c as u32;
    0x30A1 <= v && v <= 0x30F6
}

/// An ASCII letter or digit.
pub open spec fn half_width_alnum(c: char) -> bool {
    ('0' <= c <= '9') || ('a' <= c <= 'z') || ('A' <= c <= 'Z')
}

pub fn is_half_width_alnum(c: char) -> (r: bool)
    ensures
        r == half_width_alnum(c),
{
    ('0' <= c && c <= '9') || ('a' <= c && c <= 'z') || ('A' <= c && c <= 'Z')
}

/// The Japanese comma and period.
pub open spec fn zen_punctuation(c: char) -> bool {
    c == '、' || c == '。'
}

pub fn is_zen_punctuation(c: char) -> (r: bool)
    ensures
        r == zen_punctuation(c),
{
    c == '、' || c == '。'
}

} // verus!
