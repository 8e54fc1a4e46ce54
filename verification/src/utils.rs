//! Kinds of characters. A byte stands for the character with that number.

use vstd::prelude::*;

verus! {

/// The newline character.
pub const NEWLINE: u8 = 0x0a;

/// The underscore character.
pub const UNDERSCORE: u8 = 0x5f;

/// The characters up to `U+00FF` that have the Unicode property `White_Space`.
pub open spec fn white_space(byte: u8) -> bool {
    ||| 0x09 <= byte <= 0x0d
    ||| byte == 0x20
    ||| byte == 0x85
    ||| byte == 0xa0
}

/// The characters up to `U+00FF` that have the Unicode property `Alphabetic`.
pub open spec fn alphabetic(byte: u8) -> bool {
    ||| 0x41 <= byte <= 0x5a
    ||| 0x61 <= byte <= 0x7a
    ||| byte == 0xaa
    ||| byte == 0xb5
    ||| byte == 0xba
    ||| 0xc0 <= byte <= 0xd6
    ||| 0xd8 <= byte <= 0xf6
    ||| 0xf8 <= byte
}

/// `char::is_whitespace`, which tells whether a character has the Unicode property `White_Space`,
/// on the characters up to `U+00FF`.
#[verifier::external_body]
pub(crate) fn is_whitespace(byte: u8) -> (yes: bool)
    ensures
        yes == white_space(byte),
{
    char::from(byte).is_whitespace()
}

/// `char::is_alphabetic`, which tells whether a character has the Unicode property `Alphabetic`,
/// on the characters up to `U+00FF`.
#[verifier::external_body]
pub(crate) fn is_alphabetic(byte: u8) -> (yes: bool)
    ensures
        yes == alphabetic(byte),
{
    char::from(byte).is_alphabetic()
}

/// Alphabetic characters and the underscore.
pub open spec fn alpha_or_underscore(byte: u8) -> bool {
    alphabetic(byte) || byte == UNDERSCORE
}

/// Whether a character is alphabetic or an underscore.
pub fn is_alpha_or_(c: u8) -> (yes: bool)
    ensures
        yes == alpha_or_underscore(c),
{
    is_alphabetic(c) || c == UNDERSCORE
}

} // verus!
