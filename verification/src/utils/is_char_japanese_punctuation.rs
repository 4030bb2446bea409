use vstd::prelude::*;
use crate::utils::is_char_in_range::{char_in_range, is_char_in_range};

verus! {

/// `c` is a CJK symbol or punctuation mark, a half-width or katakana mark, a
/// full-width punctuation mark, or a full-width currency symbol.
pub open spec fn char_is_japanese_punctuation(c: char) -> bool {
    ||| char_in_range(c, 0x3000, 0x303F)
    ||| char_in_range(c, 0xFF61, 0xFF65)
    ||| char_in_range(c, 0x30FB, 0x30FC)
    ||| char_in_range(c, 0xFF01, 0xFF0F)
    ||| char_in_range(c, 0xFF1A, 0xFF1F)
    ||| char_in_range(c, 0xFF3B, 0xFF3F)
    ||| char_in_range(c, 0xFF5B, 0xFF60)
    ||| char_in_range(c, 0xFFE0, 0xFFEE)
}

/// Tests a character. Returns true if the character is considered Japanese
/// punctuation.
#[verifier::when_used_as_spec(char_is_japanese_punctuation)]
pub fn is_char_japanese_punctuation(c: char) -> (r: bool)
    ensures
        r == char_is_japanese_punctuation(c),
{
    is_char_in_range(c, 0x3000, 0x303F) || is_char_in_range(c, 0xFF61, 0xFF65)
        || is_char_in_range(c, 0x30FB, 0x30FC) || is_char_in_range(c, 0xFF01, 0xFF0F)
        || is_char_in_range(c, 0xFF1A, 0xFF1F) || is_char_in_range(c, 0xFF3B, 0xFF3F)
        || is_char_in_range(c, 0xFF5B, 0xFF60) || is_char_in_range(c, 0xFFE0, 0xFFEE)
}

} // verus!
