use vstd::prelude::*;
use crate::utils::is_char_english_punctuation::{
    char_is_english_punctuation, is_char_english_punctuation,
};
use crate::utils::is_char_japanese_punctuation::{
    char_is_japanese_punctuation, is_char_japanese_punctuation,
};

verus! {

/// `c` is punctuation of either script.
pub open spec fn char_is_punctuation(c: char) -> bool {
    char_is_english_punctuation(c) || char_is_japanese_punctuation(c)
}

/// Tests a character. Returns true if the character is considered Japanese
/// or English punctuation.
#[verifier::when_used_as_spec(char_is_punctuation)]
pub fn is_char_punctuation(c: char) -> (r: bool)
    ensures
        r == char_is_punctuation(c),
{
    is_char_english_punctuation(c) || is_char_japanese_punctuation(c)
}

} // verus!
