use vstd::prelude::*;
use crate::utils::is_char_in_range::{char_in_range, is_char_in_range};

verus! {

/// `c` is an ASCII punctuation mark or symbol, a space, or a curly quote.
pub open spec fn char_is_english_punctuation(c: char) -> bool {
    ||| char_in_range(c, 0x20, 0x2F)
    ||| char_in_range(c, 0x3A, 0x3F)
    ||| char_in_range(c, 0x5B, 0x60)
    ||| char_in_range(c, 0x7B, 0x7E)
    ||| char_in_range(c, 0x2018, 0x2019)
    ||| char_in_range(c, 0x201C, 0x201D)
}

/// Tests a character. Returns true if the character is considered English
/// punctuation.
#[verifier::when_used_as_spec(char_is_english_punctuation)]
pub fn is_char_english_punctuation(c: char) -> (r: bool)
    ensures
        r == char_is_english_punctuation(c),
{
    is_char_in_range(c, 0x20, 0x2F) || is_char_in_range(c, 0x3A, 0x3F)
        || is_char_in_range(c, 0x5B, 0x60) || is_char_in_range(c, 0x7B, 0x7E)
        || is_char_in_range(c, 0x2018, 0x2019) || is_char_in_range(c, 0x201C, 0x201D)
}

} // verus!
