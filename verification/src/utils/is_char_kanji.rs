use vstd::prelude::*;
use crate::constants::{KANJI_END, KANJI_START};
use crate::utils::is_char_in_range::{char_in_range, is_char_in_range};

verus! {

/// `c` is a CJK unified ideograph in common Japanese use.
pub open spec fn char_is_kanji(c: char) -> bool {
    char_in_range(c, KANJI_START, KANJI_END)
}

/// Tests a character. Returns true if the character is a kanji.
#[verifier::when_used_as_spec(char_is_kanji)]
pub fn is_char_kanji(c: char) -> (r: bool)
    ensures
        r == char_is_kanji(c),
{
    is_char_in_range(c, KANJI_START, KANJI_END)
}

} // verus!
