use vstd::prelude::*;
use crate::constants::{KATAKANA_END, KATAKANA_START};
use crate::utils::is_char_in_range::{char_in_range, is_char_in_range};

verus! {

/// `c` lies in the katakana block, from `ァ` to `ー`.
pub open spec fn char_is_katakana(c: char) -> bool {
    char_in_range(c, KATAKANA_START, KATAKANA_END)
}

/// Tests a character. Returns true if the character is katakana.
#[verifier::when_used_as_spec(char_is_katakana)]
pub fn is_char_katakana(c: char) -> (r: bool)
    ensures
        r == char_is_katakana(c),
{
    is_char_in_range(c, KATAKANA_START, KATAKANA_END)
}

} // verus!
