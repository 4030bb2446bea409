use vstd::prelude::*;
use crate::constants::{HIRAGANA_END, HIRAGANA_START};
use crate::utils::is_char_in_range::{char_in_range, is_char_in_range};
use crate::utils::is_char_long_dash::{char_is_long_dash, is_char_long_dash};

verus! {

/// `c` lies in the hiragana block, from `ぁ` to `ゖ`, or is the prolonged
/// sound mark, which hiragana text borrows.
pub open spec fn char_is_hiragana(c: char) -> bool {
    char_is_long_dash(c) || char_in_range(c, HIRAGANA_START, HIRAGANA_END)
}

/// Tests a character. Returns true if the character is hiragana.
#[verifier::when_used_as_spec(char_is_hiragana)]
pub fn is_char_hiragana(c: char) -> (r: bool)
    ensures
        r == char_is_hiragana(c),
{
    if is_char_long_dash(c) {
        return true;
    }
    is_char_in_range(c, HIRAGANA_START, HIRAGANA_END)
}

} // verus!
