use vstd::prelude::*;
use crate::constants::KANA_SLASH_DOT;

verus! {

/// `c` is `・`.
pub open spec fn char_is_slash_dot(c: char) -> bool {
    c as u32 == KANA_SLASH_DOT
}

/// Tests if a character is `・`.
#[verifier::when_used_as_spec(char_is_slash_dot)]
pub fn is_char_slash_dot(c: char) -> (r: bool)
    ensures
        r == char_is_slash_dot(c),
{
    c as u32 == KANA_SLASH_DOT
}

} // verus!
