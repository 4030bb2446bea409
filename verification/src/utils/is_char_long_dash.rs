use vstd::prelude::*;
use crate::constants::PROLONGED_SOUND_MARK;

verus! {

/// `c` is `ー`.
pub open spec fn char_is_long_dash(c: char) -> bool {
    c as u32 == PROLONGED_SOUND_MARK
}

/// Tests if a character is the prolonged sound mark `ー`.
#[verifier::when_used_as_spec(char_is_long_dash)]
pub fn is_char_long_dash(c: char) -> (r: bool)
    ensures
        r == char_is_long_dash(c),
{
    c as u32 == PROLONGED_SOUND_MARK
}

} // verus!
