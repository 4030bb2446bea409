use vstd::prelude::*;
use crate::constants::{UPPERCASE_END, UPPERCASE_START};
use crate::utils::is_char_in_range::{char_in_range, is_char_in_range};

verus! {

/// `c` is one of the Latin capitals `A` to `Z`.
pub open spec fn char_is_upper_case(c: char) -> bool {
    char_in_range(c, UPPERCASE_START, UPPERCASE_END)
}

/// Tests if a character is in the English uppercase range.
#[verifier::when_used_as_spec(char_is_upper_case)]
pub fn is_char_upper_case(c: char) -> (r: bool)
    ensures
        r == char_is_upper_case(c),
{
    is_char_in_range(c, UPPERCASE_START, UPPERCASE_END)
}

} // verus!
