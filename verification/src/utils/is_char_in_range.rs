use vstd::prelude::*;

verus! {

/// `c`'s code point lies between `start` and `end`, both included.
pub open spec fn char_in_range(c: char, start: u32, end: u32) -> bool {
    start <= c as u32 <= end
}

/// Tests whether `c`'s code point lies between `start` and `end`, both
/// included.
pub fn is_char_in_range(c: char, start: u32, end: u32) -> (r: bool)
    ensures
        r == char_in_range(c, start, end),
{
    let code: u32 = c as u32;
    start <= code && code <= end
}

} // verus!
