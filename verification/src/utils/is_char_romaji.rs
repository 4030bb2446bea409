use vstd::prelude::*;
use crate::utils::is_char_in_range::{char_in_range, is_char_in_range};

verus! {

/// `c` is ASCII, or one of the vowels with a macron that Hepburn
/// romanisation writes: `Ā ā Ē ē Ī ī Ō ō Ū ū`.
pub open spec fn char_is_romaji(c: char) -> bool {
    ||| char_in_range(c, 0x0000, 0x007F)
    ||| char_in_range(c, 0x0100, 0x0101)
    ||| char_in_range(c, 0x0112, 0x0113)
    ||| char_in_range(c, 0x012A, 0x012B)
    ||| char_in_range(c, 0x014C, 0x014D)
    ||| char_in_range(c, 0x016A, 0x016B)
}

/// Tests a character. Returns true if the character is romaji.
#[verifier::when_used_as_spec(char_is_romaji)]
pub fn is_char_romaji(c: char) -> (r: bool)
    ensures
        r == char_is_romaji(c),
{
    is_char_in_range(c, 0x0000, 0x007F) || is_char_in_range(c, 0x0100, 0x0101)
        || is_char_in_range(c, 0x0112, 0x0113) || is_char_in_range(c, 0x012A, 0x012B)
        || is_char_in_range(c, 0x014C, 0x014D) || is_char_in_range(c, 0x016A, 0x016B)
}

} // verus!
