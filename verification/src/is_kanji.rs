use vstd::prelude::*;
use crate::utils::is_char_kanji::{char_is_kanji, is_char_kanji};

verus! {

/// `s` is not empty and holds kanji only.
pub open spec fn text_is_kanji(s: Seq<char>) -> bool {
    s.len() > 0 && forall|i: int| 0 <= i < s.len() ==> char_is_kanji(#[trigger] s[i])
}

/// `s` holds a kanji.
pub open spec fn text_contains_kanji(s: Seq<char>) -> bool {
    exists|i: int| 0 <= i < s.len() && char_is_kanji(#[trigger] s[i])
}

/// Tests if all characters of `input` are kanji. The empty text is not.
pub fn is_kanji(input: &str) -> (r: bool)
    ensures
        r == text_is_kanji(input@),
{
    if input.is_empty() {
        return false;
    }
    for c in it: input.chars()
        invariant
            it.seq() == input@,
            forall|i: int| 0 <= i < it.index() ==> char_is_kanji(#[trigger] input@[i]),
    {
        if !is_char_kanji(c) {
            return false;
        }
    }
    true
}

/// Tests if any character of `input` is a kanji.
pub fn contains_kanji(input: &str) -> (r: bool)
    ensures
        r == text_contains_kanji(input@),
{
    if input.is_empty() {
        return false;
    }
    for c in it: input.chars()
        invariant
            it.seq() == input@,
            forall|i: int| 0 <= i < it.index() ==> !char_is_kanji(#[trigger] input@[i]),
    {
        if is_char_kanji(c) {
            return true;
        }
    }
    false
}

} // verus!
