use vstd::prelude::*;
use crate::is_kanji::text_contains_kanji;
use crate::utils::is_char_hiragana::{char_is_hiragana, is_char_hiragana};
use crate::utils::is_char_kanji::{char_is_kanji, is_char_kanji};
use crate::utils::is_char_katakana::{char_is_katakana, is_char_katakana};
use crate::utils::is_char_romaji::{char_is_romaji, is_char_romaji};

verus! {

/// `s` holds a kana, of either script.
pub open spec fn text_contains_kana(s: Seq<char>) -> bool {
    exists|i: int|
        0 <= i < s.len() && (char_is_hiragana(#[trigger] s[i]) || char_is_katakana(s[i]))
}

/// `s` holds a romaji character.
pub open spec fn text_contains_romaji(s: Seq<char>) -> bool {
    exists|i: int| 0 <= i < s.len() && char_is_romaji(#[trigger] s[i])
}

/// `s` holds both kana and romaji, and no kanji unless kanji is passed over.
pub open spec fn text_is_mixed(s: Seq<char>, pass_kanji: bool) -> bool {
    &&& text_contains_kana(s)
    &&& text_contains_romaji(s)
    &&& (pass_kanji || !text_contains_kanji(s))
}

/// Tests if `input` contains a mix of romaji and kana. Kanji is ignored.
pub fn is_mixed(input: &str) -> (r: bool)
    ensures
        r == text_is_mixed(input@, true),
{
    is_mixed_pass_kanji(input, true)
}

/// Tests if `input` contains a mix of romaji and kana. Where `pass_kanji` is
/// false, a text with a kanji in it is not mixed.
pub fn is_mixed_pass_kanji(input: &str, pass_kanji: bool) -> (r: bool)
    ensures
        r == text_is_mixed(input@, pass_kanji),
{
    let mut has_kana = false;
    let mut has_romaji = false;
    let mut has_kanji = false;
    for c in it: input.chars()
        invariant
            it.seq() == input@,
            has_kana == text_contains_kana(input@.take(it.index())),
            has_romaji == text_contains_romaji(input@.take(it.index())),
            has_kanji == text_contains_kanji(input@.take(it.index())),
    {
        let ghost seen = input@.take(it.index());
        let ghost more = input@.take(it.index() + 1);
        proof {
            assert(more[it.index()] == c);
            assert forall|i: int| 0 <= i < seen.len() implies seen[i] == more[i] by {}
            if text_contains_kana(more) {
                let i = choose|i: int|
                    0 <= i < more.len() && (char_is_hiragana(#[trigger] more[i])
                        || char_is_katakana(more[i]));
                if i < seen.len() {
                    assert(seen[i] == more[i]);
                }
            }
            if text_contains_romaji(more) {
                let i = choose|i: int| 0 <= i < more.len() && char_is_romaji(#[trigger] more[i]);
                if i < seen.len() {
                    assert(seen[i] == more[i]);
                }
            }
            if text_contains_kanji(more) {
                let i = choose|i: int| 0 <= i < more.len() && char_is_kanji(#[trigger] more[i]);
                if i < seen.len() {
                    assert(seen[i] == more[i]);
                }
            }
            if text_contains_kana(seen) {
                let i = choose|i: int|
                    0 <= i < seen.len() && (char_is_hiragana(#[trigger] seen[i])
                        || char_is_katakana(seen[i]));
                assert(seen[i] == more[i]);
            }
            if text_contains_romaji(seen) {
                let i = choose|i: int| 0 <= i < seen.len() && char_is_romaji(#[trigger] seen[i]);
                assert(seen[i] == more[i]);
            }
            if text_contains_kanji(seen) {
                let i = choose|i: int| 0 <= i < seen.len() && char_is_kanji(#[trigger] seen[i]);
                assert(seen[i] == more[i]);
            }
        }
        if is_char_hiragana(c) || is_char_katakana(c) {
            has_kana = true;
        }
        if is_char_romaji(c) {
            has_romaji = true;
        }
        if is_char_kanji(c) {
            has_kanji = true;
        }
    }
    proof {
        assert(input@.take(input@.len() as int) =~= input@);
    }
    has_kana && has_romaji && (pass_kanji || !has_kanji)
}

} // verus!
