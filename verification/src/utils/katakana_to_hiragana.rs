//! The normaliser: katakana is rewritten as the hiragana of the same sound,
//! character for character, so that an index into the result is an index
//! into the input.

use vstd::prelude::*;
use crate::constants::KATAKANA_SHIFT;
use crate::text::{chars_of, str_contains, string_of};
use crate::utils::is_char_katakana::{char_is_katakana, is_char_katakana};
use crate::utils::is_char_long_dash::{char_is_long_dash, is_char_long_dash};
use crate::utils::is_char_slash_dot::{char_is_slash_dot, is_char_slash_dot};

verus! {

/// The hiragana that end in the vowel `a`.
pub const A_SOUNDS: &'static str = "ぁあかがさざただなはばぱまゃやらゎわ";

/// The hiragana that end in the vowel `i`.
pub const I_SOUNDS: &'static str = "ぃいきぎしじちぢにひびぴみりゐ";

/// The hiragana that end in the vowel `u`.
pub const U_SOUNDS: &'static str = "ぅうくぐすずつづぬふぶぷむゅゆるゔ";

/// The hiragana that end in the vowel `e`.
pub const E_SOUNDS: &'static str = "ぇえけげせぜてでねへべぺめれゑ";

/// The hiragana that end in the vowel `o`.
pub const O_SOUNDS: &'static str = "ぉおこごそぞとどのほぼぽもょよろを";

/// `c` is one of the two small katakana that are written as symbols, `ヵ`
/// and `ヶ`.
pub open spec fn char_is_kana_as_symbol(c: char) -> bool {
    c == 'ヵ' || c == 'ヶ'
}

/// `c` is a katakana that has a hiragana of the same sound: any but the
/// prolonged sound mark, the dot and the two symbols.
pub open spec fn has_hiragana(c: char) -> bool {
    &&& char_is_katakana(c)
    &&& !char_is_long_dash(c)
    &&& !char_is_slash_dot(c)
    &&& !char_is_kana_as_symbol(c)
}

/// The hiragana of the same sound as the katakana `c`.
pub open spec fn hiragana_of(c: char) -> char {
    ((c as u32) - KATAKANA_SHIFT) as char
}

/// The hiragana that writes the lengthening of `kana`'s vowel. A long `o` is
/// written with `う`. A kana without a vowel has none.
pub open spec fn long_vowel_of(kana: char) -> Option<char> {
    if A_SOUNDS@.contains(kana) {
        Some('あ')
    } else if I_SOUNDS@.contains(kana) {
        Some('い')
    } else if U_SOUNDS@.contains(kana) {
        Some('う')
    } else if E_SOUNDS@.contains(kana) {
        Some('え')
    } else if O_SOUNDS@.contains(kana) {
        Some('う')
    } else {
        None
    }
}

/// The kana that a prolonged sound mark at index `i` of `s` lengthens: the
/// hiragana of the katakana before it. Marks, dots and symbols in between
/// are looked through; any other character in between leaves the mark with
/// nothing to lengthen.
pub open spec fn lengthened_kana(s: Seq<char>, i: int) -> Option<char>
    decreases i,
{
    if i <= 0 || i > s.len() {
        None
    } else if has_hiragana(s[i - 1]) {
        Some(hiragana_of(s[i - 1]))
    } else if char_is_katakana(s[i - 1]) {
        lengthened_kana(s, i - 1)
    } else {
        None
    }
}

/// What stands at index `i` once `s` is normalised.
pub open spec fn normalized_at(s: Seq<char>, i: int, preserve_long_vowel_marker: bool) -> char {
    if has_hiragana(s[i]) {
        hiragana_of(s[i])
    } else if char_is_long_dash(s[i]) && !preserve_long_vowel_marker {
        match lengthened_kana(s, i) {
            Some(kana) => match long_vowel_of(kana) {
                Some(vowel) => vowel,
                None => s[i],
            },
            None => s[i],
        }
    } else {
        s[i]
    }
}

/// `s` with each katakana rewritten as its hiragana. The prolonged sound
/// mark stays where it is asked to be preserved; otherwise one that follows a
/// katakana with a vowel becomes the hiragana that lengthens that vowel. All
/// else stays, so the result is as long as `s`.
pub open spec fn normalized(s: Seq<char>, preserve_long_vowel_marker: bool) -> Seq<char> {
    Seq::new(s.len(), |i: int| normalized_at(s, i, preserve_long_vowel_marker))
}

/// Tests if a character is `ヵ` or `ヶ`.
#[verifier::when_used_as_spec(char_is_kana_as_symbol)]
pub fn is_kana_as_symbol(c: char) -> (r: bool)
    ensures
        r == char_is_kana_as_symbol(c),
{
    c == 'ヵ' || c == 'ヶ'
}

/// Computes the hiragana that writes the lengthening of `kana`'s vowel.
pub fn long_vowel(kana: char) -> (r: Option<char>)
    ensures
        r == long_vowel_of(kana),
{
    if str_contains(A_SOUNDS, kana) {
        Some('あ')
    } else if str_contains(I_SOUNDS, kana) {
        Some('い')
    } else if str_contains(U_SOUNDS, kana) {
        Some('う')
    } else if str_contains(E_SOUNDS, kana) {
        Some('え')
    } else if str_contains(O_SOUNDS, kana) {
        Some('う')
    } else {
        None
    }
}

/// Rewrites a katakana as the hiragana of the same sound. A character
/// that has none comes back as it is.
pub fn to_hiragana(c: char) -> (r: char)
    ensures
        r == (if has_hiragana(c) {
            hiragana_of(c)
        } else {
            c
        }),
{
    if !is_char_katakana(c) || is_char_long_dash(c) || is_char_slash_dot(c) || is_kana_as_symbol(c) {
        return c;
    }
    let code: u32 = c as u32 - KATAKANA_SHIFT;
    match char::from_u32(code) {
        Some(hiragana) => hiragana,
        None => c,
    }
}

/// Normalises a text given as characters.
pub fn katakana_to_hiragana_chars(input: &[char], preserve_long_vowel_marker: bool) -> (r: Vec<
    char,
>)
    ensures
        r@ == normalized(input@, preserve_long_vowel_marker),
        r@.len() == input@.len(),
{
    let mut hira: Vec<char> = Vec::new();
    let mut previous_kana: Option<char> = None;
    let mut i: usize = 0;
    while i < input.len()
        invariant
            i <= input@.len(),
            previous_kana == lengthened_kana(input@, i as int),
            hira@ == normalized(input@, preserve_long_vowel_marker).take(i as int),
        decreases input@.len() - i,
    {
        let c: char = input[i];
        let ghost whole = normalized(input@, preserve_long_vowel_marker);
        if is_char_long_dash(c) {
            let vowel = match previous_kana {
                Some(kana) if !preserve_long_vowel_marker => long_vowel(kana),
                _ => None,
            };
            match vowel {
                Some(vowel) => hira.push(vowel),
                None => hira.push(c),
            }
        } else if is_char_katakana(c) && !is_char_slash_dot(c) && !is_kana_as_symbol(c) {
            let hira_char = to_hiragana(c);
            hira.push(hira_char);
            previous_kana = Some(hira_char);
        } else {
            hira.push(c);
            if !is_char_katakana(c) {
                previous_kana = None;
            }
        }
        proof {
            assert(whole.take(i as int).push(whole[i as int]) =~= whole.take(i + 1));
        }
        i += 1;
    }
    proof {
        let whole = normalized(input@, preserve_long_vowel_marker);
        assert(whole.take(input@.len() as int) =~= whole);
    }
    hira
}

/// Converts katakana to hiragana and passes every other character through.
/// A prolonged sound mark stays if `preserve_long_vowel_marker` says so, and
/// is otherwise written out as the vowel it lengthens.
pub fn katakana_to_hiragana_with_opt(input: &str, preserve_long_vowel_marker: bool) -> (r: String)
    ensures
        r@ == normalized(input@, preserve_long_vowel_marker),
{
    let chars = chars_of(input);
    let hira = katakana_to_hiragana_chars(chars.as_slice(), preserve_long_vowel_marker);
    string_of(hira.as_slice())
}

/// Converts katakana to hiragana, writing long vowels out, and passes every
/// other character through.
pub fn katakana_to_hiragana(input: &str) -> (r: String)
    ensures
        r@ == normalized(input@, false),
{
    katakana_to_hiragana_with_opt(input, false)
}

} // verus!
