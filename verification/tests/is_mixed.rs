use kana_ukrainian::is_mixed::{is_mixed, is_mixed_pass_kanji};

#[test]
fn is_mixed_sane_defaults() {
    assert_eq!(is_mixed(""), false);
}

#[test]
fn latin_a_with_katakana_is_mixed() {
    assert_eq!(is_mixed("Aア"), true);
}

#[test]
fn latin_a_with_hiragana_is_mixed() {
    assert_eq!(is_mixed("Aあ"), true);
}

#[test]
fn latin_a_with_both_kana_is_mixed() {
    assert_eq!(is_mixed("Aあア"), true);
}

#[test]
fn number_2_with_kana_is_not_mixed() {
    assert_eq!(is_mixed("２あア"), false);
}

#[test]
fn kana_kanji_and_latin_a_is_mixed() {
    assert_eq!(is_mixed("お腹A"), true);
}

#[test]
fn kana_kanji_and_latin_a_is_not_mixed_when_pass_kanji_false() {
    assert_eq!(is_mixed_pass_kanji("お腹A", false), false);
}

#[test]
fn kana_and_kanji_is_not_mixed() {
    assert_eq!(is_mixed("お腹"), false);
}

#[test]
fn kanji_is_not_mixed() {
    assert_eq!(is_mixed("腹"), false);
}

#[test]
fn a_is_not_mixed() {
    assert_eq!(is_mixed("A"), false);
}

#[test]
fn hiragana_a_is_not_mixed() {
    assert_eq!(is_mixed("あ"), false);
}

#[test]
fn katakana_a_is_not_mixed() {
    assert_eq!(is_mixed("ア"), false);
}

#[test]
fn kana_and_latin_without_kanji_is_mixed_either_way() {
    assert_eq!(is_mixed_pass_kanji("Aあ", false), true);
    assert_eq!(is_mixed_pass_kanji("Aあ", true), true);
}

#[test]
fn long_dash_counts_as_kana() {
    assert_eq!(is_mixed("aー"), true);
}

#[test]
fn macron_vowel_counts_as_romaji() {
    assert_eq!(is_mixed("ōあ"), true);
    assert_eq!(is_mixed("éあ"), false);
}
