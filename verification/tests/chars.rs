use kana_ukrainian::text::{chars_of, extend_with_str, str_contains, string_of};
use kana_ukrainian::utils::is_char_english_punctuation::is_char_english_punctuation;
use kana_ukrainian::utils::is_char_hiragana::is_char_hiragana;
use kana_ukrainian::utils::is_char_in_range::is_char_in_range;
use kana_ukrainian::utils::is_char_japanese_punctuation::is_char_japanese_punctuation;
use kana_ukrainian::utils::is_char_kanji::is_char_kanji;
use kana_ukrainian::utils::is_char_katakana::is_char_katakana;
use kana_ukrainian::utils::is_char_long_dash::is_char_long_dash;
use kana_ukrainian::utils::is_char_punctuation::is_char_punctuation;
use kana_ukrainian::utils::is_char_romaji::is_char_romaji;
use kana_ukrainian::utils::is_char_slash_dot::is_char_slash_dot;
use kana_ukrainian::utils::is_char_upper_case::is_char_upper_case;

#[test]
fn range_is_closed_at_both_ends() {
    assert!(is_char_in_range('b', 0x62, 0x62));
    assert!(is_char_in_range('b', 0x61, 0x63));
    assert!(!is_char_in_range('a', 0x62, 0x63));
    assert!(!is_char_in_range('d', 0x62, 0x63));
    assert!(!is_char_in_range('b', 0x63, 0x61));
}

#[test]
fn katakana_block() {
    assert!(is_char_katakana('ァ'));
    assert!(is_char_katakana('ナ'));
    assert!(is_char_katakana('・'));
    assert!(is_char_katakana('ー'));
    assert!(!is_char_katakana('\u{30A0}'));
    assert!(!is_char_katakana('\u{30FD}'));
    assert!(!is_char_katakana('な'));
    assert!(!is_char_katakana('n'));
}

#[test]
fn hiragana_block_and_long_dash() {
    assert!(is_char_hiragana('ぁ'));
    assert!(is_char_hiragana('な'));
    assert!(is_char_hiragana('ゖ'));
    assert!(is_char_hiragana('ー'));
    assert!(!is_char_hiragana('\u{3040}'));
    assert!(!is_char_hiragana('\u{3097}'));
    assert!(!is_char_hiragana('ナ'));
}

#[test]
fn kanji_block() {
    assert!(is_char_kanji('一'));
    assert!(is_char_kanji('腹'));
    assert!(!is_char_kanji('ー'));
    assert!(!is_char_kanji('あ'));
    assert!(!is_char_kanji('。'));
}

#[test]
fn romaji_ranges() {
    assert!(is_char_romaji('a'));
    assert!(is_char_romaji('Z'));
    assert!(is_char_romaji('1'));
    assert!(is_char_romaji(' '));
    assert!(is_char_romaji('ā'));
    assert!(is_char_romaji('Ū'));
    assert!(!is_char_romaji('é'));
    assert!(!is_char_romaji('２'));
    assert!(!is_char_romaji('あ'));
}

#[test]
fn punctuation_of_both_scripts() {
    assert!(is_char_english_punctuation('!'));
    assert!(is_char_english_punctuation('~'));
    assert!(is_char_english_punctuation('’'));
    assert!(!is_char_english_punctuation('a'));
    assert!(!is_char_english_punctuation('0'));
    assert!(is_char_japanese_punctuation('。'));
    assert!(is_char_japanese_punctuation('・'));
    assert!(is_char_japanese_punctuation('！'));
    assert!(is_char_japanese_punctuation('￥'));
    assert!(!is_char_japanese_punctuation('あ'));
    assert!(is_char_punctuation('!'));
    assert!(is_char_punctuation('「'));
    assert!(!is_char_punctuation('a'));
    assert!(!is_char_punctuation('あ'));
    assert!(!is_char_punctuation('腹'));
}

#[test]
fn marks_and_capitals() {
    assert!(is_char_slash_dot('・'));
    assert!(!is_char_slash_dot('.'));
    assert!(!is_char_slash_dot('ー'));
    assert!(is_char_long_dash('ー'));
    assert!(!is_char_long_dash('一'));
    assert!(!is_char_long_dash('-'));
    assert!(is_char_upper_case('A'));
    assert!(is_char_upper_case('Z'));
    assert!(!is_char_upper_case('a'));
    assert!(!is_char_upper_case('@'));
    assert!(!is_char_upper_case('['));
    assert!(!is_char_upper_case('Я'));
}

#[test]
fn strings_and_characters() {
    assert_eq!(chars_of("aあ🐸"), vec!['a', 'あ', '🐸']);
    assert_eq!(chars_of(""), Vec::<char>::new());
    assert_eq!(string_of(&['a', 'あ', '🐸']), "aあ🐸");
    assert_eq!(string_of(&[]), "");
    assert!(str_contains("abc", 'c'));
    assert!(!str_contains("abc", 'd'));
    assert!(!str_contains("", 'a'));
    let mut out = vec!['x'];
    extend_with_str(&mut out, "yz");
    extend_with_str(&mut out, "");
    assert_eq!(out, vec!['x', 'y', 'z']);
}
