use kana_ukrainian::utils::katakana_to_hiragana::{
    is_kana_as_symbol, katakana_to_hiragana, katakana_to_hiragana_chars,
    katakana_to_hiragana_with_opt, long_vowel, to_hiragana,
};

#[test]
fn katakana_becomes_hiragana() {
    assert_eq!(katakana_to_hiragana("カタカナ"), "かたかな");
    assert_eq!(katakana_to_hiragana_with_opt("カタカナ", true), "かたかな");
    assert_eq!(to_hiragana('ア'), 'あ');
    assert_eq!(to_hiragana('ァ'), 'ぁ');
    assert_eq!(to_hiragana('ヴ'), 'ゔ');
}

#[test]
fn other_characters_stay() {
    assert_eq!(katakana_to_hiragana("ひらがな abc 漢字 123"), "ひらがな abc 漢字 123");
    assert_eq!(katakana_to_hiragana(""), "");
}

#[test]
fn dot_and_symbol_kana_stay() {
    assert_eq!(katakana_to_hiragana("ア・イ"), "あ・い");
    assert_eq!(katakana_to_hiragana("ヶヵ"), "ヶヵ");
    assert!(is_kana_as_symbol('ヶ'));
    assert!(is_kana_as_symbol('ヵ'));
    assert!(!is_kana_as_symbol('ケ'));
}

#[test]
fn long_dash_is_preserved_where_asked() {
    assert_eq!(katakana_to_hiragana_with_opt("スーパー", true), "すーぱー");
    assert_eq!(katakana_to_hiragana_with_opt("ばつげーむ", true), "ばつげーむ");
}

#[test]
fn long_dash_after_katakana_is_written_out_otherwise() {
    assert_eq!(katakana_to_hiragana("スーパー"), "すうぱあ");
    assert_eq!(katakana_to_hiragana("ゲーム"), "げえむ");
    assert_eq!(katakana_to_hiragana("コーヒー"), "こうひい");
    assert_eq!(katakana_to_hiragana_with_opt("コーヒー", false), "こうひい");
}

#[test]
fn long_dash_with_nothing_to_lengthen_stays() {
    assert_eq!(katakana_to_hiragana("ーア"), "ーあ");
    assert_eq!(katakana_to_hiragana("ばつげーむ"), "ばつげーむ");
    assert_eq!(katakana_to_hiragana("ンー"), "んー");
    assert_eq!(katakana_to_hiragana("スaー"), "すaー");
}

#[test]
fn long_dash_looks_through_marks_before_it() {
    assert_eq!(katakana_to_hiragana("スーー"), "すうう");
    assert_eq!(katakana_to_hiragana("ス・ー"), "す・う");
}

#[test]
fn the_result_is_as_long_as_the_input() {
    for text in ["", "スーパー", "缶コーヒー", "ンー・ヶ", "abc"] {
        let input: Vec<char> = text.chars().collect();
        assert_eq!(katakana_to_hiragana_chars(&input, true).len(), input.len());
        assert_eq!(katakana_to_hiragana_chars(&input, false).len(), input.len());
    }
}

#[test]
fn long_vowel_of_each_row() {
    assert_eq!(long_vowel('か'), Some('あ'));
    assert_eq!(long_vowel('き'), Some('い'));
    assert_eq!(long_vowel('く'), Some('う'));
    assert_eq!(long_vowel('け'), Some('え'));
    assert_eq!(long_vowel('こ'), Some('う'));
    assert_eq!(long_vowel('ん'), None);
    assert_eq!(long_vowel('っ'), None);
    assert_eq!(long_vowel('a'), None);
}
