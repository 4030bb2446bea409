use kana_ukrainian::is_kanji::{contains_kanji, is_kanji};

#[test]
fn is_kanji_sane_defaults() {
    assert_eq!(is_kanji(""), false);
    assert_eq!(contains_kanji(""), false);
}

#[test]
fn ikioi_contains_kanji() {
    assert_eq!(contains_kanji("勢い"), true);
}

#[test]
fn hello_contains_not_kanji() {
    assert_eq!(contains_kanji("hello"), false);
}

#[test]
fn seppuku_is_kanji() {
    assert_eq!(is_kanji("切腹"), true);
}

#[test]
fn katana_is_kanji() {
    assert_eq!(is_kanji("刀"), true);
}

#[test]
fn emoji_are_not_kanji() {
    assert_eq!(is_kanji("🐸"), false);
}

#[test]
fn hiragana_a_is_not_kanji() {
    assert_eq!(is_kanji("あ"), false);
}

#[test]
fn katakana_a_is_not_kanji() {
    assert_eq!(is_kanji("ア"), false);
}

#[test]
fn both_kana_a_is_not_kanji() {
    assert_eq!(is_kanji("あア"), false);
}

#[test]
fn a_is_not_kanji() {
    assert_eq!(is_kanji("A"), false);
}

#[test]
fn kana_around_latin_a_is_not_kanji() {
    assert_eq!(is_kanji("あAア"), false);
}

#[test]
fn number_with_kanj_is_not_kanji1() {
    assert_eq!(is_kanji("１２隻"), false);
}

#[test]
fn number_with_kanj_is_not_kanji2() {
    assert_eq!(is_kanji("12隻"), false);
}

#[test]
fn kanji_with_dot_is_not_kanji() {
    assert_eq!(is_kanji("隻。"), false);
}

#[test]
fn kanji_after_other_text_is_contained() {
    assert_eq!(contains_kanji("12隻"), true);
    assert_eq!(contains_kanji("隻。"), true);
}

#[test]
fn kanji_range_is_closed_at_both_ends() {
    assert_eq!(is_kanji("\u{4E00}\u{9FAF}"), true);
    assert_eq!(is_kanji("\u{4DFF}"), false);
    assert_eq!(is_kanji("\u{9FB0}"), false);
    assert_eq!(contains_kanji("\u{4DFF}\u{9FB0}"), false);
}
