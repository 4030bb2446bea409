//! Predicates on single characters, and the katakana normaliser.

pub mod is_char_english_punctuation;
pub mod is_char_hiragana;
pub mod is_char_in_range;
pub mod is_char_japanese_punctuation;
pub mod is_char_kanji;
pub mod is_char_katakana;
pub mod is_char_long_dash;
pub mod is_char_punctuation;
pub mod is_char_romaji;
pub mod is_char_slash_dot;
pub mod is_char_upper_case;
pub mod katakana_to_hiragana;
