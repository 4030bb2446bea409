//! Transliteration of Japanese kana into Ukrainian Cyrillic.
//!
//! The engine matches the longest run of kana that a lookup tree knows,
//! renders it, and passes every other character through unchanged. Around the
//! tree stand a scan that settles how an `い` after a vowel is read, a
//! normaliser that folds katakana onto hiragana, and a final substitution.
//! Every function is verified against a contract over sequences of
//! characters and over the tree's view as a map from paths to renderings.

pub mod constants;
pub mod is_kanji;
pub mod is_mixed;
pub mod node_tree;
pub mod options;
pub mod text;
pub mod to_ukrainian;
pub mod to_ukrainian_node_tree;
pub mod utils;
