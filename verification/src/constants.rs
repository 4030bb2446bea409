//! Code points that bound the scripts and marks the library tells apart.

use vstd::prelude::*;

verus! {

pub const HIRAGANA_START: u32 = 0x3041;

pub const HIRAGANA_END: u32 = 0x3096;

pub const KATAKANA_START: u32 = 0x30A1;

pub const KATAKANA_END: u32 = 0x30FC;

pub const KANJI_START: u32 = 0x4E00;

pub const KANJI_END: u32 = 0x9FAF;

/// `ー`, the mark that lengthens the vowel before it.
pub const PROLONGED_SOUND_MARK: u32 = 0x30FC;

/// `・`, the dot that separates words written in katakana.
pub const KANA_SLASH_DOT: u32 = 0x30FB;

pub const UPPERCASE_START: u32 = 0x41;

pub const UPPERCASE_END: u32 = 0x5A;

/// How far a katakana lies above the hiragana of the same sound.
pub const KATAKANA_SHIFT: u32 = 0x60;

} // verus!
