use vstd::prelude::*;

verus! {

/// What a caller may ask of a transliteration.
#[derive(Clone, Copy, Debug)]
pub struct Options {
    /// Write a run in capitals where every character it stands for is
    /// katakana.
    pub upcase_katakana: bool,
}

impl Default for Options {
    /// Asks for nothing: katakana is written in small letters like hiragana.
    fn default() -> (options: Options)
        ensures
            !options.upcase_katakana,
    {
        Options { upcase_katakana: false }
    }
}

} // verus!
