//! Kana to Ukrainian Cyrillic.
//!
//! A text goes through four passes.
//!
//! 1. The glides are read. After a kana that ends in a vowel, `い` is the
//!    short `й`; where the writer has set the marker `_` between the two, it
//!    is the syllable `ї`, and `їє` with an `え` behind it. The markers are
//!    then dropped, those that marked nothing too.
//! 2. Katakana is rewritten as hiragana, index for index. The prolonged sound
//!    mark `ー` is left as it is, after katakana as after hiragana; the table
//!    writes it `-`.
//! 3. The lookup tree is walked over the hiragana. At each index the longest
//!    run that the tree holds is written as the table renders it, in capitals
//!    where the caller asks for them and the run was katakana from end to
//!    end; a character that begins no run is written as it is.
//! 4. `іе` is mended to `іє`: it arises where one run ends in `і` and the next
//!    begins with `е`.

use vstd::prelude::*;
use crate::node_tree::{
    lemma_longest_match_is_maximal, lemma_table_of_is_prefix_closed, longest_match, prefix_closed,
    Node, Table,
};
use crate::options::Options;
use crate::text::{chars_of, extend_with_str, str_contains, string_of, uppercase_of};
use crate::to_ukrainian_node_tree::{ukrainian_table, ukrainian_tree, UKRAINIAN_TABLE};
use crate::utils::is_char_katakana::{char_is_katakana, is_char_katakana};
use crate::utils::katakana_to_hiragana::{has_hiragana, katakana_to_hiragana_chars, normalized};

verus! {

/// The kana that end in a vowel, hiragana and katakana row by row.
pub const VOWEL_ENDINGS: &'static str = "あかさたなはまやらわがざだばぱ\
    アカサタナハマヤラワガザダバパ\
    いきしちにひみりぎじぢびぴ\
    イキシチニヒミリギジヂビピ\
    うくすつぬふむゆるぐずづぶぷ\
    ウクスツヌフムユルグズヅブプ\
    えけせてねへめれげぜでべぺ\
    エケセテネヘメレゲゼデベペ\
    おこそとのほもよろをごぞどぼぽ\
    オコソトノホモヨロヲゴゾドボポ";

/// The marker that a writer sets between a vowel and an `い` that is to be
/// read as a syllable of its own.
pub const MARKER: char = '_';

/// `c` is a kana that ends in a vowel.
pub open spec fn ends_in_vowel(c: char) -> bool {
    VOWEL_ENDINGS@.contains(c)
}

/// `c` is the kana `i`, in either script.
pub open spec fn char_is_kana_i(c: char) -> bool {
    c == 'い' || c == 'イ'
}

/// `c` is the kana `e`, in either script.
pub open spec fn char_is_kana_e(c: char) -> bool {
    c == 'え' || c == 'エ'
}

/// What the first pass writes for `s` from index `pos` on, where `last` is
/// the character at which the step before began.
///
/// After a kana that ends in a vowel, a marker followed by the kana `i` is
/// written `ї`, and `їє` where the kana `e` follows that; the kana `i`
/// without a marker is written `й`. Every other character is written as it
/// is, a marker that marks nothing too.
pub open spec fn glides_read(s: Seq<char>, pos: int, last: Option<char>) -> Seq<char>
    decreases s.len() - pos,
{
    if pos < 0 || pos >= s.len() {
        Seq::empty()
    } else {
        let c = s[pos];
        let after_vowel = last is Some && ends_in_vowel(last->0);
        if after_vowel && c == MARKER && pos + 1 < s.len() && char_is_kana_i(s[pos + 1]) {
            if pos + 2 < s.len() && char_is_kana_e(s[pos + 2]) {
                seq!['ї', 'є'] + glides_read(s, pos + 3, Some(c))
            } else {
                seq!['ї'] + glides_read(s, pos + 2, Some(c))
            }
        } else if after_vowel && char_is_kana_i(c) {
            seq!['й'] + glides_read(s, pos + 1, Some(c))
        } else {
            seq![c] + glides_read(s, pos + 1, Some(c))
        }
    }
}

/// Holds of every character but the marker.
pub open spec fn not_marker() -> spec_fn(char) -> bool {
    |c: char| c != MARKER
}

/// What the first pass makes of `s`: the glides read, the markers dropped.
pub open spec fn preprocessed(s: Seq<char>) -> Seq<char> {
    glides_read(s, 0, None).filter(not_marker())
}

/// Every character of `s` is katakana.
pub open spec fn all_katakana(s: Seq<char>) -> bool {
    forall|i: int| 0 <= i < s.len() ==> char_is_katakana(#[trigger] s[i])
}

/// How a run is written: in capitals where the caller asks for them and the
/// characters the run stands for are all katakana, else as the table has it.
pub open spec fn rendered(output: Seq<char>, source: Seq<char>, upcase: bool) -> Seq<char> {
    if upcase && all_katakana(source) {
        uppercase_of(output)
    } else {
        output
    }
}

/// How many characters the step at index `pos` of `kana` takes: those of
/// the longest run that `table` holds there, or the one character for which
/// it holds none.
pub open spec fn step_length(table: Table, kana: Seq<char>, pos: int) -> int {
    let n = longest_match(table, kana.skip(pos));
    if n == 0 {
        1
    } else {
        n as int
    }
}

/// What the step at index `pos` of `kana` writes: the rendering of the
/// longest run that `table` holds there, or the one character for which it
/// holds none, as it is. `orig` holds at each index the character that `kana`
/// had there before it was normalised.
pub open spec fn written_at(
    table: Table,
    orig: Seq<char>,
    kana: Seq<char>,
    pos: int,
    upcase: bool,
) -> Seq<char> {
    let n = longest_match(table, kana.skip(pos));
    if n == 0 {
        seq![kana[pos]]
    } else {
        rendered(table[kana.subrange(pos, pos + n)], orig.subrange(pos, pos + n), upcase)
    }
}

/// What the third pass writes for `kana` from index `pos` on: what the step
/// at `pos` writes, then what is written from behind that step on.
pub open spec fn emitted(
    table: Table,
    orig: Seq<char>,
    kana: Seq<char>,
    pos: int,
    upcase: bool,
) -> Seq<char>
    decreases kana.len() - pos,
{
    if pos < 0 || pos >= kana.len() {
        Seq::empty()
    } else {
        proof {
            lemma_step_advances(table, kana, pos);
        }
        written_at(table, orig, kana, pos, upcase) + emitted(
            table,
            orig,
            kana,
            pos + step_length(table, kana, pos),
            upcase,
        )
    }
}

/// `s` with `є` for each `е` that follows an `і`.
pub open spec fn iotated(s: Seq<char>) -> Seq<char> {
    Seq::new(
        s.len(),
        |j: int|
            if j > 0 && s[j - 1] == 'і' && s[j] == 'е' {
                'є'
            } else {
                s[j]
            },
    )
}

/// The transliteration of `input` by `table`.
pub open spec fn transliterated(table: Table, input: Seq<char>, upcase: bool) -> Seq<char> {
    let marked = preprocessed(input);
    iotated(emitted(table, marked, normalized(marked, true), 0, upcase))
}

/// Nothing comes of nothing: the transliteration of the empty text is empty.
pub proof fn lemma_empty_input(table: Table, upcase: bool)
    ensures
        transliterated(table, Seq::<char>::empty(), upcase) == Seq::<char>::empty(),
{
    let nothing = Seq::<char>::empty();
    assert(glides_read(nothing, 0, None) == nothing);
    assert(nothing.filter(not_marker()) =~= nothing) by {
        reveal(Seq::filter);
    }
    assert(normalized(nothing, true) =~= nothing);
    assert(emitted(table, nothing, nothing, 0, upcase) == nothing);
    assert(iotated(nothing) =~= nothing);
}

/// Every step of the third pass takes at least one character and no more
/// than are left, so the pass ends.
pub proof fn lemma_step_advances(table: Table, kana: Seq<char>, pos: int)
    requires
        0 <= pos < kana.len(),
    ensures
        1 <= step_length(table, kana, pos) <= kana.len() - pos,
{
    lemma_longest_match_is_maximal(table, kana.skip(pos));
}

/// A character for which the table holds no run is written as it is, alone,
/// and the pass goes on behind it.
pub proof fn lemma_unmapped_passes_through(
    table: Table,
    orig: Seq<char>,
    kana: Seq<char>,
    pos: int,
    upcase: bool,
)
    requires
        0 <= pos < kana.len(),
        longest_match(table, kana.skip(pos)) == 0,
    ensures
        written_at(table, orig, kana, pos, upcase) == seq![kana[pos]],
        step_length(table, kana, pos) == 1,
        emitted(table, orig, kana, pos, upcase) == seq![kana[pos]] + emitted(
            table,
            orig,
            kana,
            pos + 1,
            upcase,
        ),
{
}

/// A text in which no character begins a run of the table is written as it
/// is.
pub proof fn lemma_unmapped_text_is_unchanged(
    table: Table,
    orig: Seq<char>,
    kana: Seq<char>,
    pos: int,
    upcase: bool,
)
    requires
        0 <= pos <= kana.len(),
        prefix_closed(table),
        forall|i: int| pos <= i < kana.len() ==> !table.dom().contains(seq![#[trigger] kana[i]]),
    ensures
        emitted(table, orig, kana, pos, upcase) == kana.skip(pos),
    decreases kana.len() - pos,
{
    if pos < kana.len() {
        let rest = kana.skip(pos);
        lemma_longest_match_is_maximal(table, rest);
        let n = longest_match(table, rest);
        if n > 0 {
            assert(rest.take(n as int).take(1) =~= seq![kana[pos]]);
            assert(table.dom().contains(rest.take(n as int).take(1)));
        }
        lemma_unmapped_text_is_unchanged(table, orig, kana, pos + 1, upcase);
        assert(seq![kana[pos]] + kana.skip(pos + 1) =~= kana.skip(pos));
    } else {
        assert(kana.skip(pos) =~= Seq::<char>::empty());
    }
}

/// A run whose characters were not all katakana is written as the table has
/// it, whatever the caller asks; so is every run where the caller asks for
/// no capitals.
pub proof fn lemma_mixed_run_keeps_case(
    table: Table,
    orig: Seq<char>,
    kana: Seq<char>,
    pos: int,
    upcase: bool,
)
    requires
        longest_match(table, kana.skip(pos)) > 0,
        !upcase || !all_katakana(
            orig.subrange(pos, pos + longest_match(table, kana.skip(pos))),
        ),
    ensures
        written_at(table, orig, kana, pos, upcase) == table[kana.subrange(
            pos,
            pos + longest_match(table, kana.skip(pos)),
        )],
{
}

/// A text without katakana is written the same whether or not the caller
/// asks for capitals.
pub proof fn lemma_capitals_need_katakana(
    table: Table,
    orig: Seq<char>,
    kana: Seq<char>,
    pos: int,
)
    requires
        orig.len() == kana.len(),
        0 <= pos <= kana.len(),
        forall|i: int| pos <= i < orig.len() ==> !char_is_katakana(#[trigger] orig[i]),
    ensures
        emitted(table, orig, kana, pos, true) == emitted(table, orig, kana, pos, false),
    decreases kana.len() - pos,
{
    if pos < kana.len() {
        lemma_step_advances(table, kana, pos);
        let n = longest_match(table, kana.skip(pos));
        if n > 0 {
            let source = orig.subrange(pos, pos + n);
            assert(source[0] == orig[pos]);
            assert(!all_katakana(source));
        }
        lemma_capitals_need_katakana(table, orig, kana, pos + step_length(table, kana, pos));
    }
}

/// Reading the glides of a text without katakana brings none in.
proof fn lemma_glides_read_brings_no_katakana(s: Seq<char>, pos: int, last: Option<char>)
    requires
        0 <= pos <= s.len(),
        forall|i: int| pos <= i < s.len() ==> !char_is_katakana(#[trigger] s[i]),
    ensures
        forall|j: int|
            0 <= j < glides_read(s, pos, last).len() ==> !char_is_katakana(
                #[trigger] glides_read(s, pos, last)[j],
            ),
    decreases s.len() - pos,
{
    if pos < s.len() {
        let c = s[pos];
        let after_vowel = last is Some && ends_in_vowel(last->0);
        let whole = glides_read(s, pos, last);
        let taken: int = if after_vowel && c == MARKER && pos + 1 < s.len() && char_is_kana_i(
            s[pos + 1],
        ) {
            if pos + 2 < s.len() && char_is_kana_e(s[pos + 2]) {
                3
            } else {
                2
            }
        } else {
            1
        };
        let tail = glides_read(s, pos + taken, Some(c));
        let head_len = whole.len() - tail.len();
        lemma_glides_read_brings_no_katakana(s, pos + taken, Some(c));
        assert forall|j: int| 0 <= j < whole.len() implies !char_is_katakana(
            #[trigger] whole[j],
        ) by {
            if j >= head_len {
                assert(whole[j] == tail[j - head_len]);
            }
        }
    }
}

/// A text without katakana is transliterated the same whether or not the
/// caller asks for capitals: only katakana is ever written in capitals.
pub proof fn lemma_text_without_katakana_has_no_capitals(table: Table, input: Seq<char>)
    requires
        forall|i: int| 0 <= i < input.len() ==> !char_is_katakana(#[trigger] input[i]),
    ensures
        transliterated(table, input, true) == transliterated(table, input, false),
{
    let read = glides_read(input, 0, None);
    let marked = preprocessed(input);
    lemma_glides_read_brings_no_katakana(input, 0, None);
    assert forall|i: int| 0 <= i < marked.len() implies !char_is_katakana(
        #[trigger] marked[i],
    ) by {
        assert(marked.contains(marked[i]));
        read.lemma_filter_contains_rev(not_marker(), marked[i]);
    }
    assert(normalized(marked, true).len() == marked.len());
    lemma_capitals_need_katakana(table, marked, normalized(marked, true), 0);
}

/// `c` is a character that no pass touches: no marker, no kana `i`, no
/// katakana that has a hiragana, and no beginning of a run of `table`.
pub open spec fn untouched(table: Table, c: char) -> bool {
    &&& c != MARKER
    &&& !char_is_kana_i(c)
    &&& !has_hiragana(c)
    &&& !table.dom().contains(seq![c])
}

/// The first pass leaves a text without markers and without the kana `i` as
/// it is.
proof fn lemma_glides_read_leaves_plain_text(s: Seq<char>, pos: int, last: Option<char>)
    requires
        0 <= pos <= s.len(),
        forall|i: int| pos <= i < s.len() ==> (#[trigger] s[i]) != MARKER && !char_is_kana_i(s[i]),
    ensures
        glides_read(s, pos, last) == s.skip(pos),
        s.skip(pos).filter(not_marker()) == s.skip(pos),
    decreases s.len() - pos,
{
    let rest = s.skip(pos);
    if pos < s.len() {
        lemma_glides_read_leaves_plain_text(s, pos + 1, Some(s[pos]));
        assert(seq![s[pos]] + s.skip(pos + 1) =~= rest);
        Seq::filter_distributes_over_add(seq![s[pos]], s.skip(pos + 1), not_marker());
        assert(seq![s[pos]].filter(not_marker()) =~= seq![s[pos]]) by {
            Seq::<char>::empty().lemma_filter_push(s[pos], not_marker());
            assert(Seq::<char>::empty().push(s[pos]) =~= seq![s[pos]]);
            assert(Seq::<char>::empty().filter(not_marker()) =~= Seq::<char>::empty()) by {
                reveal(Seq::filter);
            }
        }
    } else {
        assert(rest =~= Seq::<char>::empty());
        assert(rest.filter(not_marker()) =~= rest) by {
            reveal(Seq::filter);
        }
    }
}

/// A text of characters that no pass touches, in which no `е` follows an
/// `і`, is its own transliteration: what the table does not know passes
/// through unchanged.
pub proof fn lemma_untouched_text_is_unchanged(table: Table, input: Seq<char>, upcase: bool)
    requires
        prefix_closed(table),
        forall|i: int| 0 <= i < input.len() ==> untouched(table, #[trigger] input[i]),
        forall|i: int| 0 < i < input.len() ==> !(input[i - 1] == 'і' && #[trigger] input[i] == 'е'),
    ensures
        transliterated(table, input, upcase) == input,
{
    lemma_glides_read_leaves_plain_text(input, 0, None);
    assert(input.skip(0) =~= input);
    assert(preprocessed(input) == input);
    assert(normalized(input, true) =~= input);
    lemma_unmapped_text_is_unchanged(table, input, input, 0, upcase);
    assert(iotated(input) =~= input);
}

/// What the Ukrainian table does not know, it passes through: a text of
/// characters that no pass touches, in which no `е` follows an `і`, is its
/// own transliteration into Ukrainian.
pub proof fn lemma_ukrainian_passes_untouched_text_through(input: Seq<char>, upcase: bool)
    requires
        forall|i: int| 0 <= i < input.len() ==> untouched(ukrainian_table(), #[trigger] input[i]),
        forall|i: int| 0 < i < input.len() ==> !(input[i - 1] == 'і' && #[trigger] input[i] == 'е'),
    ensures
        transliterated(ukrainian_table(), input, upcase) == input,
{
    lemma_table_of_is_prefix_closed(UKRAINIAN_TABLE@);
    lemma_untouched_text_is_unchanged(ukrainian_table(), input, upcase);
}

/// Tests if a character is the kana `i`, in either script.
#[verifier::when_used_as_spec(char_is_kana_i)]
pub fn is_kana_i(c: char) -> (r: bool)
    ensures
        r == char_is_kana_i(c),
{
    c == 'い' || c == 'イ'
}

/// Tests if a character is the kana `e`, in either script.
#[verifier::when_used_as_spec(char_is_kana_e)]
pub fn is_kana_e(c: char) -> (r: bool)
    ensures
        r == char_is_kana_e(c),
{
    c == 'え' || c == 'エ'
}

/// Tests if every character of `chars` is katakana.
pub fn is_all_katakana(chars: &[char]) -> (r: bool)
    ensures
        r == all_katakana(chars@),
{
    let mut i: usize = 0;
    while i < chars.len()
        invariant
            i <= chars@.len(),
            forall|j: int| 0 <= j < i ==> char_is_katakana(#[trigger] chars@[j]),
        decreases chars@.len() - i,
    {
        if !is_char_katakana(chars[i]) {
            return false;
        }
        i += 1;
    }
    true
}

/// Reads the glides of `input`: the first half of the first pass.
pub fn read_glides(input: &[char]) -> (result: Vec<char>)
    ensures
        result@ == glides_read(input@, 0, None),
{
    let mut result: Vec<char> = Vec::new();
    let mut last_char: Option<char> = None;
    let mut pos: usize = 0;
    while pos < input.len()
        invariant
            pos <= input@.len(),
            result@ + glides_read(input@, pos as int, last_char) == glides_read(input@, 0, None),
        decreases input@.len() - pos,
    {
        let c: char = input[pos];
        let ghost before = result@;
        let ghost here = glides_read(input@, pos as int, last_char);
        let after_vowel = match last_char {
            Some(last) => str_contains(VOWEL_ENDINGS, last),
            None => false,
        };
        if after_vowel && c == MARKER && pos + 1 < input.len() && is_kana_i(input[pos + 1]) {
            if pos + 2 < input.len() && is_kana_e(input[pos + 2]) {
                result.push('ї');
                result.push('є');
                pos += 3;
            } else {
                result.push('ї');
                pos += 2;
            }
        } else if after_vowel && is_kana_i(c) {
            result.push('й');
            pos += 1;
        } else {
            result.push(c);
            pos += 1;
        }
        last_char = Some(c);
        proof {
            let there = glides_read(input@, pos as int, last_char);
            assert(result@ + there =~= before + here);
        }
    }
    proof {
        assert(result@ + Seq::<char>::empty() =~= result@);
    }
    result
}

/// Drops the markers from `input`: the second half of the first pass.
pub fn strip_markers(input: &[char]) -> (result: Vec<char>)
    ensures
        result@ == input@.filter(not_marker()),
{
    let mut result: Vec<char> = Vec::new();
    let mut i: usize = 0;
    proof {
        assert(input@.take(0) =~= Seq::<char>::empty());
        assert(Seq::<char>::empty().filter(not_marker()) =~= Seq::<char>::empty()) by {
            reveal(Seq::filter);
        }
    }
    while i < input.len()
        invariant
            i <= input@.len(),
            result@ == input@.take(i as int).filter(not_marker()),
        decreases input@.len() - i,
    {
        let c: char = input[i];
        proof {
            assert(input@.take(i + 1) =~= input@.take(i as int).push(c));
            input@.take(i as int).lemma_filter_push(c, not_marker());
        }
        if c != MARKER {
            result.push(c);
        }
        i += 1;
    }
    proof {
        assert(input@.take(input@.len() as int) =~= input@);
    }
    result
}

/// Writes `kana` run by run: the third pass.
///
/// At each index the tree is asked for the longest run that begins there.
/// Where it holds one, the run's rendering is written, in capitals if
/// `upcase` asks for them and `orig` has katakana all through the run, and
/// the pass goes on behind the run. Where it holds none, the character is
/// written as it is and the pass goes on behind it.
pub fn emit(tree: &Node, orig: &[char], kana: &[char], upcase: bool) -> (output: Vec<char>)
    requires
        tree.sorted(),
        orig@.len() == kana@.len(),
    ensures
        output@ == emitted(tree@, orig@, kana@, 0, upcase),
{
    let mut output: Vec<char> = Vec::new();
    let len: usize = kana.len();
    let mut curr_pos: usize = 0;
    while curr_pos != len
        invariant
            tree.sorted(),
            len == kana@.len(),
            orig@.len() == kana@.len(),
            curr_pos <= len,
            output@ + emitted(tree@, orig@, kana@, curr_pos as int, upcase) == emitted(
                tree@,
                orig@,
                kana@,
                0,
                upcase,
            ),
        decreases len - curr_pos,
    {
        let ghost before = output@;
        let ghost here = emitted(tree@, orig@, kana@, curr_pos as int, upcase);
        let result = tree.lookup(kana, curr_pos);
        if result.1 == 0 {
            output.push(kana[curr_pos]);
            curr_pos += 1;
        } else {
            let source = vstd::slice::slice_subrange(orig, curr_pos, curr_pos + result.1);
            if upcase && is_all_katakana(source) {
                let capitals = result.0.to_uppercase();
                extend_with_str(&mut output, capitals.as_str());
            } else {
                extend_with_str(&mut output, result.0);
            }
            curr_pos += result.1;
        }
        proof {
            let there = emitted(tree@, orig@, kana@, curr_pos as int, upcase);
            assert(output@ + there =~= before + here);
        }
    }
    proof {
        assert(output@ + Seq::<char>::empty() =~= output@);
    }
    output
}

/// Writes `є` for each `е` that follows an `і`: the fourth pass.
pub fn iotate(input: &[char]) -> (result: Vec<char>)
    ensures
        result@ == iotated(input@),
{
    let mut result: Vec<char> = Vec::new();
    let mut i: usize = 0;
    while i < input.len()
        invariant
            i <= input@.len(),
            result@ == iotated(input@).take(i as int),
        decreases input@.len() - i,
    {
        let ghost whole = iotated(input@);
        if i > 0 && input[i - 1] == 'і' && input[i] == 'е' {
            result.push('є');
        } else {
            result.push(input[i]);
        }
        proof {
            assert(whole.take(i as int).push(whole[i as int]) =~= whole.take(i + 1));
        }
        i += 1;
    }
    proof {
        assert(iotated(input@).take(input@.len() as int) =~= iotated(input@));
    }
    result
}

/// Transliterates `input` with the lookup tree `tree`.
pub fn transliterate(tree: &Node, input: &str, options: Options) -> (output: String)
    requires
        tree.sorted(),
    ensures
        output@ == transliterated(tree@, input@, options.upcase_katakana),
        input@.len() == 0 ==> output@.len() == 0,
{
    let chars = chars_of(input);
    let read = read_glides(chars.as_slice());
    let orig_chars = strip_markers(read.as_slice());
    let kana = katakana_to_hiragana_chars(orig_chars.as_slice(), true);
    let written = emit(tree, orig_chars.as_slice(), kana.as_slice(), options.upcase_katakana);
    let mended = iotate(written.as_slice());
    proof {
        if input@.len() == 0 {
            assert(input@ =~= Seq::<char>::empty());
            lemma_empty_input(tree@, options.upcase_katakana);
        }
    }
    string_of(mended.as_slice())
}

/// Converts kana to Ukrainian Cyrillic, as `options` asks.
pub fn to_ukrainian_with_opt(orig: &str, options: Options) -> (output: String)
    ensures
        output@ == transliterated(ukrainian_table(), orig@, options.upcase_katakana),
        orig@.len() == 0 ==> output@.len() == 0,
{
    let tree = ukrainian_tree();
    transliterate(&tree, orig, options)
}

/// Converts kana to Ukrainian Cyrillic.
pub fn to_ukrainian(input: &str) -> (output: String)
    ensures
        output@ == transliterated(ukrainian_table(), input@, false),
        input@.len() == 0 ==> output@.len() == 0,
{
    to_ukrainian_with_opt(input, Options::default())
}

} // verus!
