//! Strings as sequences of characters: the passage between `str` and
//! `Vec<char>`, and what the library takes from the standard library's
//! `String` without proof.

use vstd::prelude::*;

verus! {

/// The uppercase form of a text, as the standard library derives it from
/// Unicode's case mappings. It depends on the characters of the text and on
/// nothing else.
pub uninterp spec fn uppercase_of(s: Seq<char>) -> Seq<char>;

/// For `str::to_uppercase` of the standard library, taken on trust: what it
/// returns depends on the characters of `s` alone, and is called
/// `uppercase_of` of them. Nothing is claimed of what that is.
pub assume_specification[ str::to_uppercase ](s: &str) -> (r: String)
    ensures
        r@ == uppercase_of(s@),
;

/// For `String::push` of the standard library, taken on trust: the string
/// afterwards is the string before with `c` behind its last character.
pub assume_specification[ String::push ](s: &mut String, c: char)
    ensures
        final(s)@ == old(s)@.push(c),
;

/// For `char::from_u32` of the standard library, taken on trust: a number
/// that is a Unicode scalar value, which is one below the surrogates or from
/// behind them up to `0x10FFFF`, comes back as the character with that code
/// point, and no other number comes back as a character.
pub assume_specification[ char::from_u32 ](i: u32) -> (r: Option<char>)
    ensures
        r == (if is_scalar_value(i) {
            Some(i as char)
        } else {
            None
        }),
;

/// `i` is the code point of a character.
pub open spec fn is_scalar_value(i: u32) -> bool {
    i <= 0xD7FF || 0xE000 <= i <= 0x10FFFF
}

/// The characters of `s`, in their order.
pub fn chars_of(s: &str) -> (v: Vec<char>)
    ensures
        v@ == s@,
{
    let mut v: Vec<char> = Vec::new();
    for c in it: s.chars()
        invariant
            v@ == it.seq().take(it.index()),
    {
        v.push(c);
    }
    v
}

/// Tests whether `c` is among the characters of `s`.
pub fn str_contains(s: &str, c: char) -> (r: bool)
    ensures
        r == s@.contains(c),
{
    for x in it: s.chars()
        invariant
            it.seq() == s@,
            !it.seq().take(it.index()).contains(c),
    {
        if x == c {
            proof {
                assert(it.seq()[it.index()] == c);
            }
            return true;
        }
        proof {
            let seen = it.seq().take(it.index());
            let more = it.seq().take(it.index() + 1);
            assert(more =~= seen.push(x));
            assert forall|i: int| 0 <= i < more.len() implies more[i] != c by {
                if i < seen.len() {
                    assert(seen[i] == more[i]);
                    assert(seen.contains(more[i]));
                }
            }
        }
    }
    proof {
        assert(s@.take(s@.len() as int) =~= s@);
    }
    false
}

/// Puts the characters of `s` behind those that `out` holds.
pub fn extend_with_str(out: &mut Vec<char>, s: &str)
    ensures
        final(out)@ == old(out)@ + s@,
{
    let ghost before = out@;
    for c in it: s.chars()
        invariant
            out@ == before + it.seq().take(it.index()),
    {
        out.push(c);
    }
}

/// The string made of `chars`, in their order.
pub fn string_of(chars: &[char]) -> (s: String)
    ensures
        s@ == chars@,
{
    let mut s = String::new();
    let mut i: usize = 0;
    while i < chars.len()
        invariant
            i <= chars@.len(),
            s@ == chars@.take(i as int),
        decreases chars@.len() - i,
    {
        s.push(chars[i]);
        proof {
            assert(chars@.take(i as int).push(chars@[i as int]) =~= chars@.take(i + 1));
        }
        i += 1;
    }
    proof {
        assert(chars@.take(chars@.len() as int) =~= chars@);
    }
    s
}

} // verus!
