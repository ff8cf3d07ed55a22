//! Strings as sequences of characters: the few steps the rest of the crate
//! takes on them.

use vstd::prelude::*;

verus! {

/// `String::push` appends the character to the end of the string.
pub assume_specification[ String::push ](s: &mut String, c: char)
    ensures
        final(s)@ == old(s)@.push(c),
;

/// The characters of `text` in order.
pub fn chars_of(text: &str) -> (out: Vec<char>)
    ensures
        out@ == text@,
{
    let mut out: Vec<char> = Vec::new();
    for c in it: text.chars()
        invariant
            it.seq() == text@,
            out@ =~= text@.take(it.index()),
    {
        out.push(c);
    }
    assert(text@.take(text@.len() as int) =~= text@);
    out
}

/// Whether `c` occurs in `chars`.
pub fn contains_char(chars: &[char], c: char) -> (found: bool)
    ensures
        found == chars@.contains(c),
{
    let mut i: usize = 0;
    while i < chars.len()
        invariant
            i <= chars@.len(),
            forall|j: int| 0 <= j < i ==> chars@[j] != c,
        decreases chars@.len() - i,
    {
        if chars[i] == c {
            return true;
        }
        i += 1;
    }
    false
}

} // verus!
