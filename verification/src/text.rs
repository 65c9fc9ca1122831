//! Text: what the standard library does to it, as far as this crate relies
//! on that, and its characters as a vector.

use vstd::prelude::*;

verus! {

/// `String::push` appends the given character to the end of the string.
pub assume_specification[ String::push ](s: &mut String, c: char)
    ensures
        final(s)@ == old(s)@.push(c),
;

/// What `str::trim` returns for a line: the line without its leading and
/// trailing whitespace.
pub uninterp spec fn trimmed(line: Seq<char>) -> Seq<char>;

/// `str::trim` returns the slice of the line that is left when leading and
/// trailing whitespace are removed. Which characters count as whitespace is
/// the standard library's matter: the result is only named here.
#[verifier::external_body]
pub(crate) fn trim(line: &str) -> (text: &str)
    ensures
        text@ == trimmed(line@),
{
    line.trim()
}

/// The characters of a text, in order.
pub fn chars_of(text: &str) -> (chars: Vec<char>)
    ensures
        chars@ == text@,
{
    let mut chars: Vec<char> = Vec::new();
    for c in it: text.chars()
        invariant
            it.seq() == text@,
            chars@ == it.seq().take(it.index()),
    {
        chars.push(c);
    }
    chars
}

} // verus!
