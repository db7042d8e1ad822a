//! Strings as sequences of characters.
use vstd::prelude::*;

verus! {

/// `String::push` of std appends the character to the end of the string and
/// changes nothing else.
pub assume_specification[ String::push ](s: &mut String, ch: char)
    ensures
        final(s)@ == old(s)@.push(ch),
;

/// `String::into_boxed_str` of std keeps the characters of the string.
pub assume_specification[ String::into_boxed_str ](s: String) -> (boxed: Box<str>)
    ensures
        boxed@ == s@,
;

/// Whether a character has the Alphabetic property of Unicode, as std's
/// tables of the property have it.
pub uninterp spec fn alphabetic(c: char) -> bool;

/// `char::is_alphabetic` of std: whether the character has the Alphabetic
/// property of Unicode.
#[verifier::external_body]
pub(crate) fn is_alphabetic(c: char) -> (yes: bool)
    ensures
        yes == alphabetic(c),
{
    c.is_alphabetic()
}

/// The characters of a text, in order.
pub fn characters(text: &str) -> (chars: Vec<char>)
    ensures
        chars@ == text@,
{
    let mut chars: Vec<char> = Vec::new();
    for c in it: text.chars()
        invariant
            chars@ == it.seq().take(it.index()),
    {
        chars.push(c);
    }
    chars
}

/// The text made of the characters from `from` up to, not including, `to`.
pub fn string_of(chars: &[char], from: usize, to: usize) -> (text: String)
    requires
        from <= to <= chars@.len(),
    ensures
        text@ == chars@.subrange(from as int, to as int),
{
    let mut text = String::new();
    let mut pos = from;
    while pos < to
        invariant
            from <= pos <= to <= chars@.len(),
            text@ == chars@.subrange(from as int, pos as int),
        decreases to - pos,
    {
        text.push(chars[pos]);
        pos += 1;
    }
    text
}

} // verus!
