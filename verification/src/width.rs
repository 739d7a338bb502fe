//! Display widths of characters, as the `unicode-width` tables give them.

use unicode_width::UnicodeWidthChar;
use vstd::prelude::*;

verus! {

/// The number of terminal columns that the width tables of `unicode-width`
/// assign to `c`, or `None` where they count `c` as a control character.
pub uninterp spec fn unicode_char_width(c: char) -> Option<usize>;

/// Trusted: calls `UnicodeWidthChar::width` on `c`. The contract only names
/// the answer; it is a table lookup that depends on nothing but `c`.
#[verifier::external_body]
pub(crate) fn char_width(c: char) -> (w: Option<usize>)
    ensures
        w == unicode_char_width(c),
{
    UnicodeWidthChar::width(c)
}

/// Columns taken by `c` on screen: control characters take none.
pub open spec fn glyph_width(c: char) -> usize {
    match unicode_char_width(c) {
        Some(n) => n,
        None => 0,
    }
}

/// The width of every character of `text`, in order.
pub open spec fn glyph_widths(text: Seq<char>) -> Seq<usize> {
    Seq::new(text.len(), |i: int| glyph_width(text[i]))
}

/// The column count of a looked-up width: a missing one counts as zero.
pub fn width_or_zero(looked_up: Option<usize>) -> (w: usize)
    ensures
        w == match looked_up {
            Some(n) => n,
            None => 0usize,
        },
{
    match looked_up {
        Some(n) => n,
        None => 0,
    }
}

/// The display width of each character of `chars`.
pub fn measure(chars: &Vec<char>) -> (widths: Vec<usize>)
    ensures
        widths@ == glyph_widths(chars@),
{
    let mut widths: Vec<usize> = Vec::new();
    let mut i: usize = 0;
    while i < chars.len()
        invariant
            i <= chars.len(),
            widths@ == glyph_widths(chars@.take(i as int)),
        decreases chars.len() - i,
    {
        let w = width_or_zero(char_width(chars[i]));
        widths.push(w);
        i += 1;
        assert(widths@ =~= glyph_widths(chars@.take(i as int)));
    }
    assert(chars@.take(i as int) =~= chars@);
    widths
}

/// The characters of `s`, in order.
pub fn chars_of(s: &str) -> (chars: Vec<char>)
    ensures
        chars@ == s@,
{
    let mut chars: Vec<char> = Vec::new();
    let n = s.unicode_len();
    let mut i: usize = 0;
    while i < n
        invariant
            n == s@.len(),
            i <= n,
            chars@ == s@.take(i as int),
        decreases n - i,
    {
        chars.push(s.get_char(i));
        i += 1;
        assert(chars@ =~= s@.take(i as int));
    }
    assert(s@.take(n as int) =~= s@);
    chars
}

} // verus!
