//! The figures at the end of a session: words typed and accuracy.

use crate::width::chars_of;
use crate::wrap::{count_spaces_in, lemma_space_count_bound, space_count};
use vstd::prelude::*;

verus! {

/// How many of the first `k` typed characters equal the reference.
pub open spec fn match_count(text: Seq<char>, typed: Seq<char>, k: int) -> nat
    decreases k,
{
    if k <= 0 {
        0
    } else {
        match_count(text, typed, k - 1) + if typed[k - 1] == text[k - 1] {
            1nat
        } else {
            0nat
        }
    }
}

/// How many positions both sequences have.
pub open spec fn compared(text: Seq<char>, typed: Seq<char>) -> int {
    if typed.len() <= text.len() {
        typed.len() as int
    } else {
        text.len() as int
    }
}

/// How many typed characters equal the reference at their position.
pub open spec fn correct_spec(text: Seq<char>, typed: Seq<char>) -> nat {
    match_count(text, typed, compared(text, typed))
}

/// The words typed. A complete text counts all its words, its spaces and
/// one; an incomplete one counts the spaces passed, so the word in
/// progress is left out.
pub open spec fn words_spec(text: Seq<char>, typed: Seq<char>) -> nat {
    if typed.len() == text.len() {
        space_count(text) + 1
    } else {
        space_count(text.take(compared(text, typed)))
    }
}

/// No more characters match than were compared.
pub proof fn lemma_match_count_bound(text: Seq<char>, typed: Seq<char>, k: int)
    ensures
        match_count(text, typed, k) <= if k <= 0 {
            0
        } else {
            k
        },
    decreases k,
{
    if k > 0 {
        lemma_match_count_bound(text, typed, k - 1);
    }
}

/// Accuracy is a proportion: of the typed characters, those that are
/// right are at least none and at most all.
pub proof fn lemma_accuracy_bound(text: Seq<char>, typed: Seq<char>)
    requires
        typed.len() > 0,
    ensures
        0 <= correct_spec(text, typed) <= typed.len(),
{
    lemma_match_count_bound(text, typed, compared(text, typed));
}

/// How many typed characters equal the reference at their position.
pub fn correct_count(text: &str, typed: &str) -> (count: usize)
    ensures
        count == correct_spec(text@, typed@),
        count <= typed@.len(),
{
    let reference = chars_of(text);
    let input = chars_of(typed);
    let limit = if input.len() <= reference.len() {
        input.len()
    } else {
        reference.len()
    };
    let mut count: usize = 0;
    let mut i: usize = 0;
    while i < limit
        invariant
            i <= limit,
            limit <= input.len(),
            limit <= reference.len(),
            count == match_count(reference@, input@, i as int),
            count <= i,
        decreases limit - i,
    {
        if input[i] == reference[i] {
            count += 1;
        }
        i += 1;
    }
    count
}

/// The accuracy as a fraction: the typed characters that are right, over
/// all typed characters. With nothing typed there is no accuracy.
pub fn accuracy_ratio(text: &str, typed: &str) -> (ratio: Option<(usize, usize)>)
    ensures
        ratio is None <==> typed@.len() == 0,
        ratio is Some ==> ratio.unwrap().0 == correct_spec(text@, typed@),
        ratio is Some ==> ratio.unwrap().1 == typed@.len(),
        ratio is Some ==> ratio.unwrap().0 <= ratio.unwrap().1,
{
    let total = typed.unicode_len();
    if total == 0 {
        None
    } else {
        Some((correct_count(text, typed), total))
    }
}

/// The words typed, see `words_spec`.
pub fn word_count(text: &str, typed: &str) -> (count: usize)
    requires
        text@.len() < usize::MAX,
    ensures
        count == words_spec(text@, typed@),
{
    let reference = chars_of(text);
    let typed_len = typed.unicode_len();
    if typed_len == reference.len() {
        proof {
            lemma_space_count_bound(reference@);
            assert(reference@.take(reference.len() as int) =~= reference@);
        }
        count_spaces_in(&reference, reference.len()) + 1
    } else if typed_len < reference.len() {
        count_spaces_in(&reference, typed_len)
    } else {
        count_spaces_in(&reference, reference.len())
    }
}

} // verus!
