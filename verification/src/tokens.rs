//! Word tokens: maximal runs of ASCII letters, delimited by word
//! boundaries.  A run of letters counts as a word only when the characters
//! on both sides (where present) cannot extend a word, so a run glued to a
//! digit, an underscore or a letter beyond ASCII is not a word.

use vstd::prelude::*;
use crate::classify::is_ascii_letter;
use crate::classify::is_word_char;

verus! {

/// The first index at or after `i` where the run of ASCII letters ends:
/// either the end of the text or the first non-letter character.
pub open spec fn letter_run_end(s: Seq<char>, i: int) -> int
    recommends
        0 <= i <= s.len(),
    decreases s.len() - i,
        when 0 <= i <= s.len()
{
    if i >= s.len() {
        s.len() as int
    } else if is_ascii_letter(s[i]) {
        letter_run_end(s, i + 1)
    } else {
        i
    }
}

/// `letter_run_end` stays within bounds, covers letters only, and stops at
/// the first non-letter.
pub proof fn lemma_letter_run_end(s: Seq<char>, i: int)
    requires
        0 <= i <= s.len(),
    ensures
        i <= letter_run_end(s, i) <= s.len(),
        forall|k: int| i <= k < letter_run_end(s, i) ==> is_ascii_letter(#[trigger] s[k]),
        letter_run_end(s, i) < s.len() ==> !is_ascii_letter(s[letter_run_end(s, i)]),
    decreases s.len() - i,
{
    if i < s.len() && is_ascii_letter(s[i]) {
        lemma_letter_run_end(s, i + 1);
    }
}

/// A run of letters reaching from `i` to `j` has its end at `j`.
pub proof fn lemma_letter_run_end_is(s: Seq<char>, i: int, j: int)
    requires
        0 <= i <= j <= s.len(),
        forall|k: int| i <= k < j ==> is_ascii_letter(#[trigger] s[k]),
        j < s.len() ==> !is_ascii_letter(s[j]),
    ensures
        letter_run_end(s, i) == j,
    decreases j - i,
{
    if i < j {
        lemma_letter_run_end_is(s, i + 1, j);
    }
}

/// Whether a run of letters spanning `i` to `j` is delimited by word
/// boundaries: the neighbouring characters, where present, cannot extend a
/// word.
pub open spec fn word_boundary_ok(s: Seq<char>, i: int, j: int) -> bool {
    (i == 0 || !is_word_char(s[i - 1])) && (j == s.len() || !is_word_char(s[j]))
}

/// The word tokens found at or after position `i`: for each maximal run of
/// ASCII letters that is delimited by word boundaries, the run itself, in
/// order of appearance.
pub open spec fn words_from(s: Seq<char>, i: int) -> Seq<Seq<char>>
    recommends
        0 <= i <= s.len(),
    decreases s.len() - i,
        when 0 <= i <= s.len()
        via words_from_decreases
{
    if i >= s.len() {
        Seq::empty()
    } else if is_ascii_letter(s[i]) && (i == 0 || !is_ascii_letter(s[i - 1])) {
        if word_boundary_ok(s, i, letter_run_end(s, i)) {
            seq![s.subrange(i, letter_run_end(s, i))] + words_from(s, letter_run_end(s, i))
        } else {
            words_from(s, letter_run_end(s, i))
        }
    } else {
        words_from(s, i + 1)
    }
}

#[via_fn]
proof fn words_from_decreases(s: Seq<char>, i: int) {
    if 0 <= i < s.len() && is_ascii_letter(s[i]) {
        lemma_letter_run_end(s, i + 1);
        assert(letter_run_end(s, i) == letter_run_end(s, i + 1));
    }
}

/// The word tokens of a text, in order of appearance; duplicates are kept.
pub open spec fn spec_words(s: Seq<char>) -> Seq<Seq<char>> {
    words_from(s, 0)
}

/// Every character of `w` is an ASCII letter.
pub open spec fn all_letters(w: Seq<char>) -> bool {
    forall|k: int| 0 <= k < w.len() ==> is_ascii_letter(#[trigger] w[k])
}

/// Every word token is a non-empty run of ASCII letters.
pub proof fn lemma_words_are_letter_runs(s: Seq<char>, i: int)
    requires
        0 <= i <= s.len(),
    ensures
        forall|k: int| 0 <= k < words_from(s, i).len() ==> (#[trigger] words_from(s, i)[k]).len()
            >= 1 && all_letters(words_from(s, i)[k]),
    decreases s.len() - i,
{
    if i >= s.len() {
    } else if is_ascii_letter(s[i]) && (i == 0 || !is_ascii_letter(s[i - 1])) {
        let j = letter_run_end(s, i);
        lemma_letter_run_end(s, i);
        assert(j >= i + 1);
        lemma_words_are_letter_runs(s, j);
        if word_boundary_ok(s, i, j) {
            let w = s.subrange(i, j);
            assert(w.len() >= 1);
            assert(all_letters(w));
            assert(words_from(s, i) =~~= seq![w] + words_from(s, j));
            assert forall|k: int| 0 <= k < words_from(s, i).len() implies (#[trigger] words_from(
                s,
                i,
            )[k]).len() >= 1 && all_letters(words_from(s, i)[k]) by {
                if k == 0 {
                    assert(words_from(s, i)[k] == w);
                } else {
                    assert(words_from(s, i)[k] == words_from(s, j)[k - 1]);
                }
            }
        } else {
            assert forall|k: int| 0 <= k < words_from(s, i).len() implies (#[trigger] words_from(
                s,
                i,
            )[k]).len() >= 1 && all_letters(words_from(s, i)[k]) by {
                assert(words_from(s, i)[k] == words_from(s, j)[k]);
            }
        }
    } else {
        lemma_words_are_letter_runs(s, i + 1);
        assert forall|k: int| 0 <= k < words_from(s, i).len() implies (#[trigger] words_from(
            s,
            i,
        )[k]).len() >= 1 && all_letters(words_from(s, i)[k]) by {
            assert(words_from(s, i)[k] == words_from(s, i + 1)[k]);
        }
    }
}

} // verus!
