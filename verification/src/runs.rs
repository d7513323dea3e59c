//! Counting characters and maximal runs of characters that satisfy a
//! predicate.  Sentence boundaries are runs of terminators, and syllable
//! estimation counts runs of vowels.

use vstd::prelude::*;

verus! {

/// How many characters of `s` satisfy `p`.
pub open spec fn count_matching(s: Seq<char>, p: spec_fn(char) -> bool) -> nat
    decreases s.len(),
{
    if s.len() == 0 {
        0
    } else {
        count_matching(s.drop_last(), p) + (if p(s.last()) {
            1nat
        } else {
            0nat
        })
    }
}

/// Whether a maximal run of characters satisfying `p` starts at index `i`.
pub open spec fn run_starts_at(s: Seq<char>, p: spec_fn(char) -> bool, i: int) -> bool {
    p(s[i]) && (i == 0 || !p(s[i - 1]))
}

/// How many maximal runs of characters satisfying `p` occur in `s`: the
/// number of positions where such a run starts.
pub open spec fn run_count(s: Seq<char>, p: spec_fn(char) -> bool) -> nat
    decreases s.len(),
{
    if s.len() == 0 {
        0
    } else {
        run_count(s.drop_last(), p) + (if run_starts_at(s, p, s.len() - 1) {
            1nat
        } else {
            0nat
        })
    }
}

/// How many maximal runs of characters satisfying `p` have length at least
/// two: the number of positions that start such a run and are directly
/// followed by another character satisfying `p`.
pub open spec fn long_run_count(s: Seq<char>, p: spec_fn(char) -> bool) -> nat
    decreases s.len(),
{
    if s.len() < 2 {
        0
    } else {
        long_run_count(s.drop_last(), p) + (if run_starts_at(s, p, s.len() - 2) && p(s.last()) {
            1nat
        } else {
            0nat
        })
    }
}

/// There is at most one character of a run per character of the text.
pub proof fn lemma_run_count_le_len(s: Seq<char>, p: spec_fn(char) -> bool)
    ensures
        run_count(s, p) <= s.len(),
    decreases s.len(),
{
    if s.len() > 0 {
        lemma_run_count_le_len(s.drop_last(), p);
    }
}

/// Extending a prefix by one character adds that character's contribution
/// to the count of matching characters.
pub proof fn lemma_count_matching_step(s: Seq<char>, p: spec_fn(char) -> bool, i: int)
    requires
        0 <= i < s.len(),
    ensures
        count_matching(s.take(i + 1), p) == count_matching(s.take(i), p) + (if p(s[i]) {
            1nat
        } else {
            0nat
        }),
{
    assert(s.take(i + 1).drop_last() =~= s.take(i));
    assert(s.take(i + 1).last() == s[i]);
}

/// Extending a prefix by one character adds one run exactly when a run
/// starts at that character.
pub proof fn lemma_run_count_step(s: Seq<char>, p: spec_fn(char) -> bool, i: int)
    requires
        0 <= i < s.len(),
    ensures
        run_count(s.take(i + 1), p) == run_count(s.take(i), p) + (if run_starts_at(s, p, i) {
            1nat
        } else {
            0nat
        }),
{
    assert(s.take(i + 1).drop_last() =~= s.take(i));
    assert(s.take(i + 1).last() == s[i]);
    assert(run_starts_at(s.take(i + 1), p, i) == run_starts_at(s, p, i));
}

/// Extending a prefix by one character adds one long run exactly when the
/// preceding character starts a run that the new character extends.
pub proof fn lemma_long_run_count_step(s: Seq<char>, p: spec_fn(char) -> bool, i: int)
    requires
        0 <= i < s.len(),
    ensures
        long_run_count(s.take(i + 1), p) == long_run_count(s.take(i), p) + (if i >= 1
            && run_starts_at(s, p, i - 1) && p(s[i]) {
            1nat
        } else {
            0nat
        }),
{
    assert(s.take(i + 1).drop_last() =~= s.take(i));
    assert(s.take(i + 1).last() == s[i]);
    if i >= 1 {
        assert(run_starts_at(s.take(i + 1), p, i - 1) == run_starts_at(s, p, i - 1));
    }
}

} // verus!
