//! The syllable estimate of a word and the complex-word predicate.
//!
//! The estimate is a fixed heuristic: clean the word, count maximal runs of
//! vowels, take one back for a silent trailing `e`, take one back again for
//! every vowel run of two or more letters, and never report less than one
//! syllable for a word that has an alphabetic character.  The second
//! correction is deliberate even though run counting has already collapsed
//! consecutive vowels: compatible output matters more here than phonetic
//! accuracy.  All letter comparisons ignore case, which is what lowering
//! the cleaned word first would achieve.

use vstd::prelude::*;
use crate::classify::exec_is_alpha;
use crate::classify::exec_is_vowel;
use crate::classify::is_alpha;
use crate::classify::is_ascii_letter;
use crate::classify::is_vowel;
use crate::runs::lemma_long_run_count_step;
use crate::runs::lemma_run_count_le_len;
use crate::runs::lemma_run_count_step;
use crate::runs::long_run_count;
use crate::runs::run_count;

verus! {

/// The vowel predicate, as a value, for run counting.
pub open spec fn vowel_pred() -> spec_fn(char) -> bool {
    |c: char| is_vowel(c)
}

/// The word without its leading non-alphabetic characters.
pub open spec fn trim_leading(w: Seq<char>) -> Seq<char>
    decreases w.len(),
{
    if w.len() == 0 {
        w
    } else if is_alpha(w.first()) {
        w
    } else {
        trim_leading(w.drop_first())
    }
}

/// The word without its trailing non-alphabetic characters.
pub open spec fn trim_trailing(w: Seq<char>) -> Seq<char>
    decreases w.len(),
{
    if w.len() == 0 {
        w
    } else if is_alpha(w.last()) {
        w
    } else {
        trim_trailing(w.drop_last())
    }
}

/// The cleaned word: non-alphabetic characters removed from both ends.
pub open spec fn spec_clean(w: Seq<char>) -> Seq<char> {
    trim_trailing(trim_leading(w))
}

/// Case-insensitive comparison with one letter, given in both cases.
pub open spec fn eq_ci(c: char, lower: char, upper: char) -> bool {
    c == lower || c == upper
}

/// Whether the cleaned word ends in `e` but not in `le`, while more than
/// one vowel run was counted: the trailing `e` is then taken as silent.
pub open spec fn has_silent_e(c: Seq<char>) -> bool {
    c.len() >= 1 && eq_ci(c.last(), 'e', 'E') && run_count(c, vowel_pred()) > 1 && !(c.len() >= 2
        && eq_ci(c[c.len() - 2], 'l', 'L'))
}

/// The syllable estimate of a cleaned word: vowel runs, minus one for a
/// silent trailing `e`, minus one for every vowel run of length two or
/// more, floored at one; an empty cleaned word has no syllables.
pub open spec fn syllables_of_clean(c: Seq<char>) -> nat {
    let adjusted = run_count(c, vowel_pred()) - (if has_silent_e(c) {
        1int
    } else {
        0int
    }) - long_run_count(c, vowel_pred());
    if c.len() == 0 {
        0
    } else if adjusted < 1 {
        1
    } else {
        adjusted as nat
    }
}

/// The syllable estimate of a word: the word is cleaned first.
pub open spec fn spec_count_syllables(w: Seq<char>) -> nat {
    syllables_of_clean(spec_clean(w))
}

/// Whether a word with the given syllable estimate is complex: at least
/// three syllables and no common inflectional suffix (`ed`, `es`, `ing`)
/// on the cleaned word.
pub open spec fn spec_is_complex_word(w: Seq<char>, syllables: int) -> bool {
    let c = spec_clean(w);
    syllables >= 3 && !ends_in_ed(c) && !ends_in_es(c) && !ends_in_ing(c)
}

pub open spec fn ends_in_ed(c: Seq<char>) -> bool {
    c.len() >= 2 && eq_ci(c[c.len() - 2], 'e', 'E') && eq_ci(c[c.len() - 1], 'd', 'D')
}

pub open spec fn ends_in_es(c: Seq<char>) -> bool {
    c.len() >= 2 && eq_ci(c[c.len() - 2], 'e', 'E') && eq_ci(c[c.len() - 1], 's', 'S')
}

pub open spec fn ends_in_ing(c: Seq<char>) -> bool {
    c.len() >= 3 && eq_ci(c[c.len() - 3], 'i', 'I') && eq_ci(c[c.len() - 2], 'n', 'N') && eq_ci(
        c[c.len() - 1],
        'g',
        'G',
    )
}

/// Cleaning never lengthens a word.
pub proof fn lemma_clean_le_len(w: Seq<char>)
    ensures
        spec_clean(w).len() <= w.len(),
{
    lemma_trim_leading_le_len(w);
    lemma_trim_trailing_le_len(trim_leading(w));
}

proof fn lemma_trim_leading_le_len(w: Seq<char>)
    ensures
        trim_leading(w).len() <= w.len(),
    decreases w.len(),
{
    if w.len() > 0 && !is_alpha(w.first()) {
        lemma_trim_leading_le_len(w.drop_first());
    }
}

proof fn lemma_trim_trailing_le_len(w: Seq<char>)
    ensures
        trim_trailing(w).len() <= w.len(),
    decreases w.len(),
{
    if w.len() > 0 && !is_alpha(w.last()) {
        lemma_trim_trailing_le_len(w.drop_last());
    }
}

/// A word made of ASCII letters is already clean.
pub proof fn lemma_clean_of_letters(w: Seq<char>)
    requires
        forall|k: int| 0 <= k < w.len() ==> is_ascii_letter(#[trigger] w[k]),
    ensures
        spec_clean(w) == w,
{
    if w.len() > 0 {
        assert(is_alpha(w.first()));
        assert(is_alpha(w.last()));
    }
}

/// A word with at least one character, all of them ASCII letters, is
/// estimated at one syllable or more.
pub proof fn lemma_word_min_syllables(w: Seq<char>)
    requires
        w.len() >= 1,
        forall|k: int| 0 <= k < w.len() ==> is_ascii_letter(#[trigger] w[k]),
    ensures
        spec_count_syllables(w) >= 1,
{
    lemma_clean_of_letters(w);
}

/// A non-empty word is never estimated at more syllables than it has
/// characters.
pub proof fn lemma_syllables_le_len(w: Seq<char>)
    requires
        w.len() >= 1,
    ensures
        spec_count_syllables(w) <= w.len(),
{
    lemma_clean_le_len(w);
    lemma_run_count_le_len(spec_clean(w), vowel_pred());
}

/// The cleaned word, as characters.
pub fn clean_chars(w: &Vec<char>) -> (r: Vec<char>)
    ensures
        r@ == spec_clean(w@),
{
    let n = w.len();
    let mut start: usize = 0;
    proof {
        assert(w@.skip(0) =~= w@);
    }
    while start < n && !exec_is_alpha(w[start])
        invariant
            start <= n,
            n == w@.len(),
            trim_leading(w@) == trim_leading(w@.skip(start as int)),
        decreases n - start,
    {
        proof {
            assert(w@.skip(start as int).drop_first() =~= w@.skip(start + 1));
        }
        start = start + 1;
    }
    proof {
        if start < n {
            assert(w@.skip(start as int).first() == w@[start as int]);
            assert(trim_leading(w@) == w@.skip(start as int));
        } else {
            assert(w@.skip(start as int).len() == 0);
        }
    }
    let mut end: usize = n;
    while end > start && !exec_is_alpha(w[end - 1])
        invariant
            start <= end <= n,
            n == w@.len(),
            trim_leading(w@) == w@.skip(start as int),
            trim_trailing(w@.skip(start as int)) == trim_trailing(
                w@.subrange(start as int, end as int),
            ),
        decreases end,
    {
        proof {
            assert(w@.subrange(start as int, end as int).last() == w@[end - 1]);
            assert(w@.subrange(start as int, end as int).drop_last() =~= w@.subrange(
                start as int,
                end - 1,
            ));
        }
        end = end - 1;
    }
    proof {
        assert(w@.skip(start as int) =~= w@.subrange(start as int, n as int));
        if end > start {
            assert(w@.subrange(start as int, end as int).last() == w@[end - 1]);
            assert(spec_clean(w@) == w@.subrange(start as int, end as int));
        } else {
            assert(w@.subrange(start as int, end as int).len() == 0);
            assert(spec_clean(w@) =~= w@.subrange(start as int, end as int));
        }
    }
    let mut r: Vec<char> = Vec::new();
    let mut k: usize = start;
    while k < end
        invariant
            start <= k <= end <= n,
            n == w@.len(),
            r@ == w@.subrange(start as int, k as int),
        decreases end - k,
    {
        r.push(w[k]);
        k = k + 1;
        proof {
            assert(w@.subrange(start as int, k as int) =~= w@.subrange(start as int, k - 1)
                + seq![w@[k - 1]]);
        }
    }
    r
}

/// How many maximal runs of vowels occur in `c`.
fn count_vowel_runs(c: &Vec<char>) -> (r: usize)
    ensures
        r == run_count(c@, vowel_pred()),
{
    let n = c.len();
    let mut r: usize = 0;
    let mut i: usize = 0;
    while i < n
        invariant
            i <= n,
            n == c@.len(),
            r == run_count(c@.take(i as int), vowel_pred()),
            r <= i,
        decreases n - i,
    {
        proof {
            lemma_run_count_step(c@, vowel_pred(), i as int);
        }
        if exec_is_vowel(c[i]) && (i == 0 || !exec_is_vowel(c[i - 1])) {
            r = r + 1;
        }
        i = i + 1;
    }
    proof {
        assert(c@.take(n as int) =~= c@);
    }
    r
}

/// How many maximal runs of vowels in `c` have length two or more.
fn count_long_vowel_runs(c: &Vec<char>) -> (r: usize)
    ensures
        r == long_run_count(c@, vowel_pred()),
{
    let n = c.len();
    let mut r: usize = 0;
    let mut i: usize = 0;
    while i < n
        invariant
            i <= n,
            n == c@.len(),
            r == long_run_count(c@.take(i as int), vowel_pred()),
            r <= i,
        decreases n - i,
    {
        proof {
            lemma_long_run_count_step(c@, vowel_pred(), i as int);
        }
        if i >= 1 && exec_is_vowel(c[i - 1]) && exec_is_vowel(c[i]) && (i == 1 || !exec_is_vowel(
            c[i - 2],
        )) {
            r = r + 1;
        }
        i = i + 1;
    }
    proof {
        assert(c@.take(n as int) =~= c@);
    }
    r
}

/// The syllable estimate of a word given as characters.
pub fn count_syllables_chars(w: &Vec<char>) -> (r: usize)
    ensures
        r == spec_count_syllables(w@),
{
    let c = clean_chars(w);
    let n = c.len();
    if n == 0 {
        return 0;
    }
    let raw = count_vowel_runs(&c);
    let last = c[n - 1];
    let silent = (last == 'e' || last == 'E') && raw > 1 && !(n >= 2 && (c[n - 2] == 'l' || c[n
        - 2] == 'L'));
    proof {
        assert(c@.last() == c@[n - 1]);
        assert(silent == has_silent_e(c@));
    }
    let base = if silent {
        raw - 1
    } else {
        raw
    };
    let long = count_long_vowel_runs(&c);
    if base > long {
        base - long
    } else {
        1
    }
}

/// Whether a word given as characters is complex for the given syllable
/// estimate.
pub fn is_complex_chars(w: &Vec<char>, syllables: usize) -> (b: bool)
    ensures
        b == spec_is_complex_word(w@, syllables as int),
{
    if syllables < 3 {
        return false;
    }
    let c = clean_chars(w);
    let n = c.len();
    let ed = n >= 2 && (c[n - 2] == 'e' || c[n - 2] == 'E') && (c[n - 1] == 'd' || c[n - 1] == 'D');
    let es = n >= 2 && (c[n - 2] == 'e' || c[n - 2] == 'E') && (c[n - 1] == 's' || c[n - 1] == 'S');
    let ing = n >= 3 && (c[n - 3] == 'i' || c[n - 3] == 'I') && (c[n - 2] == 'n' || c[n - 2] == 'N')
        && (c[n - 1] == 'g' || c[n - 1] == 'G');
    !ed && !es && !ing
}

} // verus!
