//! The analysis pass: one walk over the text yields every count of
//! `TextMetrics`.  The result is a function of the text alone, so two
//! analyses of equal strings return equal metrics.

use vstd::prelude::*;
use crate::classify::chars_of;
use crate::classify::exec_is_alpha;
use crate::classify::exec_is_ascii_letter;
use crate::classify::exec_is_sentence_terminator;
use crate::classify::exec_is_word_char;
use crate::classify::is_alpha;
use crate::classify::is_ascii_letter;
use crate::classify::is_sentence_terminator;
use crate::runs::count_matching;
use crate::runs::lemma_count_matching_step;
use crate::runs::lemma_run_count_step;
use crate::runs::run_count;
use crate::syllable::lemma_syllables_le_len;
use crate::syllable::lemma_word_min_syllables;
use crate::syllable::spec_clean;
use crate::syllable::spec_count_syllables;
use crate::syllable::spec_is_complex_word;
use crate::syllable::count_syllables_chars;
use crate::syllable::is_complex_chars;
use crate::tokens::all_letters;
use crate::tokens::lemma_letter_run_end_is;
use crate::tokens::lemma_words_are_letter_runs;
use crate::tokens::spec_words;
use crate::tokens::word_boundary_ok;
use crate::tokens::words_from;

verus! {

/// The sentence-terminator predicate, as a value, for run counting.
pub open spec fn term_pred() -> spec_fn(char) -> bool {
    |c: char| is_sentence_terminator(c)
}

/// The alphabetic predicate, as a value, for character counting.
pub open spec fn alpha_pred() -> spec_fn(char) -> bool {
    |c: char| is_alpha(c)
}

/// The number of word tokens in the text.
pub open spec fn spec_word_count(s: Seq<char>) -> nat {
    spec_words(s).len()
}

/// The number of sentence-terminator runs in the text.
pub open spec fn spec_sentence_runs(s: Seq<char>) -> nat {
    run_count(s, term_pred())
}

/// The sentence count: terminator runs, floored at one so that a text
/// without terminal punctuation still reports one sentence.
pub open spec fn spec_sentence_count(s: Seq<char>) -> nat {
    if spec_sentence_runs(s) == 0 {
        1
    } else {
        spec_sentence_runs(s)
    }
}

/// The number of alphabetic characters anywhere in the text, inside or
/// outside word tokens.
pub open spec fn spec_character_count(s: Seq<char>) -> nat {
    count_matching(s, alpha_pred())
}

/// The sum of the syllable estimates of the given words.
pub open spec fn syllable_total(ws: Seq<Seq<char>>) -> nat
    decreases ws.len(),
{
    if ws.len() == 0 {
        0
    } else {
        syllable_total(ws.drop_last()) + spec_count_syllables(ws.last())
    }
}

/// How many of the given words are complex under their own syllable
/// estimate.
pub open spec fn complex_total(ws: Seq<Seq<char>>) -> nat
    decreases ws.len(),
{
    if ws.len() == 0 {
        0
    } else {
        complex_total(ws.drop_last()) + (if spec_is_complex_word(
            ws.last(),
            spec_count_syllables(ws.last()) as int,
        ) {
            1nat
        } else {
            0nat
        })
    }
}

/// No more words are complex than there are words.
pub proof fn lemma_complex_le_words(ws: Seq<Seq<char>>)
    ensures
        complex_total(ws) <= ws.len(),
    decreases ws.len(),
{
    if ws.len() > 0 {
        lemma_complex_le_words(ws.drop_last());
    }
}

/// Words that are non-empty runs of ASCII letters carry at least one
/// syllable each, so their syllables are no fewer than the words.
pub proof fn lemma_syllables_ge_words(ws: Seq<Seq<char>>)
    requires
        forall|k: int| 0 <= k < ws.len() ==> (#[trigger] ws[k]).len() >= 1 && all_letters(ws[k]),
    ensures
        syllable_total(ws) >= ws.len(),
    decreases ws.len(),
{
    if ws.len() > 0 {
        assert(ws.drop_last() =~= ws.subrange(0, ws.len() - 1));
        assert(forall|k: int| 0 <= k < ws.drop_last().len() ==> ws.drop_last()[k] == ws[k]);
        lemma_syllables_ge_words(ws.drop_last());
        assert(ws.last() == ws[ws.len() - 1]);
        lemma_word_min_syllables(ws.last());
    }
}

/// The counts drawn from one text in a single pass.
///
/// `sentence_count` is always at least one; `complex_word_count` never
/// exceeds `word_count`; and since every word token carries at least one
/// syllable, `syllable_count` is never below `word_count`.
#[derive(Clone, Copy, Debug, PartialEq, Eq, Structural)]
pub struct TextMetrics {
    pub word_count: usize,
    pub sentence_count: usize,
    pub syllable_count: usize,
    pub complex_word_count: usize,
    pub character_count: usize,
}

impl TextMetrics {
    /// Whether the per-word and per-sentence scores (Gunning Fog,
    /// Flesch-Kincaid grade, Flesch reading ease) have their inputs: at
    /// least one word and one sentence.  Otherwise each of those scores is
    /// fixed at zero.
    pub fn formulas_defined(&self) -> (b: bool)
        ensures
            b <==> (self.word_count > 0 && self.sentence_count > 0),
    {
        self.word_count > 0 && self.sentence_count > 0
    }

    /// Whether the SMOG index may be reported: the formula is
    /// statistically valid only from thirty sentences up, and below that
    /// the score is fixed at zero.
    pub fn smog_defined(&self) -> (b: bool)
        ensures
            b <==> self.sentence_count >= 30,
    {
        self.sentence_count >= 30
    }
}

/// The analyzer.  It holds no state: every pattern it matches is a pure
/// function of the text.
pub struct TextAnalyzer {}

impl TextAnalyzer {
    pub fn new() -> (a: TextAnalyzer) {
        TextAnalyzer {  }
    }

    /// The syllable estimate of one word.  A word whose cleaned form is
    /// empty has no syllables; any other word has at least one.
    pub fn count_syllables(&self, word: &str) -> (n: usize)
        ensures
            n == spec_count_syllables(word@),
            spec_clean(word@).len() == 0 ==> n == 0,
            spec_clean(word@).len() > 0 ==> n >= 1,
    {
        let w = chars_of(word);
        count_syllables_chars(&w)
    }

    /// Whether a word with the given syllable estimate counts as complex:
    /// at least three syllables and no `ed`, `es` or `ing` ending on the
    /// cleaned word.
    pub fn is_complex_word(&self, word: &str, syllable_count: usize) -> (b: bool)
        ensures
            b == spec_is_complex_word(word@, syllable_count as int),
    {
        let w = chars_of(word);
        is_complex_chars(&w, syllable_count)
    }

    /// Analyze a text: count its words, sentence boundaries, syllables,
    /// complex words and alphabetic characters in one pass.
    pub fn analyze_text(&self, text: &str) -> (m: TextMetrics)
        ensures
            m.word_count == spec_word_count(text@),
            m.sentence_count == spec_sentence_count(text@),
            m.syllable_count == syllable_total(spec_words(text@)),
            m.complex_word_count == complex_total(spec_words(text@)),
            m.character_count == spec_character_count(text@),
            m.sentence_count >= 1,
            m.complex_word_count <= m.word_count,
            m.syllable_count >= m.word_count,
    {
        let cs = chars_of(text);
        let sruns = count_sentence_runs(&cs);
        let sentence_count: usize = if sruns == 0 {
            1
        } else {
            sruns
        };
        let character_count = count_alpha_chars(&cs);
        let n = cs.len();
        let ghost s = text@;
        let ghost mut found: Seq<Seq<char>> = Seq::empty();
        let mut word_count: usize = 0;
        let mut syllable_count: usize = 0;
        let mut complex_word_count: usize = 0;
        let mut i: usize = 0;
        proof {
            assert(spec_words(s) =~~= found + words_from(s, 0));
        }
        while i < n
            invariant
                i <= n,
                n == s.len(),
                cs@ == s,
                spec_words(s) == found + words_from(s, i as int),
                word_count == found.len(),
                syllable_count == syllable_total(found),
                complex_word_count == complex_total(found),
                word_count <= i,
                syllable_count <= i,
                complex_word_count <= word_count,
            decreases n - i,
        {
            if exec_is_ascii_letter(cs[i]) && (i == 0 || !exec_is_ascii_letter(cs[i - 1])) {
                let mut j: usize = i + 1;
                while j < n && exec_is_ascii_letter(cs[j])
                    invariant
                        i < j <= n,
                        n == s.len(),
                        cs@ == s,
                        forall|k: int| i <= k < j ==> is_ascii_letter(#[trigger] s[k]),
                    decreases n - j,
                {
                    j = j + 1;
                }
                proof {
                    lemma_letter_run_end_is(s, i as int, j as int);
                }
                let ok = (i == 0 || !exec_is_word_char(cs[i - 1])) && (j == n
                    || !exec_is_word_char(cs[j]));
                proof {
                    assert(ok == word_boundary_ok(s, i as int, j as int));
                }
                if ok {
                    let mut w: Vec<char> = Vec::new();
                    let mut k: usize = i;
                    while k < j
                        invariant
                            i <= k <= j <= n,
                            n == s.len(),
                            cs@ == s,
                            w@ == s.subrange(i as int, k as int),
                        decreases j - k,
                    {
                        w.push(cs[k]);
                        k = k + 1;
                        proof {
                            assert(s.subrange(i as int, k as int) =~= s.subrange(i as int, k - 1)
                                + seq![s[k - 1]]);
                        }
                    }
                    let syl = count_syllables_chars(&w);
                    let complex = is_complex_chars(&w, syl);
                    proof {
                        assert forall|k2: int| 0 <= k2 < w@.len() implies is_ascii_letter(
                            #[trigger] w@[k2],
                        ) by {
                            assert(w@[k2] == s[i + k2]);
                        }
                        lemma_word_min_syllables(w@);
                        lemma_syllables_le_len(w@);
                        assert(words_from(s, i as int) == seq![w@] + words_from(s, j as int));
                        assert(spec_words(s) =~~= found.push(w@) + words_from(s, j as int));
                        assert(found.push(w@).drop_last() =~= found);
                        assert(found.push(w@).last() == w@);
                    }
                    syllable_count = syllable_count + syl;
                    if complex {
                        complex_word_count = complex_word_count + 1;
                    }
                    word_count = word_count + 1;
                    proof {
                        found = found.push(w@);
                    }
                } else {
                    proof {
                        assert(words_from(s, i as int) == words_from(s, j as int));
                    }
                }
                i = j;
            } else {
                proof {
                    assert(words_from(s, i as int) == words_from(s, i + 1));
                }
                i = i + 1;
            }
        }
        proof {
            assert(words_from(s, n as int) =~~= Seq::<Seq<char>>::empty());
            assert(found + words_from(s, n as int) =~~= found);
            assert(found == spec_words(s));
            lemma_words_are_letter_runs(s, 0);
            lemma_complex_le_words(found);
            lemma_syllables_ge_words(found);
        }
        TextMetrics {
            word_count,
            sentence_count,
            syllable_count,
            complex_word_count,
            character_count,
        }
    }
}

/// How many maximal runs of sentence terminators occur in the text.
fn count_sentence_runs(cs: &Vec<char>) -> (r: usize)
    ensures
        r == spec_sentence_runs(cs@),
{
    let n = cs.len();
    let mut r: usize = 0;
    let mut i: usize = 0;
    while i < n
        invariant
            i <= n,
            n == cs@.len(),
            r == run_count(cs@.take(i as int), term_pred()),
            r <= i,
        decreases n - i,
    {
        proof {
            lemma_run_count_step(cs@, term_pred(), i as int);
        }
        if exec_is_sentence_terminator(cs[i]) && (i == 0 || !exec_is_sentence_terminator(
            cs[i - 1],
        )) {
            r = r + 1;
        }
        i = i + 1;
    }
    proof {
        assert(cs@.take(n as int) =~= cs@);
    }
    r
}

/// How many characters of the text are alphabetic.
fn count_alpha_chars(cs: &Vec<char>) -> (r: usize)
    ensures
        r == spec_character_count(cs@),
{
    let n = cs.len();
    let mut r: usize = 0;
    let mut i: usize = 0;
    while i < n
        invariant
            i <= n,
            n == cs@.len(),
            r == count_matching(cs@.take(i as int), alpha_pred()),
            r <= i,
        decreases n - i,
    {
        proof {
            lemma_count_matching_step(cs@, alpha_pred(), i as int);
        }
        if exec_is_alpha(cs[i]) {
            r = r + 1;
        }
        i = i + 1;
    }
    proof {
        assert(cs@.take(n as int) =~= cs@);
    }
    r
}

} // verus!
