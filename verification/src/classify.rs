//! Character classification: sentence terminators, letters, vowels and the
//! characters that may extend a word.

use vstd::prelude::*;
use vstd::string::StrSliceExecFns;

verus! {

/// A character that ends a sentence.  One or more of these in a row form a
/// single sentence boundary.
pub open spec fn is_sentence_terminator(c: char) -> bool {
    c == '.' || c == '!' || c == '?'
}

/// An ASCII letter.  Word tokens are maximal runs of these.
pub open spec fn is_ascii_letter(c: char) -> bool {
    ('a' <= c && c <= 'z') || ('A' <= c && c <= 'Z')
}

/// An ASCII decimal digit.
pub open spec fn is_ascii_digit_char(c: char) -> bool {
    '0' <= c && c <= '9'
}

/// A vowel for syllable estimation, in either case.  `y` counts as a vowel
/// here.
pub open spec fn is_vowel(c: char) -> bool {
    c == 'a' || c == 'e' || c == 'i' || c == 'o' || c == 'u' || c == 'y'
        || c == 'A' || c == 'E' || c == 'I' || c == 'O' || c == 'U' || c == 'Y'
}

/// Whether a character beyond ASCII has the Unicode `Alphabetic` property.
pub uninterp spec fn unicode_alpha(c: char) -> bool;

/// The `Alphabetic` property of a character: decided outright on ASCII,
/// named by `unicode_alpha` beyond it.
pub open spec fn is_alpha(c: char) -> bool {
    if c <= '\x7f' {
        is_ascii_letter(c)
    } else {
        unicode_alpha(c)
    }
}

/// Relies on `char::is_alphabetic`: it reports the Unicode `Alphabetic`
/// property, which on ASCII characters holds exactly of the letters
/// `a`-`z` and `A`-`Z`; on characters beyond ASCII its result is the named
/// `unicode_alpha`.
#[verifier::external_body]
pub fn exec_is_alpha(c: char) -> (b: bool)
    ensures
        b == is_alpha(c),
        c > '\x7f' ==> b == unicode_alpha(c),
{
    c.is_alphabetic()
}

/// A character that can extend a word: a word token must not touch one on
/// either side.  Besides alphabetic characters, digits and the underscore
/// glue themselves to an adjacent run of letters and so disqualify it as a
/// word.
pub open spec fn is_word_char(c: char) -> bool {
    is_alpha(c) || is_ascii_digit_char(c) || c == '_'
}

pub fn exec_is_sentence_terminator(c: char) -> (b: bool)
    ensures
        b == is_sentence_terminator(c),
{
    c == '.' || c == '!' || c == '?'
}

pub fn exec_is_ascii_letter(c: char) -> (b: bool)
    ensures
        b == is_ascii_letter(c),
{
    ('a' <= c && c <= 'z') || ('A' <= c && c <= 'Z')
}

pub fn exec_is_vowel(c: char) -> (b: bool)
    ensures
        b == is_vowel(c),
{
    c == 'a' || c == 'e' || c == 'i' || c == 'o' || c == 'u' || c == 'y'
        || c == 'A' || c == 'E' || c == 'I' || c == 'O' || c == 'U' || c == 'Y'
}

pub fn exec_is_word_char(c: char) -> (b: bool)
    ensures
        b == is_word_char(c),
{
    exec_is_alpha(c) || ('0' <= c && c <= '9') || c == '_'
}

/// The characters of a string, in order.
pub fn chars_of(s: &str) -> (v: Vec<char>)
    ensures
        v@ == s@,
{
    let n = s.unicode_len();
    let mut v: Vec<char> = Vec::new();
    let mut i: usize = 0;
    while i < n
        invariant
            i <= n,
            n == s@.len(),
            v@ == s@.take(i as int),
        decreases n - i,
    {
        v.push(s.get_char(i));
        i = i + 1;
        proof {
            assert(s@.take(i as int) =~= s@.take(i - 1) + seq![s@[i - 1]]);
        }
    }
    proof {
        assert(s@.take(n as int) =~= s@);
    }
    v
}

} // verus!
