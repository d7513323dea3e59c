use readability::TextAnalyzer;

#[test]
fn test_syllable_counting() {
    let analyzer = TextAnalyzer::new();
    assert_eq!(analyzer.count_syllables("cat"), 1);
    assert_eq!(analyzer.count_syllables("water"), 2);
    // "beautiful" has the vowel runs "eau", "i" and "u"; the long-run
    // correction then takes one back for "eau", leaving two.
    assert_eq!(analyzer.count_syllables("beautiful"), 2);
}

#[test]
fn test_syllable_edge_cases() {
    let analyzer = TextAnalyzer::new();
    // A word without an alphabetic character cleans to nothing.
    assert_eq!(analyzer.count_syllables(""), 0);
    assert_eq!(analyzer.count_syllables("123"), 0);
    assert_eq!(analyzer.count_syllables("!!!"), 0);
    // y is a vowel here.
    assert_eq!(analyzer.count_syllables("rhythm"), 1);
    // A trailing "le" keeps its e.
    assert_eq!(analyzer.count_syllables("apple"), 2);
    // A silent trailing e is taken back.
    assert_eq!(analyzer.count_syllables("make"), 1);
    // A word with no vowel at all is still one syllable.
    assert_eq!(analyzer.count_syllables("tsk"), 1);
}

#[test]
fn test_syllable_corrections_floor_at_one() {
    let analyzer = TextAnalyzer::new();
    // Two vowel runs, both long, and a silent trailing e: the corrections
    // overshoot and the estimate is floored at one.
    assert_eq!(analyzer.count_syllables("oobtee"), 1);
}

#[test]
fn test_syllables_ignore_case_and_trim() {
    let analyzer = TextAnalyzer::new();
    assert_eq!(analyzer.count_syllables("WATER"), 2);
    assert_eq!(analyzer.count_syllables("--Water!!"), 2);
    assert_eq!(analyzer.count_syllables("OOBTEE"), 1);
}

#[test]
fn test_complex_word_predicate() {
    let analyzer = TextAnalyzer::new();
    let syl = analyzer.count_syllables("extraordinary");
    assert_eq!(syl, 4);
    assert!(analyzer.is_complex_word("extraordinary", syl));
    // Three syllables or more, but a common inflectional suffix.
    let syl = analyzer.count_syllables("understanding");
    assert!(syl >= 3);
    assert!(!analyzer.is_complex_word("understanding", syl));
    let syl = analyzer.count_syllables("complicated");
    assert!(syl >= 3);
    assert!(!analyzer.is_complex_word("complicated", syl));
    let syl = analyzer.count_syllables("circumstances");
    assert!(syl >= 3);
    assert!(!analyzer.is_complex_word("circumstances", syl));
    // Too few syllables.
    assert!(!analyzer.is_complex_word("cat", 1));
    // The suffix check reads the cleaned word, whatever the case.
    assert!(!analyzer.is_complex_word("UNDERSTANDING!", 4));
}
