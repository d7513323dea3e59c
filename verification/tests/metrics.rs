use readability::TextAnalyzer;

#[test]
fn test_empty_text() {
    let analyzer = TextAnalyzer::new();
    let metrics = analyzer.analyze_text("");
    assert_eq!(metrics.word_count, 0);
    // With no words the per-word scores have no inputs, so the front end
    // fixes each of them, the Gunning Fog index included, at zero.
    assert!(!metrics.formulas_defined());
}

#[test]
fn test_simple_sentence() {
    let analyzer = TextAnalyzer::new();
    let metrics = analyzer.analyze_text("The cat sat on the mat.");
    assert_eq!(metrics.word_count, 6);
    assert_eq!(metrics.sentence_count, 1);
}

#[test]
fn test_degenerate_empty_counts() {
    let analyzer = TextAnalyzer::new();
    let metrics = analyzer.analyze_text("");
    assert_eq!(metrics.word_count, 0);
    assert_eq!(metrics.sentence_count, 1);
    assert_eq!(metrics.syllable_count, 0);
    assert_eq!(metrics.complex_word_count, 0);
    assert_eq!(metrics.character_count, 0);
    assert!(!metrics.smog_defined());
}

#[test]
fn test_whitespace_only() {
    let analyzer = TextAnalyzer::new();
    let metrics = analyzer.analyze_text("   \t  \n  ");
    assert_eq!(metrics.word_count, 0);
    assert_eq!(metrics.sentence_count, 1);
    assert_eq!(metrics.syllable_count, 0);
    assert_eq!(metrics.complex_word_count, 0);
    assert_eq!(metrics.character_count, 0);
    assert!(!metrics.formulas_defined());
}

#[test]
fn test_terminator_runs_collapse() {
    let analyzer = TextAnalyzer::new();
    let metrics = analyzer.analyze_text("Wait... what?! Really.");
    assert_eq!(metrics.sentence_count, 3);
    assert_eq!(metrics.word_count, 3);
}

#[test]
fn test_sentence_floor_without_punctuation() {
    let analyzer = TextAnalyzer::new();
    let metrics = analyzer.analyze_text("just some words");
    assert_eq!(metrics.sentence_count, 1);
    assert_eq!(metrics.word_count, 3);
}

#[test]
fn test_digits_glue_to_letter_runs() {
    let analyzer = TextAnalyzer::new();
    // A letter run touching a digit or an underscore has no word boundary
    // there, so "abc1def" holds no word at all.
    let metrics = analyzer.analyze_text("abc1def");
    assert_eq!(metrics.word_count, 0);
    assert_eq!(metrics.sentence_count, 1);
    assert_eq!(metrics.character_count, 6);
    let metrics = analyzer.analyze_text("some_name");
    assert_eq!(metrics.word_count, 0);
    assert_eq!(metrics.character_count, 8);
}

#[test]
fn test_apostrophe_splits_words() {
    let analyzer = TextAnalyzer::new();
    let metrics = analyzer.analyze_text("it's ok");
    assert_eq!(metrics.word_count, 3);
    assert_eq!(metrics.character_count, 5);
}

#[test]
fn test_character_count_counts_all_letters() {
    let analyzer = TextAnalyzer::new();
    let metrics = analyzer.analyze_text("The cat sat on the mat.");
    assert_eq!(metrics.character_count, 17);
    // An accented letter counts as a character, yet it glues itself to the
    // adjacent ASCII run, which therefore is not a word.
    let metrics = analyzer.analyze_text("caf\u{e9}");
    assert_eq!(metrics.character_count, 4);
    assert_eq!(metrics.word_count, 0);
}

#[test]
fn test_analyze_repeatable() {
    let analyzer = TextAnalyzer::new();
    let text = "Extraordinary complications arise. Often!";
    let first = analyzer.analyze_text(text);
    let second = analyzer.analyze_text(text);
    assert_eq!(first, second);
}

#[test]
fn test_complex_word_counting() {
    let analyzer = TextAnalyzer::new();
    let metrics = analyzer.analyze_text(
        "Extraordinary complications arise from miscellaneous circumstances.",
    );
    assert_eq!(metrics.word_count, 6);
    assert_eq!(metrics.sentence_count, 1);
    // circumstances ends in "es" and arise and from are short, so three
    // complex words remain.
    assert_eq!(metrics.complex_word_count, 3);
    assert_eq!(metrics.syllable_count, 17);
    assert_eq!(metrics.character_count, 61);
}

#[test]
fn test_smog_validity_gate() {
    let analyzer = TextAnalyzer::new();
    let below = "Go on now. ".repeat(29);
    let metrics = analyzer.analyze_text(&below);
    assert_eq!(metrics.sentence_count, 29);
    assert!(!metrics.smog_defined());
    let at = "Go on now. ".repeat(30);
    let metrics = analyzer.analyze_text(&at);
    assert_eq!(metrics.sentence_count, 30);
    assert!(metrics.smog_defined());
    assert!(metrics.formulas_defined());
}

#[test]
fn test_formula_inputs_for_long_text() {
    let analyzer = TextAnalyzer::new();
    let text = "The cat sat on the mat. ".repeat(30);
    let metrics = analyzer.analyze_text(&text);
    // These counts feed the four closed-form scores: 180 words over 30
    // sentences, one syllable per word and no complex word.
    assert_eq!(metrics.word_count, 180);
    assert_eq!(metrics.sentence_count, 30);
    assert_eq!(metrics.syllable_count, 180);
    assert_eq!(metrics.complex_word_count, 0);
    assert!(metrics.formulas_defined());
    assert!(metrics.smog_defined());
}

#[test]
fn test_aggregate_bounds() {
    let analyzer = TextAnalyzer::new();
    let metrics = analyzer.analyze_text("Strengths, rhythms; a beautiful? anomaly!!");
    assert!(metrics.sentence_count >= 1);
    assert!(metrics.complex_word_count <= metrics.word_count);
    assert!(metrics.syllable_count >= metrics.word_count);
}
