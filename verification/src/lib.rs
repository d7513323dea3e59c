//! Readability metrics for plain text.
//!
//! One pass over the input yields word, sentence, syllable and complex-word
//! counts together with a count of alphabetic characters; a front end can
//! derive the usual readability scores from these counts.

pub mod analysis;
pub mod classify;
pub mod runs;
pub mod syllable;
pub mod tokens;

pub use analysis::TextAnalyzer;
pub use analysis::TextMetrics;
