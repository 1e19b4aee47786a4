//! Fuzzy multi-word search patterns built from highlighted words.
//!
//! A host shows some text, the user highlights words in it, and the highlighted
//! words become a [`Pattern`] that compiles to a regular expression:
//!
//! * [`tokenizer`] says what a word is and where the words of a text lie;
//! * [`selection`] holds highlighted words and puts them in the order of the text;
//! * [`segmenter`] groups them into phrases and the gaps between them;
//! * [`pattern`] is the pattern tree, and [`compiler`] turns a tree into a
//!   regular expression;
//! * [`engine`] runs a compiled expression over a text;
//! * [`builder`] keeps the selection buffer and the list of patterns of one host;
//! * [`text`] joins strings and writes numbers, and [`error`] says why no pattern
//!   was built.
//!
//! Storing the pattern list and making identifiers are left to the host.

pub mod builder;
pub mod compiler;
pub mod engine;
pub mod error;
pub mod pattern;
pub mod segmenter;
pub mod selection;
pub mod text;
pub mod tokenizer;

pub use builder::PatternBuilder;
pub use error::PatternError;
pub use pattern::{CompositeOperator, Pattern, PatternElement};
pub use segmenter::{Phrase, PreviewElement, PreviewKind};
pub use selection::SelectionSpan;
pub use tokenizer::{get_word_at_position, get_words_from_text, WordInfo};
