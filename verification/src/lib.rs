//! Finds likely misspellings in the identifiers, property names, comments and
//! string fragments of parsed source code.
//!
//! A walk over the syntax tree of a file picks out the candidate texts
//! ([`parsing::parser`], over the tree model of [`parsing::syntax_tree`]).
//! Each text is cut into natural-language words
//! ([`parsing::word_separator`], with the splits of [`parsing::separators`]
//! and [`parsing::letter_case`]), the words are looked up in a
//! [`dictionary::Dictionary`], and [`classifier::is_typo`] decides whether
//! the text counts as a typo. The counts of a file and the sums over a run
//! are in [`report`].

pub mod text;
pub mod dictionary;
pub mod parsing;
pub mod classifier;
pub mod report;
