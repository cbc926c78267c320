//! From source text to candidate words: the syntax-tree walk and the word
//! segmentation.

pub mod syntax_tree;
pub mod parser;
pub mod separators;
pub mod letter_case;
pub mod word_separator;
