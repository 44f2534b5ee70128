//! Front end of a small scripting language: a lexical scanner that turns
//! source text into classified tokens, a flat name-to-value environment, and
//! a statement evaluator that walks the token stream directly, interpreting
//! `var` declarations, assignments, reads, and left-to-right integer
//! arithmetic without building a syntax tree.
//!
//! Every executable function is specified against a mathematical model:
//! the scanner against a recursive specification over the source characters,
//! the evaluator against a recursive specification over the token sequence.

pub mod environment;
pub mod interpreter;
pub mod laws;
pub mod render;
pub mod scanner;
