//! A PromQL lexer and expression tree: label matchers, tokens, the lexer, the checks of
//! expressions and their texts, durations, quoted strings and number literals.
pub mod label;
pub mod parser;
pub mod util;
