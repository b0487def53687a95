//! The lexer, the expression tree, its checks and its texts.
pub mod ast;
pub mod function;
pub mod item;
pub mod lex;
pub mod matcher;
pub mod printer;
pub mod token;
pub mod value;
