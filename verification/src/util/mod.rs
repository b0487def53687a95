//! Durations, quoted strings, number literals, text helpers and walks over expressions.
pub mod duration;
pub mod number;
pub mod sort;
pub mod string;
pub mod text;
pub mod visitor;
