//! The query language: tokens, syntax trees, and their evaluation.

pub mod ast;
pub mod pattern_text;
pub mod values;
pub mod lexer;
pub mod matcher;
pub mod parser;
