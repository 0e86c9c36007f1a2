//! The seed language: functions over three primitive types whose parameter and result types are
//! inferred, compiled to Rust.
pub mod ast;
pub mod checker;
pub mod comments;
pub mod compile;
pub mod completeness;
pub mod deriving;
pub mod diagnostics;
pub mod emit;
pub mod emitted;
pub mod evaluation;
pub mod faithful;
pub mod grammar;
pub mod inference;
pub mod lexemes;
pub mod lexer;
pub mod lines;
pub mod lowering;
pub mod matching;
pub mod meaning;
pub mod parser;
pub mod pieces;
pub mod progress;
pub mod reading;
pub mod rust;
pub mod safety;
pub mod solution;
pub mod soundness;
pub mod spelling;
pub mod syntax;
pub mod typed;
pub mod typing;
pub mod whole;
pub mod writing;
