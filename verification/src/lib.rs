//! A compiler for Emela, a small language in which effects are marked and capabilities declared.
//!
//! [`seed`] is a complete compiler of the core of the language: from source text by inferred types
//! to a Rust program. [`lexer`] and [`typecheck`] are the front end of the full language, with
//! annotated types, structs, enums, function values, imports and capabilities.
pub mod ascii;
pub mod ast;
pub mod bytes;
pub mod capability;
pub mod cli;
pub mod commands;
pub mod error;
pub mod lexemes;
pub mod lexer;
pub mod lines;
pub mod names;
pub mod platform;
pub mod seed;
pub mod slots;
pub mod spelling;
pub mod text;
pub mod typecheck;
pub mod types;
