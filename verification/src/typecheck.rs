//! The type checker of the full language: annotated functions over structs, enums, generic types
//! and function values, with effects and the capabilities they need.
pub mod acceptance;
pub mod boundary;
pub mod check;
pub mod checker;
pub mod declarations;
pub mod diagnostics;
pub mod effects;
pub mod generics;
pub mod imports;
pub mod laws;
pub mod matching;
pub mod model;
pub mod needs;
pub mod opening;
pub mod program;
pub mod purity;
pub mod registration;
pub mod size;
pub mod soundness;
pub mod stability;
pub mod substitution;
pub mod typed;
pub mod typing;
pub mod values;
pub mod variants;
