//! Preprocessor core for a SystemVerilog-family hardware description
//! language: evaluates conditional-compilation directives, maintains a
//! macro table, inlines file inclusions, and produces a flat output text
//! together with a byte-accurate interval map from every output position
//! back to its origin file and offset.

#![verifier::loop_isolation(false)]

pub mod range;
pub mod resolver;
pub mod defines;
pub mod text;
pub mod tree;
pub mod driver;
