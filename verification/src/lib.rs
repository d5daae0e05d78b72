//! Lexical front end for a small scripting language: a single-pass scanner
//! that turns raw source bytes into a sequence of classified tokens together
//! with a list of recoverable diagnostics.

pub mod laws;
pub mod model;
pub mod scanner;
pub mod token;
