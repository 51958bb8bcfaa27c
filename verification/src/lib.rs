//! A lexical scanner for a small dynamic scripting language.
//!
//! The scanner walks the source text once, left to right, and turns it into
//! an ordered sequence of classified, line-tagged tokens, ending in a single
//! `Eof` token. Malformed input stops the scan with a line-tagged error.

pub mod error;
pub mod expr;
pub mod laws;
pub mod model;
pub mod scanner;
pub mod token;
