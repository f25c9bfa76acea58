//! The string literal decoder.

pub mod laws;
pub mod parsers;
pub mod syntax;
pub mod types;
