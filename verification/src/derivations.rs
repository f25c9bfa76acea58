//! The structural parser: the nested list and tuple grammar of a descriptor.

pub mod failures;
pub mod laws;
pub mod locality;
pub mod parsers;
pub mod roundtrip;
pub mod syntax;
pub mod types;
pub mod writing;
