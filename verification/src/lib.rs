//! A parser for the block structure of AsciiDoc documents.
//!
//! The source text is held in [`span::Span`] values, each of which records
//! where in the original document it starts (line, column and byte offset).
//! Block parsers consume spans line by line and hand back what they matched
//! together with the remaining input.

pub mod span;
pub mod text;
pub mod warnings;
pub mod blocks;
pub mod parser;
pub mod content;
pub mod attributes;
pub mod patterns;

pub use parser::Parser;
pub use span::Span;
