//! A small text-scanning toolkit for pulling structured tokens out of loosely
//! formatted lines: eager parse-or-fail numeric conversion, lazy extraction of
//! the signed or unsigned integers embedded in a string, and a cursor-style
//! incremental parser that consumes its text left to right via prefix and
//! suffix delimiters.
//!
//! All contracts speak about the character sequence view of the text. The
//! toolkit is meant for ASCII-structured input, where character positions and
//! byte positions coincide.

pub mod ints;
pub mod parse;
pub mod parser;
pub mod scalar;
pub mod search;

pub use ints::Ints;
pub use ints::IterUnwrap;
pub use ints::UInts;
pub use parse::Parse;
pub use parser::Parser;
pub use scalar::FromStrUnwrap;

pub use search::find_in;
pub use search::first_occur;
pub use search::has_occurrence;
pub use search::occurs_at;
