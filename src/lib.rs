//! Parsing of Roman numerals into integers, with a verified contract that
//! pins down the value of every accepted numeral and the error for every
//! rejected one.

pub mod error;
pub mod numeral;
pub mod parse;
pub mod canonical;

pub use error::NumeralError;
pub use parse::parse_roman_numeral;
