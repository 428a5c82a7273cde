use vstd::prelude::*;
use crate::numeral::ParseFailure;

verus! {

/// Why a string was not accepted as a Roman numeral.
#[derive(Debug, PartialEq, Eq, Clone, Copy)]
pub enum NumeralError<'a> {
    /// A character outside `I V X L C D M`; the first one met, left to right.
    InvalidCharacter(char),
    /// Every character is a symbol, but their arrangement is not a numeral.
    /// Carries the whole input.
    InvalidNumeral(&'a str),
}

/// Relies on `String::push`: appends one character at the end.
#[verifier::external_body]
fn push_char(s: &mut String, c: char)
    ensures
        final(s)@ == old(s)@.push(c),
{
    s.push(c)
}

impl<'a> View for NumeralError<'a> {
    type V = ParseFailure;

    open spec fn view(&self) -> ParseFailure {
        match *self {
            NumeralError::InvalidCharacter(c) => ParseFailure::InvalidCharacter(c),
            NumeralError::InvalidNumeral(t) => ParseFailure::InvalidNumeral(t@),
        }
    }
}

/// A parse result seen over plain values.
pub open spec fn outcome(r: Result<u64, NumeralError<'_>>) -> Result<nat, ParseFailure> {
    match r {
        Ok(v) => Ok(v as nat),
        Err(e) => Err(e@),
    }
}

impl<'a> NumeralError<'a> {
    /// A human-readable description of the error.
    pub fn message(&self) -> (r: String)
        ensures
            match *self {
                NumeralError::InvalidCharacter(c) => r@ == "Invalid character: "@.push(c),
                NumeralError::InvalidNumeral(t) => r@ == "Invalid numeral: "@ + t@,
            },
    {
        match *self {
            NumeralError::InvalidCharacter(c) => {
                let mut m = String::from_str("Invalid character: ");
                push_char(&mut m, c);
                m
            },
            NumeralError::InvalidNumeral(t) => {
                let m = String::from_str("Invalid numeral: ");
                m.concat(t)
            },
        }
    }
}

} // verus!
