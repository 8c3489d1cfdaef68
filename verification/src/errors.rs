use vstd::prelude::*;
use crate::tokens::{Token, TokenKind};

verus! {

/// Why a text is no 64-bit signed integer.
#[derive(Debug, PartialEq, Clone, Copy, Eq, Structural)]
pub enum IntParseError {
    /// The text is empty.
    Empty,
    /// The text holds a character that is no digit, or a misplaced sign.
    InvalidDigit,
    /// The number is too large for the integer type.
    PosOverflow,
    /// The number is too small for the integer type.
    NegOverflow,
    Unknown,
}

impl IntParseError {
    /// The name of the cause as it is written in this crate.
    pub open spec fn spec_name(self) -> Seq<char> {
        match self {
            IntParseError::Empty => "Empty"@,
            IntParseError::InvalidDigit => "InvalidDigit"@,
            IntParseError::PosOverflow => "PosOverflow"@,
            IntParseError::NegOverflow => "NegOverflow"@,
            IntParseError::Unknown => "Unknown"@,
        }
    }

    /// The name of the cause, as it is shown to a reader.
    pub fn name(&self) -> (r: &'static str)
        ensures
            r@ == self.spec_name(),
    {
        match self {
            IntParseError::Empty => "Empty",
            IntParseError::InvalidDigit => "InvalidDigit",
            IntParseError::PosOverflow => "PosOverflow",
            IntParseError::NegOverflow => "NegOverflow",
            IntParseError::Unknown => "Unknown",
        }
    }
}

/// The one error with which a parse ends.
#[derive(Debug, PartialEq, Eq)]
pub enum ParseError {
    /// The token that was found, and the kind that was expected in its place.
    SyntaxError(Token, TokenKind),
    /// The kind that was expected where the tokens end.
    UnexpectedEOF(TokenKind),
    /// A constant whose text is no 64-bit signed integer, and why.
    InvalidNumber(Token, IntParseError),
    /// The last of the tokens that follow a complete program.
    ExpectingEOF(Token),
}

pub type ErrorType = ParseError;

impl Clone for ParseError {
    fn clone(&self) -> (r: Self)
        ensures
            r == *self,
    {
        match self {
            ParseError::SyntaxError(found, expected) => ParseError::SyntaxError(
                found.clone(),
                *expected,
            ),
            ParseError::UnexpectedEOF(expected) => ParseError::UnexpectedEOF(*expected),
            ParseError::InvalidNumber(token, cause) => ParseError::InvalidNumber(
                token.clone(),
                *cause,
            ),
            ParseError::ExpectingEOF(token) => ParseError::ExpectingEOF(token.clone()),
        }
    }
}

} // verus!
