use vstd::prelude::*;
use crate::errors::ParseError;
use crate::tokens::{Token, TokenKind};

verus! {

/// A finished sequence of tokens with a read cursor that only moves forward.
pub struct TokenCollection {
    pub tokens: Vec<Token>,
    pub index: usize,
}

/// What expecting a token of kind `kind` at place `at` of `tokens` gives: the
/// token there if it is of that kind, a syntax error if it is of another, and
/// an unexpected end where no token is left.
pub open spec fn expected(tokens: Seq<Token>, at: int, kind: TokenKind) -> Result<Token, ParseError> {
    if 0 <= at < tokens.len() {
        if tokens[at].kind == kind {
            Ok(tokens[at])
        } else {
            Err(ParseError::SyntaxError(tokens[at], kind))
        }
    } else {
        Err(ParseError::UnexpectedEOF(kind))
    }
}

impl TokenCollection {
    pub fn new(tokens: Vec<Token>) -> (r: TokenCollection)
        ensures
            r.tokens == tokens,
            r.index == 0,
    {
        TokenCollection { tokens, index: 0 }
    }

    /// The token at the cursor, which then moves on by one; nothing once all
    /// tokens are taken.
    pub fn take_token(&mut self) -> (r: Option<&Token>)
        ensures
            final(self).tokens == old(self).tokens,
            old(self).index < old(self).tokens@.len() ==> r == Some(
                &old(self).tokens@[old(self).index as int],
            ) && final(self).index == old(self).index + 1,
            old(self).index >= old(self).tokens@.len() ==> r is None && final(self).index == old(
                self,
            ).index,
    {
        if self.index < self.tokens.len() {
            let result = Some(&self.tokens[self.index]);
            self.index += 1;
            result
        } else {
            None
        }
    }

    /// Takes the next token and holds it against `kind`.
    pub fn expect(&mut self, kind: TokenKind) -> (r: Result<Token, ParseError>)
        ensures
            final(self).tokens == old(self).tokens,
            r == expected(old(self).tokens@, old(self).index as int, kind),
            final(self).index == (if old(self).index < old(self).tokens@.len() {
                old(self).index + 1
            } else {
                old(self).index as int
            }),
    {
        let actual = self.take_token();
        if let Some(actual_kind) = actual {
            if actual_kind.kind == kind {
                Ok(actual_kind.clone())
            } else {
                Err(ParseError::SyntaxError(actual_kind.clone(), kind))
            }
        } else {
            Err(ParseError::UnexpectedEOF(kind))
        }
    }

    /// Whether all tokens are taken.
    pub fn is_empty(&self) -> (r: bool)
        ensures
            r == (self.index >= self.tokens@.len()),
    {
        !(self.index < self.tokens.len())
    }

    /// The last token of the sequence, taken or not.
    pub fn last(&self) -> (r: Option<&Token>)
        ensures
            r == (if self.tokens@.len() > 0 {
                Some(&self.tokens@.last())
            } else {
                None
            }),
    {
        let n = self.tokens.len();
        if n > 0 {
            Some(&self.tokens[n - 1])
        } else {
            None
        }
    }
}

} // verus!
