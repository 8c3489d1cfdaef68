use vstd::prelude::*;
use vstd::string::StringSliceAdditionalSpecFns;
use vstd::utf8::{decode_utf8, encode_utf8_decode_utf8};
use crate::ast::{Expression, FunctionDefinition, FunctionView, Program, ProgramView, Statement};
use crate::errors::ParseError;
use crate::span::Span;
use crate::text::{slice_from, sliceable};
use crate::token_collection::{expected, TokenCollection};
use crate::tokens::{tokens_fit, Token, TokenKind};
use crate::utilities::{is_conversion_of, parse_number, radix10_i64};

verus! {

/// The characters of `bytes` that `span` covers.
pub open spec fn lexeme(bytes: Seq<u8>, span: Span) -> Seq<char> {
    decode_utf8(bytes.subrange(span.start as int, span.start + span.len))
}

/// `Expression := Constant`, read at place `at`: the expression or the error,
/// and the place of the cursor behind it.
pub open spec fn expression_at(tokens: Seq<Token>, bytes: Seq<u8>, at: int) -> (
    Result<Expression, ParseError>,
    int,
) {
    match expected(tokens, at, TokenKind::Constant) {
        Ok(token) => match radix10_i64(lexeme(bytes, token.span)) {
            Ok(num) => (Ok(Expression::Constant(num)), at + 1),
            Err(cause) => (Err(ParseError::InvalidNumber(token, cause)), at + 1),
        },
        Err(e) => (Err(e), moved(tokens, at)),
    }
}

/// The place of the cursor once a token was expected at place `at`.
pub open spec fn moved(tokens: Seq<Token>, at: int) -> int {
    if at < tokens.len() {
        at + 1
    } else {
        at
    }
}

/// `Statement := 'return' Expression ';'`, read at place `at`.
pub open spec fn statement_at(tokens: Seq<Token>, bytes: Seq<u8>, at: int) -> (
    Result<Statement, ParseError>,
    int,
) {
    match expected(tokens, at, TokenKind::ReturnKeyword) {
        Err(e) => (Err(e), moved(tokens, at)),
        Ok(_) => match expression_at(tokens, bytes, at + 1) {
            (Err(e), cursor) => (Err(e), cursor),
            (Ok(expr), _) => match expected(tokens, at + 2, TokenKind::Semicolon) {
                Err(e) => (Err(e), moved(tokens, at + 2)),
                Ok(_) => (Ok(Statement::Return(expr)), at + 3),
            },
        },
    }
}

/// The kinds that open a function definition, up to its body.
pub open spec fn function_head() -> Seq<TokenKind> {
    seq![
        TokenKind::IntKeyword,
        TokenKind::Identifier,
        TokenKind::OpenParen,
        TokenKind::VoidKeyword,
        TokenKind::CloseParen,
        TokenKind::OpenBrace,
    ]
}

/// The first of the places `at + k`, `k` from `from` on, whose token is not of
/// the kind `kinds[k]`, as the count `k`; the length of `kinds` if all are.
pub open spec fn first_mismatch(tokens: Seq<Token>, at: int, kinds: Seq<TokenKind>, from: int) -> int
    decreases kinds.len() - from,
{
    if from >= kinds.len() {
        kinds.len() as int
    } else if from >= 0 && expected(tokens, at + from, kinds[from]) is Ok {
        first_mismatch(tokens, at, kinds, from + 1)
    } else {
        from
    }
}

/// `Function := 'int' Identifier '(' 'void' ')' '{' Statement '}'`, read at
/// place `at`. The name is the text of the identifier.
pub open spec fn function_at(tokens: Seq<Token>, bytes: Seq<u8>, at: int) -> (
    Result<FunctionView, ParseError>,
    int,
) {
    let k = first_mismatch(tokens, at, function_head(), 0);
    if k < function_head().len() {
        (Err(expected(tokens, at + k, function_head()[k])->Err_0), moved(tokens, at + k))
    } else {
        match statement_at(tokens, bytes, at + 6) {
            (Err(e), cursor) => (Err(e), cursor),
            (Ok(body), _) => match expected(tokens, at + 9, TokenKind::CloseBrace) {
                Err(e) => (Err(e), moved(tokens, at + 9)),
                Ok(_) => (
                    Ok(FunctionView { name: lexeme(bytes, tokens[at + 1].span), body }),
                    at + 10,
                ),
            },
        }
    }
}

/// `Program := Function EOF`, read at place `at`. Tokens behind the function
/// are an error that names the last token of the sequence.
pub open spec fn program_at(tokens: Seq<Token>, bytes: Seq<u8>, at: int) -> (
    Result<ProgramView, ParseError>,
    int,
) {
    match function_at(tokens, bytes, at) {
        (Err(e), cursor) => (Err(e), cursor),
        (Ok(function), cursor) => if cursor >= tokens.len() {
            (Ok(ProgramView { function }), cursor)
        } else {
            (Err(ParseError::ExpectingEOF(tokens.last())), cursor)
        },
    }
}

/// What is known of the conversion of the text of the token at place `at`
/// once the parser has made it: the result is what the conversion owes that text.
pub open spec fn number_known(tokens: Seq<Token>, bytes: Seq<u8>, at: int) -> bool {
    is_conversion_of(
        lexeme(bytes, tokens[at].span),
        radix10_i64(lexeme(bytes, tokens[at].span)),
    )
}

/// `produced` and the cursor `cursor` are what a production owes.
pub open spec fn yields<T: View>(
    produced: Result<T, ParseError>,
    cursor: int,
    owed: (Result<T::V, ParseError>, int),
) -> bool {
    &&& cursor == owed.1
    &&& match produced {
        Ok(value) => owed.0 == Ok::<T::V, ParseError>(value@),
        Err(e) => owed.0 == Err::<T::V, ParseError>(e),
    }
}

/// A recursive-descent parser over a token collection and the text that the
/// tokens were cut from.
pub struct Parser<'a> {
    pub tokens: TokenCollection,
    pub contents: &'a str,
}

impl<'a> Parser<'a> {
    /// The span of every token can be cut out of the text.
    pub open spec fn wf(&self) -> bool {
        tokens_fit(self.tokens.tokens@, self.contents.spec_bytes())
    }

    pub fn new(tokens: TokenCollection, contents: &'a str) -> (r: Parser<'a>)
        ensures
            r.tokens == tokens,
            r.contents == contents,
    {
        Parser { tokens, contents }
    }

    /// The part of the text that `span` covers.
    pub fn get_text(&self, span: &Span) -> (r: &'a str)
        requires
            sliceable(self.contents.spec_bytes(), span.start as int, span.start + span.len),
        ensures
            r.spec_bytes() == self.contents.spec_bytes().subrange(
                span.start as int,
                span.start + span.len,
            ),
            r@ == lexeme(self.contents.spec_bytes(), *span),
    {
        let part = slice_from(self.contents, span.start, span.len);
        proof {
            encode_utf8_decode_utf8(part@);
        }
        part
    }

    /// Parses the tokens from the cursor on as one program.
    pub fn run(&mut self) -> (r: Result<Program, ParseError>)
        requires
            old(self).wf(),
        ensures
            final(self).contents == old(self).contents,
            final(self).tokens.tokens == old(self).tokens.tokens,
            yields(
                r,
                final(self).tokens.index as int,
                program_at(
                    old(self).tokens.tokens@,
                    old(self).contents.spec_bytes(),
                    old(self).tokens.index as int,
                ),
            ),
            r is Ok || r is Err && r->Err_0 is InvalidNumber ==> number_known(
                old(self).tokens.tokens@,
                old(self).contents.spec_bytes(),
                old(self).tokens.index + 7,
            ),
    {
        self.parse_program()
    }

    pub fn parse_expression(&mut self) -> (r: Result<Expression, ParseError>)
        requires
            old(self).wf(),
        ensures
            final(self).contents == old(self).contents,
            final(self).tokens.tokens == old(self).tokens.tokens,
            final(self).tokens.index as int == expression_at(
                old(self).tokens.tokens@,
                old(self).contents.spec_bytes(),
                old(self).tokens.index as int,
            ).1,
            r == expression_at(
                old(self).tokens.tokens@,
                old(self).contents.spec_bytes(),
                old(self).tokens.index as int,
            ).0,
            r is Ok || r is Err && r->Err_0 is InvalidNumber ==> number_known(
                old(self).tokens.tokens@,
                old(self).contents.spec_bytes(),
                old(self).tokens.index as int,
            ),
    {
        let token = self.tokens.expect(TokenKind::Constant)?;
        let text = self.get_text(&token.span);
        let num = parse_number(text, &token)?;
        Ok(Expression::Constant(num))
    }

    pub fn parse_statement(&mut self) -> (r: Result<Statement, ParseError>)
        requires
            old(self).wf(),
        ensures
            final(self).contents == old(self).contents,
            final(self).tokens.tokens == old(self).tokens.tokens,
            final(self).tokens.index as int == statement_at(
                old(self).tokens.tokens@,
                old(self).contents.spec_bytes(),
                old(self).tokens.index as int,
            ).1,
            r == statement_at(
                old(self).tokens.tokens@,
                old(self).contents.spec_bytes(),
                old(self).tokens.index as int,
            ).0,
            r is Ok || r is Err && r->Err_0 is InvalidNumber ==> number_known(
                old(self).tokens.tokens@,
                old(self).contents.spec_bytes(),
                old(self).tokens.index + 1,
            ),
    {
        self.tokens.expect(TokenKind::ReturnKeyword)?;
        let expr = self.parse_expression()?;
        self.tokens.expect(TokenKind::Semicolon)?;
        Ok(Statement::Return(expr))
    }

    pub fn parse_function(&mut self) -> (r: Result<FunctionDefinition, ParseError>)
        requires
            old(self).wf(),
        ensures
            final(self).contents == old(self).contents,
            final(self).tokens.tokens == old(self).tokens.tokens,
            yields(
                r,
                final(self).tokens.index as int,
                function_at(
                    old(self).tokens.tokens@,
                    old(self).contents.spec_bytes(),
                    old(self).tokens.index as int,
                ),
            ),
            r is Ok || r is Err && r->Err_0 is InvalidNumber ==> number_known(
                old(self).tokens.tokens@,
                old(self).contents.spec_bytes(),
                old(self).tokens.index + 7,
            ),
    {
        reveal_with_fuel(first_mismatch, 7);
        self.tokens.expect(TokenKind::IntKeyword)?;
        let id = self.tokens.expect(TokenKind::Identifier)?;
        let text = self.get_text(&id.span);
        self.tokens.expect(TokenKind::OpenParen)?;
        self.tokens.expect(TokenKind::VoidKeyword)?;
        self.tokens.expect(TokenKind::CloseParen)?;
        self.tokens.expect(TokenKind::OpenBrace)?;
        let statements = self.parse_statement()?;
        self.tokens.expect(TokenKind::CloseBrace)?;
        Ok(FunctionDefinition::Function { name: text.to_owned(), body: statements })
    }

    pub fn parse_program(&mut self) -> (r: Result<Program, ParseError>)
        requires
            old(self).wf(),
        ensures
            final(self).contents == old(self).contents,
            final(self).tokens.tokens == old(self).tokens.tokens,
            yields(
                r,
                final(self).tokens.index as int,
                program_at(
                    old(self).tokens.tokens@,
                    old(self).contents.spec_bytes(),
                    old(self).tokens.index as int,
                ),
            ),
            r is Ok || r is Err && r->Err_0 is InvalidNumber ==> number_known(
                old(self).tokens.tokens@,
                old(self).contents.spec_bytes(),
                old(self).tokens.index + 7,
            ),
    {
        let function_def = self.parse_function()?;
        if self.tokens.is_empty() {
            Ok(Program { function: function_def })
        } else {
            match self.tokens.last() {
                Some(token) => Err(ParseError::ExpectingEOF(token.clone())),
                None => Ok(Program { function: function_def }),
            }
        }
    }
}

} // verus!
