use vstd::prelude::*;
use vstd::utf8::{decode_utf8, encode_utf8};
use crate::ast::ProgramView;
use crate::errors::ParseError;
use crate::ast::Program;
use crate::lexer::{lex, Lexer};
use crate::parser::{program_at, Parser};
use crate::report::{lexer_report, lexer_report_of, parser_report, parser_report_of, Report};
use crate::source_file::SourceFile;
use crate::span::Span;
use crate::token_collection::TokenCollection;
use crate::tokens::{tokens_fit, Token};

verus! {

/// What the lexer stage hands on: the tokens, one line for each token where
/// they were asked for, and one report for each error.
pub struct Lexed {
    pub tokens: Vec<Token>,
    pub lines: Vec<String>,
    pub reports: Vec<Report>,
}

/// The line that shows the token `token` of the text `bytes`.
pub open spec fn line_of(bytes: Seq<u8>, token: Token) -> Seq<char> {
    Token::explanation(
        token.kind,
        token.span,
        decode_utf8(bytes.subrange(token.span.start as int, token.span.start + token.span.len)),
    )
}

/// One line for each token of `tokens`, in their order.
pub fn explain_tokens(tokens: &Vec<Token>, source: &str) -> (lines: Vec<String>)
    requires
        tokens_fit(tokens@, encode_utf8(source@)),
    ensures
        lines@.len() == tokens@.len(),
        forall|i: int|
            0 <= i < tokens@.len() ==> (#[trigger] lines@[i])@ == line_of(
                encode_utf8(source@),
                tokens@[i],
            ),
{
    let mut lines: Vec<String> = Vec::new();
    let mut i: usize = 0;
    while i < tokens.len()
        invariant
            i <= tokens@.len(),
            tokens_fit(tokens@, encode_utf8(source@)),
            lines@.len() == i,
            forall|k: int|
                0 <= k < i ==> (#[trigger] lines@[k])@ == line_of(
                    encode_utf8(source@),
                    tokens@[k],
                ),
        decreases tokens@.len() - i,
    {
        let line = tokens[i].explain(source);
        lines.push(line);
        i = i + 1;
    }
    lines
}

/// Lexes the text of `file`. The tokens are those of the text; with `explain`
/// there is a line for each of them, else none; and there is a report for
/// each error. The tokens are to be trusted only where there is no report.
pub fn lex_file(file: &SourceFile, explain: bool) -> (r: Lexed)
    ensures
        r.tokens@ == lex(file.bytes()).0,
        tokens_fit(r.tokens@, file.bytes()),
        r.lines@.len() == (if explain {
            r.tokens@.len()
        } else {
            0
        }),
        forall|i: int|
            0 <= i < r.lines@.len() ==> (#[trigger] r.lines@[i])@ == line_of(
                file.bytes(),
                r.tokens@[i],
            ),
        r.reports@.len() == lex(file.bytes()).1.len(),
        forall|i: int|
            0 <= i < r.reports@.len() ==> (#[trigger] r.reports@[i])@ == lexer_report_of(
                lex(file.bytes()).1[i],
            ),
{
    let text = file.source.as_str();
    let mut lexer = Lexer::new(text);
    let (tokens, errors) = lexer.run();
    let lines = if explain {
        explain_tokens(&tokens, text)
    } else {
        Vec::new()
    };
    let mut reports: Vec<Report> = Vec::new();
    let mut i: usize = 0;
    while i < errors.len()
        invariant
            i <= errors@.len(),
            reports@.len() == i,
            forall|k: int|
                0 <= k < i ==> (#[trigger] reports@[k])@ == lexer_report_of(errors@[k]),
        decreases errors@.len() - i,
    {
        reports.push(lexer_report(&errors[i]));
        i = i + 1;
    }
    Lexed { tokens, lines, reports }
}

/// Parses `tokens`, which were cut from the text of `file`, as one program.
/// An error comes as the report that shows it.
pub fn parse_file(file: &SourceFile, tokens: Vec<Token>) -> (r: Result<Program, Report>)
    requires
        tokens_fit(tokens@, file.bytes()),
    ensures
        match r {
            Ok(program) => program_at(tokens@, file.bytes(), 0).0 == Ok::<ProgramView, ParseError>(
                program@,
            ),
            Err(report) => program_at(tokens@, file.bytes(), 0).0 is Err && report@
                == parser_report_of(
                program_at(tokens@, file.bytes(), 0).0->Err_0,
                Span { unit: file.id, start: file.length, len: 0 },
            ),
        },
{
    let mut parser = Parser::new(TokenCollection::new(tokens), file.source.as_str());
    match parser.run() {
        Ok(program) => Ok(program),
        Err(error) => Err(parser_report(&error, &file.eof())),
    }
}

} // verus!
