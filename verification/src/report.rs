use vstd::prelude::*;
use vstd::string::StringExecFns;
use crate::errors::ParseError;
use crate::lexer::LexerError;
use crate::span::Span;

verus! {

/// A remark on one place of the text.
#[derive(Debug, PartialEq, Eq)]
pub struct Label {
    pub span: Span,
    pub message: String,
}

/// What a renderer needs to show one error: the place, a code where the error
/// has one, the message, and the remarks on places of the text.
#[derive(Debug, PartialEq, Eq)]
pub struct Report {
    pub span: Span,
    pub code: Option<String>,
    pub message: String,
    pub labels: Vec<Label>,
}

/// A report with its texts as sequences of characters.
pub struct ReportView {
    pub span: Span,
    pub code: Option<Seq<char>>,
    pub message: Seq<char>,
    pub labels: Seq<(Span, Seq<char>)>,
}

impl View for Report {
    type V = ReportView;

    open spec fn view(&self) -> ReportView {
        ReportView {
            span: self.span,
            code: match self.code {
                Some(code) => Some(code@),
                None => None,
            },
            message: self.message@,
            labels: Seq::new(
                self.labels@.len(),
                |i: int| (self.labels@[i].span, self.labels@[i].message@),
            ),
        }
    }
}

/// The report of a lexer error.
pub open spec fn lexer_report_of(error: LexerError) -> ReportView {
    match error {
        LexerError::UnexpectedEofInsideComment(span) => ReportView {
            span,
            code: Some("L001"@),
            message: "Comment started but not finished before end of file."@,
            labels: seq![(span, "Comment starts here"@)],
        },
        LexerError::NestedComment(outer, inner) => ReportView {
            span: outer,
            code: Some("L002"@),
            message: "Unknown token."@,
            labels: seq![(outer, "Comment starts here"@), (inner, "Nested comment starts here"@)],
        },
        LexerError::UnknownToken(span) => ReportView {
            span,
            code: Some("L003"@),
            message: "Unknown token."@,
            labels: seq![(span, "Unknown token"@)],
        },
    }
}

/// The report of a parse error in a text that ends at `eof`.
pub open spec fn parser_report_of(error: ParseError, eof: Span) -> ReportView {
    match error {
        ParseError::UnexpectedEOF(wanted) => ReportView {
            span: eof,
            code: None,
            message: "Unexpected end of file, expected token '"@ + wanted.spec_name() + "'"@,
            labels: Seq::empty(),
        },
        ParseError::SyntaxError(found, wanted) => ReportView {
            span: found.span,
            code: None,
            message: "Syntax error. Expected token '"@ + wanted.spec_name() + "'"@,
            labels: Seq::empty(),
        },
        ParseError::InvalidNumber(found, cause) => ReportView {
            span: found.span,
            code: None,
            message: "Invalid constant: '"@ + cause.spec_name() + "'"@,
            labels: Seq::empty(),
        },
        ParseError::ExpectingEOF(token) => ReportView {
            span: token.span,
            code: None,
            message: "Expecting EOF"@,
            labels: seq![(token.span, "Unexpected token here."@)],
        },
    }
}

fn label(span: &Span, message: &str) -> (r: Label)
    ensures
        r.span == *span,
        r.message@ == message@,
{
    Label { span: span.clone(), message: message.to_owned() }
}

fn quoted(before: &str, name: &str) -> (r: String)
    ensures
        r@ == before@ + name@ + "'"@,
{
    let mut out = before.to_owned();
    out.append(name);
    out.append("'");
    out
}

/// What to show for a lexer error.
pub fn lexer_report(error: &LexerError) -> (r: Report)
    ensures
        r@ == lexer_report_of(*error),
{
    let mut labels: Vec<Label> = Vec::new();
    let report = match error {
        LexerError::UnexpectedEofInsideComment(span) => {
            labels.push(label(span, "Comment starts here"));
            Report {
                span: span.clone(),
                code: Some("L001".to_owned()),
                message: "Comment started but not finished before end of file.".to_owned(),
                labels,
            }
        },
        LexerError::NestedComment(outer, inner) => {
            labels.push(label(outer, "Comment starts here"));
            labels.push(label(inner, "Nested comment starts here"));
            Report {
                span: outer.clone(),
                code: Some("L002".to_owned()),
                message: "Unknown token.".to_owned(),
                labels,
            }
        },
        LexerError::UnknownToken(span) => {
            labels.push(label(span, "Unknown token"));
            Report {
                span: span.clone(),
                code: Some("L003".to_owned()),
                message: "Unknown token.".to_owned(),
                labels,
            }
        },
    };
    assert(report@.labels =~= lexer_report_of(*error).labels);
    report
}

/// What to show for a parse error in a text that ends at `eof`.
pub fn parser_report(error: &ParseError, eof: &Span) -> (r: Report)
    ensures
        r@ == parser_report_of(*error, *eof),
{
    let mut labels: Vec<Label> = Vec::new();
    let report = match error {
        ParseError::UnexpectedEOF(wanted) => Report {
            span: eof.clone(),
            code: None,
            message: quoted("Unexpected end of file, expected token '", wanted.name()),
            labels,
        },
        ParseError::SyntaxError(found, wanted) => Report {
            span: found.span.clone(),
            code: None,
            message: quoted("Syntax error. Expected token '", wanted.name()),
            labels,
        },
        ParseError::InvalidNumber(found, cause) => Report {
            span: found.span.clone(),
            code: None,
            message: quoted("Invalid constant: '", cause.name()),
            labels,
        },
        ParseError::ExpectingEOF(token) => {
            labels.push(label(&token.span, "Unexpected token here."));
            Report {
                span: token.span.clone(),
                code: None,
                message: "Expecting EOF".to_owned(),
                labels,
            }
        },
    };
    assert(report@.labels =~= parser_report_of(*error, *eof).labels);
    report
}

} // verus!
