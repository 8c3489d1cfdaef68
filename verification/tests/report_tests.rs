use niamc::arguments::{Arguments, Cli, Mode};
use niamc::errors::{IntParseError, ParseError};
use niamc::lexer::LexerError;
use niamc::report::{lexer_report, parser_report, Label, Report};
use niamc::source_file::{Id, SourceFile};
use niamc::span::Span;
use niamc::stages::{explain_tokens, lex_file, parse_file};
use niamc::tokens::{Token, TokenKind};

fn label(span: Span, message: &str) -> Label {
    Label { span, message: message.to_string() }
}

#[test]
fn lexer_errors_have_codes_and_labels() {
    assert_eq!(
        lexer_report(&LexerError::UnexpectedEofInsideComment(Span::new(4, 2))),
        Report {
            span: Span::new(4, 2),
            code: Some("L001".to_string()),
            message: "Comment started but not finished before end of file.".to_string(),
            labels: vec![label(Span::new(4, 2), "Comment starts here")],
        }
    );
    assert_eq!(
        lexer_report(&LexerError::NestedComment(Span::new(0, 2), Span::new(3, 2))),
        Report {
            span: Span::new(0, 2),
            code: Some("L002".to_string()),
            message: "Unknown token.".to_string(),
            labels: vec![
                label(Span::new(0, 2), "Comment starts here"),
                label(Span::new(3, 2), "Nested comment starts here"),
            ],
        }
    );
    assert_eq!(
        lexer_report(&LexerError::UnknownToken(Span::new(9, 3))),
        Report {
            span: Span::new(9, 3),
            code: Some("L003".to_string()),
            message: "Unknown token.".to_string(),
            labels: vec![label(Span::new(9, 3), "Unknown token")],
        }
    );
}

#[test]
fn parse_errors_name_what_was_expected() {
    let eof = Span::new_with_unit(30, 0, Id::Main);
    let found = Token::new(TokenKind::CloseBrace, Span::new(26, 1));
    assert_eq!(
        parser_report(&ParseError::UnexpectedEOF(TokenKind::Semicolon), &eof),
        Report {
            span: eof.clone(),
            code: None,
            message: "Unexpected end of file, expected token 'Semicolon'".to_string(),
            labels: vec![],
        }
    );
    assert_eq!(
        parser_report(&ParseError::SyntaxError(found.clone(), TokenKind::Semicolon), &eof),
        Report {
            span: Span::new(26, 1),
            code: None,
            message: "Syntax error. Expected token 'Semicolon'".to_string(),
            labels: vec![],
        }
    );
    assert_eq!(
        parser_report(&ParseError::InvalidNumber(found.clone(), IntParseError::PosOverflow), &eof),
        Report {
            span: Span::new(26, 1),
            code: None,
            message: "Invalid constant: 'PosOverflow'".to_string(),
            labels: vec![],
        }
    );
    assert_eq!(
        parser_report(&ParseError::ExpectingEOF(found.clone()), &eof),
        Report {
            span: Span::new(26, 1),
            code: None,
            message: "Expecting EOF".to_string(),
            labels: vec![label(Span::new(26, 1), "Unexpected token here.")],
        }
    );
}

#[test]
fn cause_names() {
    assert_eq!(IntParseError::Empty.name(), "Empty");
    assert_eq!(IntParseError::InvalidDigit.name(), "InvalidDigit");
    assert_eq!(IntParseError::PosOverflow.name(), "PosOverflow");
    assert_eq!(IntParseError::NegOverflow.name(), "NegOverflow");
    assert_eq!(IntParseError::Unknown.name(), "Unknown");
}

#[test]
fn lexing_a_file() {
    let file = SourceFile::from_string(Id::Main, "int x @@ ;");
    let lexed = lex_file(&file, true);
    assert_eq!(
        lexed.tokens,
        vec![
            Token::new(TokenKind::IntKeyword, Span::new(0, 3)),
            Token::new(TokenKind::Identifier, Span::new(4, 1)),
            Token::new(TokenKind::Semicolon, Span::new(9, 1)),
        ]
    );
    assert_eq!(
        lexed.lines,
        vec![
            "[IntKeyword]:[0..3] text: \"int\"",
            "[Identifier]:[4..5] text: \"x\"",
            "[Semicolon]:[9..10] text: \";\"",
        ]
    );
    assert_eq!(lexed.reports, vec![lexer_report(&LexerError::UnknownToken(Span::new(6, 2)))]);

    let quiet = lex_file(&file, false);
    assert_eq!(quiet.tokens, lexed.tokens);
    assert_eq!(quiet.lines, Vec::<String>::new());
    assert_eq!(quiet.reports, lexed.reports);

    let clean = lex_file(&SourceFile::from_string(Id::Main, "return 1;"), false);
    assert_eq!(clean.tokens.len(), 3);
    assert_eq!(clean.reports, vec![]);

    assert_eq!(explain_tokens(&vec![], ""), Vec::<String>::new());
}

#[test]
fn parsing_a_file() {
    let file = SourceFile::from_string(Id::Unit("a.c".to_string()), "int main(void) { return 7; }");
    let tokens = lex_file(&file, false).tokens;
    let program = parse_file(&file, tokens).unwrap();
    assert_eq!(
        format!("{:?}", program),
        "Program { function: Function { name: \"main\", body: Return(Constant(7)) } }"
    );

    let file = SourceFile::from_string(Id::Unit("a.c".to_string()), "int main(void) { return 7;");
    let tokens = lex_file(&file, false).tokens;
    assert_eq!(
        parse_file(&file, tokens).unwrap_err(),
        Report {
            span: Span::new_with_unit(26, 0, Id::Unit("a.c".to_string())),
            code: None,
            message: "Unexpected end of file, expected token 'CloseBrace'".to_string(),
            labels: vec![],
        }
    );

    let file = SourceFile::from_string(Id::Main, "int main(void) { return 7; } ;");
    let tokens = lex_file(&file, false).tokens;
    assert_eq!(
        parse_file(&file, tokens).unwrap_err(),
        parser_report(
            &ParseError::ExpectingEOF(Token::new(TokenKind::Semicolon, Span::new(29, 1))),
            &file.eof()
        )
    );
}

#[test]
fn the_first_switch_that_is_set_gives_the_mode() {
    assert_eq!(Mode::from_flags(true, false, false), Mode::Lexer);
    assert_eq!(Mode::from_flags(true, true, true), Mode::Lexer);
    assert_eq!(Mode::from_flags(false, true, false), Mode::Parse);
    assert_eq!(Mode::from_flags(false, true, true), Mode::Parse);
    assert_eq!(Mode::from_flags(false, false, true), Mode::CodeGen);
    assert_eq!(Mode::from_flags(false, false, false), Mode::CodeGen);
    assert!(Mode::Lexer < Mode::Parse && Mode::Parse < Mode::CodeGen);

    let cli = Cli::from_flags("a.c".to_string(), false, true, false);
    assert_eq!(cli.filename, "a.c");
    assert_eq!(cli.mode, Mode::Parse);
}

#[test]
fn arguments_settle_on_one_stage() {
    for (lex, parse, mode) in [
        (false, false, Mode::Parse),
        (true, false, Mode::Lexer),
        (false, true, Mode::Parse),
        (true, true, Mode::Parse),
    ] {
        let mut args = Arguments { explain: true, lex, parse, input: "a.c".to_string() };
        args.settle();
        assert_eq!(args.lex, mode == Mode::Lexer);
        assert_eq!(args.parse, mode == Mode::Parse);
        assert!(args.explain);
        assert_eq!(args.input, "a.c");
        assert_eq!(args.mode(), mode);
    }
}
