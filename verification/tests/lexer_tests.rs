use std::ops::Range;

use niamc::lexer::{Lexer, LexerError};
use niamc::span::Span;
use niamc::tokens::{Token, TokenKind};

#[test]
fn no_errors1() {
    let mut lexer = Lexer::new("  ");

    let results = lexer.collect_tokens();

    // No errors, but no results either
    assert_eq!(results.len(), 0);
    assert_eq!(lexer.errors.len(), 0);
}

#[test]
fn identifier() {
    let mut lexer = Lexer::new("aa a4");

    let results = lexer.collect_tokens();

    assert_eq!(results.len(), 2);
    assert_eq!(lexer.errors.len(), 0);
    assert_eq!(results[0].kind, TokenKind::Identifier);
    assert_eq!(results[0].span.range(), 0..2);

    assert_eq!(results[1].kind, TokenKind::Identifier);
    assert_eq!(results[1].span.range(), 3..5);
}

#[test]
fn at_sign_error() {
    let mut lexer = Lexer::new("return 0@1;");

    let results = lexer.collect_tokens();

    assert_eq!(results.len(), 4);
    assert_eq!(lexer.errors.len(), 1);
    assert_eq!(results[0].kind, TokenKind::ReturnKeyword);
    assert_eq!(results[0].span.range(), 0..6);
    assert_eq!(results[1].kind, TokenKind::Constant);
    assert_eq!(results[1].span.range(), 7..8);
    assert_eq!(results[2].kind, TokenKind::Constant);
    assert_eq!(results[2].span.range(), 9..10);
    assert_eq!(results[3].kind, TokenKind::Semicolon);
    assert_eq!(results[3].span.range(), 10..11);
}

#[test]
fn constant() {
    let mut lexer = Lexer::new("0 5");

    let results = lexer.collect_tokens();

    assert_eq!(results.len(), 2);
    assert_eq!(lexer.errors.len(), 0);
    assert_eq!(results[0].kind, TokenKind::Constant);
    assert_eq!(results[0].span.range(), 0..1);

    assert_eq!(results[1].kind, TokenKind::Constant);
    assert_eq!(results[1].span.range(), 2..3);
}

#[test]
fn int_keyword() {
    let mut lexer = Lexer::new("int 5");

    let results = lexer.collect_tokens();

    assert_eq!(results.len(), 2);
    assert_eq!(lexer.errors.len(), 0);
    assert_eq!(results[0].kind, TokenKind::IntKeyword);
    assert_eq!(results[0].span.range(), 0..3);

    assert_eq!(results[1].kind, TokenKind::Constant);
    assert_eq!(results[1].span.range(), 4..5);
}

#[test]
fn void_keyword() {
    let mut lexer = Lexer::new("void 5");

    let results = lexer.collect_tokens();

    assert_eq!(results.len(), 2);
    assert_eq!(lexer.errors.len(), 0);
    assert_eq!(results[0].kind, TokenKind::VoidKeyword);
    assert_eq!(results[0].span.range(), 0..4);

    assert_eq!(results[1].kind, TokenKind::Constant);
    assert_eq!(results[1].span.range(), 5..6);
}

#[test]
fn return_keyword() {
    let mut lexer = Lexer::new("return{");

    let results = lexer.collect_tokens();

    assert_eq!(results.len(), 2);
    assert_eq!(lexer.errors.len(), 0);
    assert_eq!(results[0].kind, TokenKind::ReturnKeyword);
    assert_eq!(results[0].span.range(), 0..6);

    assert_eq!(results[1].kind, TokenKind::OpenBrace);
    assert_eq!(results[1].span.range(), 6..7);
}

#[test]
fn symbols() {
    let mut lexer = Lexer::new("(){};");

    let results = lexer.collect_tokens();

    assert_eq!(results.len(), 5);
    assert_eq!(lexer.errors.len(), 0);
    assert_eq!(results[0].kind, TokenKind::OpenParen);
    assert_eq!(results[0].span.range(), 0..1);
    assert_eq!(results[1].kind, TokenKind::CloseParen);
    assert_eq!(results[1].span.range(), 1..2);
    assert_eq!(results[2].kind, TokenKind::OpenBrace);
    assert_eq!(results[2].span.range(), 2..3);
    assert_eq!(results[3].kind, TokenKind::CloseBrace);
    assert_eq!(results[3].span.range(), 3..4);
    assert_eq!(results[4].kind, TokenKind::Semicolon);
    assert_eq!(results[4].span.range(), 4..5);
}

#[test]
fn real_file1() {
    let mut lexer = Lexer::new("int main(void) {
    return");

    let results = lexer.collect_tokens();

    assert_eq!(results.len(), 7);
    assert_eq!(lexer.errors.len(), 0);
    test_token(&results[0], TokenKind::IntKeyword, 0..3);
    test_token(&results[1], TokenKind::Identifier, 4..8);
    test_token(&results[2], TokenKind::OpenParen, 8..9);
    test_token(&results[3], TokenKind::VoidKeyword, 9..13);
    test_token(&results[4], TokenKind::CloseParen, 13..14);
    test_token(&results[5], TokenKind::OpenBrace, 15..16);
    test_token(&results[6], TokenKind::ReturnKeyword, 21..27);
}

#[test]
fn only_multiline_comment() {
    let mut lexer = Lexer::new("/* hello */");
    let results = lexer.collect_tokens();

    assert_eq!(results.len(), 0);
    assert_eq!(lexer.errors.len(), 0);
}

#[test]
fn not_closed_multiline_comment() {
    let mut lexer = Lexer::new("/* hello");
    let results = lexer.collect_tokens();

    assert_eq!(results.len(), 0);
    assert_eq!(lexer.errors.len(), 1);
    assert!(matches!(&lexer.errors[..], [LexerError::UnexpectedEofInsideComment(i)] if i.range() == (0..2)));
}

#[test]
fn multiline_comment2() {
    let mut lexer = Lexer::new("/* hello */int");
    let results = lexer.collect_tokens();

    assert!(matches!(&results[..], [Token { kind: TokenKind::IntKeyword, .. }]));
    assert!(matches!(&lexer.errors[..], []));
}

#[test]
fn multiline_comment_with_spaces_after() {
    let mut lexer = Lexer::new("/* hello */          int");
    let results = lexer.collect_tokens();

    assert!(matches!(&results[..], [Token { kind: TokenKind::IntKeyword, .. }]));
    assert!(matches!(&lexer.errors[..], []));
}

#[test]
fn single_line_comment() {
    let mut lexer = Lexer::new("// hello
        int");

    let results = lexer.collect_tokens();

    assert!(matches!(&results[..], [Token { kind: TokenKind::IntKeyword, .. }]));
    assert!(matches!(&lexer.errors[..], []));
}

#[test]
fn single_line_comment_will_have_proper_position_after() {
    let mut lexer = Lexer::new(r"// note
new");

    let tokens = lexer.collect_tokens();

    assert!(matches!(&tokens[..], [Token { kind: TokenKind::Identifier, span }] if span.range() == (8..11)));
    assert_eq!(lexer.position, 11);
}

#[test]
fn does_it_terminate() {
    let mut lexer = Lexer::new(r"
// note: in older versions of C this would be valid
// and return type would default to 'int'
// GCC/Clang will compile it (with a warning)
// for backwards compatibility
main(void) {
    return 0;
}
        ");

    let results = lexer.collect_tokens();

    assert!(matches!(&results[..], [
        Token { kind: TokenKind::Identifier, .. },
        Token { kind: TokenKind::OpenParen, .. },
        Token { kind: TokenKind::VoidKeyword, .. },
        Token { kind: TokenKind::CloseParen, .. },
        Token { kind: TokenKind::OpenBrace, .. },
        Token { kind: TokenKind::ReturnKeyword, .. },
        Token { kind: TokenKind::Constant, .. },
        Token { kind: TokenKind::Semicolon, .. },
        Token { kind: TokenKind::CloseBrace, .. },
    ]));
    assert!(matches!(&lexer.errors[..], []));
}

fn test_token(result: &Token, expected_kind: TokenKind, expected_range: Range<usize>) {
    assert_eq!(result.kind, expected_kind);
    assert_eq!(result.span.range(), expected_range);
}

fn lex(text: &str) -> (Vec<Token>, Vec<LexerError>) {
    Lexer::new(text).run()
}

fn token(kind: TokenKind, start: usize, len: usize) -> Token {
    Token::new(kind, Span::new(start, len))
}

#[test]
fn white_space_alone_is_silent() {
    for text in ["", " ", "\t\n\r ", "\u{b}\u{c}", "\u{85}\u{a0}", "\u{1680}\u{2000}\u{200a}",
        "\u{2028}\u{2029}\u{202f}\u{205f}\u{3000}", " \u{2003} \n"] {
        let mut lexer = Lexer::new(text);
        let (tokens, errors) = lexer.run();
        assert_eq!(tokens, vec![], "{:?}", text);
        assert_eq!(errors, vec![], "{:?}", text);
        assert_eq!(lexer.position, text.len());
    }
}

#[test]
fn wide_white_space_separates_tokens() {
    let (tokens, errors) = lex("int\u{a0}x\u{3000};");
    assert_eq!(errors, vec![]);
    assert_eq!(
        tokens,
        vec![
            token(TokenKind::IntKeyword, 0, 3),
            token(TokenKind::Identifier, 5, 1),
            token(TokenKind::Semicolon, 9, 1),
        ]
    );
}

#[test]
fn unknown_bytes_coalesce_into_one_error_per_run() {
    let (tokens, errors) = lex("@#$ a %^");
    assert_eq!(tokens, vec![token(TokenKind::Identifier, 4, 1)]);
    assert_eq!(
        errors,
        vec![LexerError::UnknownToken(Span::new(0, 3)), LexerError::UnknownToken(Span::new(6, 2))]
    );

    // runs that only white space parts stay apart
    let (tokens, errors) = lex("@ @");
    assert_eq!(tokens, vec![]);
    assert_eq!(
        errors,
        vec![LexerError::UnknownToken(Span::new(0, 1)), LexerError::UnknownToken(Span::new(2, 1))]
    );

    // a token between two runs parts them too
    let (tokens, errors) = lex("@;@");
    assert_eq!(tokens, vec![token(TokenKind::Semicolon, 1, 1)]);
    assert_eq!(
        errors,
        vec![LexerError::UnknownToken(Span::new(0, 1)), LexerError::UnknownToken(Span::new(2, 1))]
    );
}

#[test]
fn bytes_of_a_wide_character_are_one_run() {
    let (tokens, errors) = lex("a é€😀 b");
    assert_eq!(tokens, vec![token(TokenKind::Identifier, 0, 1), token(TokenKind::Identifier, 12, 1)]);
    assert_eq!(errors, vec![LexerError::UnknownToken(Span::new(2, 9))]);

    let (tokens, errors) = lex("x=é");
    assert_eq!(tokens, vec![token(TokenKind::Identifier, 0, 1)]);
    assert_eq!(errors, vec![LexerError::UnknownToken(Span::new(1, 3))]);
}

#[test]
fn a_word_ends_where_word_bytes_end() {
    let (tokens, errors) = lex("abcé");
    assert_eq!(tokens, vec![token(TokenKind::Identifier, 0, 3)]);
    assert_eq!(errors, vec![LexerError::UnknownToken(Span::new(3, 2))]);
}

#[test]
fn digits_before_a_letter_are_no_constant() {
    let (tokens, errors) = lex("12ab 7");
    assert_eq!(tokens, vec![token(TokenKind::Identifier, 2, 2), token(TokenKind::Constant, 5, 1)]);
    assert_eq!(errors, vec![LexerError::UnknownToken(Span::new(0, 2))]);

    let (tokens, errors) = lex("9_");
    assert_eq!(tokens, vec![token(TokenKind::Identifier, 1, 1)]);
    assert_eq!(errors, vec![LexerError::UnknownToken(Span::new(0, 1))]);

    let (tokens, errors) = lex("007;");
    assert_eq!(tokens, vec![token(TokenKind::Constant, 0, 3), token(TokenKind::Semicolon, 3, 1)]);
    assert_eq!(errors, vec![]);
}

#[test]
fn comment_then_keyword() {
    let (tokens, errors) = lex("/* a */int");
    assert_eq!(tokens, vec![token(TokenKind::IntKeyword, 7, 3)]);
    assert_eq!(errors, vec![]);
}

#[test]
fn unterminated_comment_stops_the_scan() {
    let mut lexer = Lexer::new("/* a");
    let (tokens, errors) = lexer.run();
    assert_eq!(tokens, vec![]);
    assert_eq!(errors, vec![LexerError::UnexpectedEofInsideComment(Span::new(0, 2))]);
    assert!(lexer.stop);
    assert_eq!(lexer.next(), None);

    let (tokens, errors) = lex("int x /*");
    assert_eq!(tokens, vec![token(TokenKind::IntKeyword, 0, 3), token(TokenKind::Identifier, 4, 1)]);
    assert_eq!(errors, vec![LexerError::UnexpectedEofInsideComment(Span::new(6, 2))]);

    // the closing marker may not share a byte with the opening one
    let (tokens, errors) = lex("/*/ int");
    assert_eq!(tokens, vec![]);
    assert_eq!(errors, vec![LexerError::UnexpectedEofInsideComment(Span::new(0, 2))]);
}

#[test]
fn nested_comment_stops_the_scan() {
    let (tokens, errors) = lex("/* /* */");
    assert_eq!(tokens, vec![]);
    assert_eq!(errors, vec![LexerError::NestedComment(Span::new(0, 2), Span::new(3, 2))]);

    let (tokens, errors) = lex("int @ /* a /* b */ */ void");
    assert_eq!(tokens, vec![token(TokenKind::IntKeyword, 0, 3)]);
    assert_eq!(
        errors,
        vec![
            LexerError::UnknownToken(Span::new(4, 1)),
            LexerError::NestedComment(Span::new(6, 2), Span::new(11, 2)),
        ]
    );
}

#[test]
fn comments_are_skipped_anywhere() {
    let (tokens, errors) = lex("int/**/x /* ( */ ; /***/ // }");
    assert_eq!(errors, vec![]);
    assert_eq!(
        tokens,
        vec![
            token(TokenKind::IntKeyword, 0, 3),
            token(TokenKind::Identifier, 7, 1),
            token(TokenKind::Semicolon, 17, 1),
        ]
    );

    // comments may hold any characters
    let (tokens, errors) = lex("/* é @ */a// ü\nb");
    assert_eq!(errors, vec![]);
    assert_eq!(tokens, vec![token(TokenKind::Identifier, 10, 1), token(TokenKind::Identifier, 17, 1)]);
}

#[test]
fn line_comment_without_line_feed_ends_the_scan() {
    let mut lexer = Lexer::new("a // b");
    let (tokens, errors) = lexer.run();
    assert_eq!(tokens, vec![token(TokenKind::Identifier, 0, 1)]);
    assert_eq!(errors, vec![]);
    assert_eq!(lexer.position, 6);
    assert!(lexer.stop);

    let (tokens, errors) = lex("//\r\nint");
    assert_eq!(tokens, vec![token(TokenKind::IntKeyword, 4, 3)]);
    assert_eq!(errors, vec![]);
}

#[test]
fn lone_slash_and_star_are_unknown() {
    let (tokens, errors) = lex("a / b * c");
    assert_eq!(tokens.len(), 3);
    assert_eq!(
        errors,
        vec![LexerError::UnknownToken(Span::new(2, 1)), LexerError::UnknownToken(Span::new(6, 1))]
    );

    let (tokens, errors) = lex("*/");
    assert_eq!(tokens, vec![]);
    assert_eq!(errors, vec![LexerError::UnknownToken(Span::new(0, 2))]);
}

#[test]
fn keyword_needs_the_whole_word() {
    let (tokens, errors) = lex("intx 5");
    assert_eq!(tokens, vec![token(TokenKind::Identifier, 0, 4), token(TokenKind::Constant, 5, 1)]);
    assert_eq!(errors, vec![]);

    let (tokens, _) = lex("in int Int voidd void returns return _ret");
    let kinds: Vec<TokenKind> = tokens.iter().map(|t| t.kind).collect();
    assert_eq!(
        kinds,
        vec![
            TokenKind::Identifier,
            TokenKind::IntKeyword,
            TokenKind::Identifier,
            TokenKind::Identifier,
            TokenKind::VoidKeyword,
            TokenKind::Identifier,
            TokenKind::ReturnKeyword,
            TokenKind::Identifier,
        ]
    );
}

#[test]
fn one_byte_texts() {
    assert_eq!(lex("a"), (vec![token(TokenKind::Identifier, 0, 1)], vec![]));
    assert_eq!(lex("7"), (vec![token(TokenKind::Constant, 0, 1)], vec![]));
    assert_eq!(lex("}"), (vec![token(TokenKind::CloseBrace, 0, 1)], vec![]));
    assert_eq!(lex("/"), (vec![], vec![LexerError::UnknownToken(Span::new(0, 1))]));
    assert_eq!(lex("\n"), (vec![], vec![]));
}

#[test]
fn tokens_round_trip() {
    let text = "int main(void) { /* c */ return 42; } // end\n x_1 @ 9z";
    let mut lexer = Lexer::new(text);
    let (tokens, _) = lexer.run();
    assert_eq!(tokens.len(), 12);
    let mut last_end = 0;
    for found in &tokens {
        assert!(last_end <= found.span.start());
        last_end = found.span.end();
        let lexeme = lexer.get_text(&found.span);
        assert_eq!(lexeme, &text[found.span.range()]);
        let (again, errors) = lex(lexeme);
        assert_eq!(again, vec![token(found.kind, 0, lexeme.len())]);
        assert_eq!(errors, vec![]);
    }
}

#[test]
fn next_hands_out_one_token_at_a_time() {
    let mut lexer = Lexer::new(" a @ ;");
    assert_eq!(lexer.position, 0);
    assert_eq!(lexer.total_length, 6);
    assert_eq!(lexer.next(), Some(token(TokenKind::Identifier, 1, 1)));
    assert_eq!(lexer.position, 2);
    assert_eq!(lexer.errors, vec![]);
    assert_eq!(lexer.next(), Some(token(TokenKind::Semicolon, 5, 1)));
    assert_eq!(lexer.errors, vec![LexerError::UnknownToken(Span::new(3, 1))]);
    assert_eq!(lexer.next(), None);
    assert_eq!(lexer.next(), None);
    assert_eq!(lexer.position, 6);
    assert!(!lexer.stop);
}

#[test]
fn add_error_span_merges_adjacent_spans_only() {
    let mut lexer = Lexer::new("");
    lexer.add_error_span(Span::new(2, 1));
    assert_eq!(lexer.errors, vec![LexerError::UnknownToken(Span::new(2, 1))]);
    lexer.add_error_span(Span::new(3, 2));
    assert_eq!(lexer.errors, vec![LexerError::UnknownToken(Span::new(2, 3))]);
    lexer.add_error_span(Span::new(6, 1));
    assert_eq!(
        lexer.errors,
        vec![LexerError::UnknownToken(Span::new(2, 3)), LexerError::UnknownToken(Span::new(6, 1))]
    );
    // an error of another kind is never grown
    lexer.errors.push(LexerError::UnexpectedEofInsideComment(Span::new(7, 2)));
    lexer.add_error_span(Span::new(9, 1));
    assert_eq!(lexer.errors.len(), 4);
    assert_eq!(lexer.errors[3], LexerError::UnknownToken(Span::new(9, 1)));
}

#[test]
fn run_goes_on_from_the_position() {
    let mut lexer = Lexer::new("a b c");
    assert_eq!(lexer.next(), Some(token(TokenKind::Identifier, 0, 1)));
    let (rest, errors) = lexer.run();
    assert_eq!(rest, vec![token(TokenKind::Identifier, 2, 1), token(TokenKind::Identifier, 4, 1)]);
    assert_eq!(errors, vec![]);
    assert_eq!(lexer.run(), (vec![], vec![]));
}
