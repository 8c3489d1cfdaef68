use vstd::prelude::*;
use vstd::string::StringExecFns;
use vstd::string::StringSliceAdditionalSpecFns;
use vstd::utf8::{decode_utf8, encode_utf8_decode_utf8};
use crate::grammar::{
    closes_comment, digits_end, int_word, is_digit, is_word, keyword, lemma_digits_end_bounds,
    lemma_keyword_bytes, lemma_space_end_bounds, lemma_word_end_bounds, next_line_feed,
    next_marker, opens_comment, opens_line_comment, return_word, space_end, space_width,
    structural, void_word, word_end, word_or_number, CARRIAGE_RETURN, CLOSE_BRACE, CLOSE_PAREN,
    DIGIT_NINE, DIGIT_ZERO, LINE_FEED, LOWER_A, LOWER_Z, OPEN_BRACE, OPEN_PAREN, SEMICOLON, SLASH,
    SPACE, STAR, TAB, UNDERSCORE, UPPER_A, UPPER_Z,
};
use crate::span::Span;
use crate::text::{can_slice, slice_from, sliceable};

verus! {

/// The closed set of token tags. `Whitespace` names what the lexer skips and is
/// never handed out; `Invalid` is the tag of a token that has not been classified.
#[derive(Debug, PartialEq, Eq, Copy, Clone, Structural)]
pub enum TokenKind {
    Identifier,
    Constant,
    IntKeyword,
    VoidKeyword,
    ReturnKeyword,
    OpenParen,
    CloseParen,
    OpenBrace,
    CloseBrace,
    Semicolon,
    Whitespace,
    Invalid,
}

/// A tag and the place in the text where the lexeme stands.
#[derive(Debug, PartialEq, Eq)]
pub struct Token {
    pub kind: TokenKind,
    pub span: Span,
}

impl Clone for Token {
    fn clone(&self) -> (r: Self)
        ensures
            r == *self,
    {
        Token { kind: self.kind, span: self.span.clone() }
    }
}

impl Token {
    pub fn new(kind: TokenKind, span: Span) -> (r: Token)
        ensures
            r == (Token { kind, span }),
    {
        Token { kind, span }
    }
}

pub fn is_digit_byte(b: u8) -> (r: bool)
    ensures
        r == is_digit(b),
{
    DIGIT_ZERO <= b && b <= DIGIT_NINE
}

pub fn is_word_byte(b: u8) -> (r: bool)
    ensures
        r == is_word(b),
{
    is_digit_byte(b) || (LOWER_A <= b && b <= LOWER_Z) || (UPPER_A <= b && b <= UPPER_Z) || b
        == UNDERSCORE
}

pub fn structural_token(b: u8) -> (r: Option<TokenKind>)
    ensures
        r == structural(b),
{
    if b == OPEN_PAREN {
        Some(TokenKind::OpenParen)
    } else if b == CLOSE_PAREN {
        Some(TokenKind::CloseParen)
    } else if b == OPEN_BRACE {
        Some(TokenKind::OpenBrace)
    } else if b == CLOSE_BRACE {
        Some(TokenKind::CloseBrace)
    } else if b == SEMICOLON {
        Some(TokenKind::Semicolon)
    } else {
        None
    }
}

/// The structural token, if any, that `str` begins with.
pub fn char_tokens(str: &str) -> (r: Option<TokenKind>)
    requires
        str.spec_bytes().len() > 0,
    ensures
        r == structural(str.spec_bytes()[0]),
{
    let bytes = str.as_bytes();
    structural_token(bytes[0])
}

fn space_width_at(text: &[u8], at: usize) -> (w: usize)
    ensures
        w == space_width(text@, at as int),
        w > 0 ==> at + w <= text@.len(),
{
    let n = text.len();
    if at >= n {
        return 0;
    }
    let a = text[at];
    if (TAB <= a && a <= CARRIAGE_RETURN) || a == SPACE {
        return 1;
    }
    if n - at < 2 {
        return 0;
    }
    let b = text[at + 1];
    if a == 0xc2 && (b == 0x85 || b == 0xa0) {
        return 2;
    }
    if n - at < 3 {
        return 0;
    }
    let c = text[at + 2];
    let wide = (a == 0xe1 && b == 0x9a && c == 0x80) || (a == 0xe2 && b == 0x80 && ((0x80 <= c && c
        <= 0x8a) || c == 0xa8 || c == 0xa9 || c == 0xaf)) || (a == 0xe2 && b == 0x81 && c == 0x9f)
        || (a == 0xe3 && b == 0x80 && c == 0x80);
    if wide {
        3
    } else {
        0
    }
}

/// The end of the longest run of white space that starts at offset `at`;
/// `at` itself where no white space starts there.
pub fn whitespace(text: &[u8], at: usize) -> (end: usize)
    requires
        at <= text@.len(),
    ensures
        end == space_end(text@, at as int),
        at <= end <= text@.len(),
        end == at <==> space_width(text@, at as int) == 0,
{
    proof {
        lemma_space_end_bounds(text@, at as int);
    }
    let n = text.len();
    let mut i: usize = at;
    loop
        invariant
            n == text@.len(),
            at <= i <= n,
            space_end(text@, i as int) == space_end(text@, at as int),
        decreases n - i,
    {
        let w: usize = space_width_at(text, i);
        if w == 0 {
            return i;
        }
        i = i + w;
    }
}

/// Whether `/*` stands at offset `at`.
pub fn multiline_comment_start(text: &[u8], at: usize) -> (r: bool)
    ensures
        r == opens_comment(text@, at as int),
{
    at < text.len() && text.len() - at >= 2 && text[at] == SLASH && text[at + 1] == STAR
}

/// Whether `*/` stands at offset `at`.
pub fn multiline_comment_end(text: &[u8], at: usize) -> (r: bool)
    ensures
        r == closes_comment(text@, at as int),
{
    at < text.len() && text.len() - at >= 2 && text[at] == STAR && text[at + 1] == SLASH
}

/// The first offset from `from` on at which `/*` or `*/` stands.
pub fn multiline_comment_start_or_end(text: &[u8], from: usize) -> (r: Option<usize>)
    ensures
        match r {
            Some(marker) => marker == next_marker(text@, from as int) && from <= marker && marker
                + 2 <= text@.len(),
            None => next_marker(text@, from as int) >= text@.len(),
        },
{
    let mut i: usize = from;
    while i < text.len()
        invariant
            from <= i,
            next_marker(text@, i as int) == next_marker(text@, from as int),
        decreases text@.len() - i,
    {
        if multiline_comment_start(text, i) || multiline_comment_end(text, i) {
            return Some(i);
        }
        i = i + 1;
    }
    None
}

/// Whether `//` stands at offset `at`.
pub fn single_line_comment_start(text: &[u8], at: usize) -> (r: bool)
    ensures
        r == opens_line_comment(text@, at as int),
{
    at < text.len() && text.len() - at >= 2 && text[at] == SLASH && text[at + 1] == SLASH
}

/// The first offset from `from` on that holds a line feed.
pub fn newline(text: &[u8], from: usize) -> (r: Option<usize>)
    ensures
        match r {
            Some(eol) => eol == next_line_feed(text@, from as int) && from <= eol < text@.len(),
            None => next_line_feed(text@, from as int) >= text@.len(),
        },
{
    let mut i: usize = from;
    while i < text.len()
        invariant
            from <= i,
            next_line_feed(text@, i as int) == next_line_feed(text@, from as int),
        decreases text@.len() - i,
    {
        if text[i] == LINE_FEED {
            return Some(i);
        }
        i = i + 1;
    }
    None
}

/// The identifier or constant that starts at offset `at`, with its length.
pub fn identifiers_or_constant(text: &[u8], at: usize) -> (r: Option<(TokenKind, usize)>)
    ensures
        match r {
            Some((kind, len)) => word_or_number(text@, at as int) == Some((kind, len as int)) && 0
                < len && at + len <= text@.len(),
            None => word_or_number(text@, at as int) is None,
        },
{
    proof {
        if at <= text@.len() {
            lemma_word_end_bounds(text@, at as int);
            lemma_digits_end_bounds(text@, at as int);
        }
    }
    let n = text.len();
    if at >= n {
        return None;
    }
    let first = text[at];
    if is_digit_byte(first) {
        let mut i: usize = at;
        while i < n && is_digit_byte(text[i])
            invariant
                at <= i <= n,
                n == text@.len(),
                digits_end(text@, i as int) == digits_end(text@, at as int),
            decreases n - i,
        {
            i = i + 1;
        }
        if i < n && is_word_byte(text[i]) {
            None
        } else {
            Some((TokenKind::Constant, i - at))
        }
    } else if is_word_byte(first) {
        let mut i: usize = at;
        while i < n && is_word_byte(text[i])
            invariant
                at <= i <= n,
                n == text@.len(),
                word_end(text@, i as int) == word_end(text@, at as int),
            decreases n - i,
        {
            i = i + 1;
        }
        Some((TokenKind::Identifier, i - at))
    } else {
        None
    }
}

/// The keyword that the bytes `word` spell.
pub fn keyword_of(word: &[u8]) -> (r: Option<TokenKind>)
    ensures
        r == keyword(word@),
{
    let n = word.len();
    if n == 3 && word[0] == 0x69 && word[1] == 0x6e && word[2] == 0x74 {
        assert(word@ =~= int_word());
        Some(TokenKind::IntKeyword)
    } else if n == 4 && word[0] == 0x76 && word[1] == 0x6f && word[2] == 0x69 && word[3] == 0x64 {
        assert(word@ =~= void_word());
        Some(TokenKind::VoidKeyword)
    } else if n == 6 && word[0] == 0x72 && word[1] == 0x65 && word[2] == 0x74 && word[3] == 0x75
        && word[4] == 0x72 && word[5] == 0x6e {
        assert(word@ =~= return_word());
        Some(TokenKind::ReturnKeyword)
    } else {
        assert(word@ != int_word()) by {
            if word@ == int_word() {
                assert(word@.len() == 3 && word@[0] == 0x69 && word@[1] == 0x6e && word@[2] == 0x74);
            }
        }
        assert(word@ != void_word()) by {
            if word@ == void_word() {
                assert(word@.len() == 4 && word@[0] == 0x76 && word@[1] == 0x6f && word@[2] == 0x69
                    && word@[3] == 0x64);
            }
        }
        assert(word@ != return_word()) by {
            if word@ == return_word() {
                assert(word@.len() == 6 && word@[0] == 0x72 && word@[1] == 0x65 && word@[2] == 0x74
                    && word@[3] == 0x75 && word@[4] == 0x72 && word@[5] == 0x6e);
            }
        }
        None
    }
}

/// The span of every token can be cut out of `bytes`.
pub open spec fn tokens_fit(tokens: Seq<Token>, bytes: Seq<u8>) -> bool {
    forall|i: int|
        0 <= i < tokens.len() ==> sliceable(
            bytes,
            (#[trigger] tokens[i]).span.start as int,
            tokens[i].span.start + tokens[i].span.len,
        )
}

/// Whether the span of every token can be cut out of `text`.
pub fn spans_fit(tokens: &Vec<Token>, text: &str) -> (r: bool)
    ensures
        r == tokens_fit(tokens@, text.spec_bytes()),
{
    let total = text.as_bytes().len();
    let mut i: usize = 0;
    while i < tokens.len()
        invariant
            total == text.spec_bytes().len(),
            i <= tokens@.len(),
            tokens_fit(tokens@.subrange(0, i as int), text.spec_bytes()),
        decreases tokens@.len() - i,
    {
        let span = &tokens[i].span;
        if span.len > total || span.start > total - span.len || !can_slice(
            text,
            span.start,
            span.start + span.len,
        ) {
            return false;
        }
        proof {
            let grown = tokens@.subrange(0, i + 1);
            assert forall|k: int| 0 <= k < grown.len() implies sliceable(
                text.spec_bytes(),
                (#[trigger] grown[k]).span.start as int,
                grown[k].span.start + grown[k].span.len,
            ) by {
                if k < i {
                    assert(tokens@.subrange(0, i as int)[k] == grown[k]);
                }
            }
        }
        i = i + 1;
    }
    assert(tokens@.subrange(0, i as int) =~= tokens@);
    true
}


impl TokenKind {
    /// The name of the kind as it is written in this crate.
    pub open spec fn spec_name(self) -> Seq<char> {
        match self {
            TokenKind::Identifier => "Identifier"@,
            TokenKind::Constant => "Constant"@,
            TokenKind::IntKeyword => "IntKeyword"@,
            TokenKind::VoidKeyword => "VoidKeyword"@,
            TokenKind::ReturnKeyword => "ReturnKeyword"@,
            TokenKind::OpenParen => "OpenParen"@,
            TokenKind::CloseParen => "CloseParen"@,
            TokenKind::OpenBrace => "OpenBrace"@,
            TokenKind::CloseBrace => "CloseBrace"@,
            TokenKind::Semicolon => "Semicolon"@,
            TokenKind::Whitespace => "Whitespace"@,
            TokenKind::Invalid => "Invalid"@,
        }
    }

    /// The name of the kind, as it is shown to a reader.
    pub fn name(&self) -> (r: &'static str)
        ensures
            r@ == self.spec_name(),
    {
        match self {
            TokenKind::Identifier => "Identifier",
            TokenKind::Constant => "Constant",
            TokenKind::IntKeyword => "IntKeyword",
            TokenKind::VoidKeyword => "VoidKeyword",
            TokenKind::ReturnKeyword => "ReturnKeyword",
            TokenKind::OpenParen => "OpenParen",
            TokenKind::CloseParen => "CloseParen",
            TokenKind::OpenBrace => "OpenBrace",
            TokenKind::CloseBrace => "CloseBrace",
            TokenKind::Semicolon => "Semicolon",
            TokenKind::Whitespace => "Whitespace",
            TokenKind::Invalid => "Invalid",
        }
    }
}

impl Token {
    /// The line that `explain` writes for a token of kind `kind` at `span`
    /// whose lexeme is `lexeme`.
    pub open spec fn explanation(kind: TokenKind, span: Span, lexeme: Seq<char>) -> Seq<char> {
        "["@ + kind.spec_name() + "]:"@ + span.spec_text() + " text: \""@ + lexeme + "\""@
    }

    /// One line that shows the token: its kind, its span, and its lexeme in `source`.
    pub fn explain(&self, source: &str) -> (r: String)
        requires
            sliceable(
                source.spec_bytes(),
                self.span.start as int,
                self.span.start + self.span.len,
            ),
        ensures
            r@ == Token::explanation(
                self.kind,
                self.span,
                decode_utf8(
                    source.spec_bytes().subrange(
                        self.span.start as int,
                        self.span.start + self.span.len,
                    ),
                ),
            ),
    {
        let lexeme = slice_from(source, self.span.start, self.span.len);
        proof {
            encode_utf8_decode_utf8(lexeme@);
        }
        let mut out = "[".to_owned();
        out.append(self.kind.name());
        out.append("]:");
        out.append(self.span.to_text().as_str());
        out.append(" text: \"");
        out.append(lexeme);
        out.append("\"");
        out
    }
}

/// The reserved words, each with the kind of its token.
pub fn keywords() -> (table: Vec<(&'static str, TokenKind)>)
    ensures
        table@.len() == 3,
        table@[0].0@ == "int"@ && table@[0].1 == TokenKind::IntKeyword,
        table@[1].0@ == "void"@ && table@[1].1 == TokenKind::VoidKeyword,
        table@[2].0@ == "return"@ && table@[2].1 == TokenKind::ReturnKeyword,
        forall|i: int|
            0 <= i < table@.len() ==> keyword((#[trigger] table@[i]).0.spec_bytes()) == Some(
                table@[i].1,
            ),
{
    let mut table: Vec<(&'static str, TokenKind)> = Vec::new();
    table.push(("int", TokenKind::IntKeyword));
    table.push(("void", TokenKind::VoidKeyword));
    table.push(("return", TokenKind::ReturnKeyword));
    proof {
        lemma_keyword_bytes();
    }
    table
}

} // verus!
