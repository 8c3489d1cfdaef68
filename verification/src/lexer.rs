use vstd::prelude::*;
use vstd::string::StringSliceAdditionalSpecFns;
use crate::source_file::Id;
use crate::span::Span;
use crate::grammar::{
    lemma_digits_end_bounds, lemma_next_line_feed_bounds, lemma_next_marker_bounds,
    lemma_space_end_bounds, lemma_word_end_bounds, next_line_feed, next_marker, opens_comment,
    opens_line_comment, space_end, space_width, structural, word_kind, word_or_number,
};
use crate::tokens::{
    identifiers_or_constant, keyword_of, multiline_comment_start,
    multiline_comment_start_or_end, newline, single_line_comment_start, structural_token,
    tokens_fit, whitespace, Token, TokenKind,
};
use crate::text::{slice_from, sliceable};

verus! {

#[derive(Debug, Eq, PartialEq)]
pub enum LexerError {
    /// One or more adjacent bytes that begin no token.
    UnknownToken(Span),
    /// The opening marker of a block comment, and the second opening marker
    /// that was found inside it.
    NestedComment(Span, Span),
    /// The opening marker of a block comment that the text does not close.
    UnexpectedEofInsideComment(Span),
}

impl Clone for LexerError {
    fn clone(&self) -> (r: Self)
        ensures
            r == *self,
    {
        match self {
            LexerError::UnknownToken(span) => LexerError::UnknownToken(span.clone()),
            LexerError::NestedComment(outer, inner) => LexerError::NestedComment(
                outer.clone(),
                inner.clone(),
            ),
            LexerError::UnexpectedEofInsideComment(span) => LexerError::UnexpectedEofInsideComment(
                span.clone(),
            ),
        }
    }
}

/// What stands at one offset of the text.
pub enum Scan {
    /// White space or a comment; the lexer goes on at the given offset.
    Skip(int),
    /// A token of this kind and length.
    Found(TokenKind, int),
    /// A byte that begins no token.
    Unknown,
    /// A block comment with a second opening marker at the given offset.
    Nested(int),
    /// A block comment that the text does not close.
    Unterminated,
    /// A line comment that runs to the end of the text.
    Eof,
}

/// What the lexer finds at offset `i` of `s`, in the order in which it looks:
/// white space, a block comment, a line comment, a structural byte, an
/// identifier or constant.
pub open spec fn scan(s: Seq<u8>, i: int) -> Scan {
    if space_width(s, i) > 0 {
        Scan::Skip(space_end(s, i))
    } else if opens_comment(s, i) {
        let m = next_marker(s, i + 2);
        if m >= s.len() {
            Scan::Unterminated
        } else if opens_comment(s, m) {
            Scan::Nested(m)
        } else {
            Scan::Skip(m + 2)
        }
    } else if opens_line_comment(s, i) {
        let n = next_line_feed(s, i + 2);
        if n >= s.len() {
            Scan::Eof
        } else {
            Scan::Skip(n + 1)
        }
    } else if 0 <= i < s.len() && structural(s[i]) is Some {
        Scan::Found(structural(s[i])->0, 1)
    } else {
        match word_or_number(s, i) {
            Some((TokenKind::Identifier, n)) => Scan::Found(word_kind(s.subrange(i, i + n)), n),
            Some((kind, n)) => Scan::Found(kind, n),
            None => Scan::Unknown,
        }
    }
}

/// The span of the main unit that starts at `start` and is `len` bytes long.
pub open spec fn span_at(start: int, len: int) -> Span {
    Span { unit: Id::Main, start: start as usize, len: len as usize }
}

/// The error list after the unknown bytes of `error` were reported: where the
/// last entry is an unknown token that ends where `error` starts, that entry
/// grows by the length of `error`; else `error` becomes a new entry.
pub open spec fn coalesce(errors: Seq<LexerError>, error: Span) -> Seq<LexerError> {
    if errors.len() > 0 && (errors.last() matches LexerError::UnknownToken(prev)
        && prev.spec_end() == error.start) {
        errors.drop_last().push(
            LexerError::UnknownToken(
                Span {
                    unit: errors.last()->UnknownToken_0.unit,
                    start: errors.last()->UnknownToken_0.start,
                    len: (errors.last()->UnknownToken_0.len + error.len) as usize,
                },
            ),
        )
    } else {
        errors.push(LexerError::UnknownToken(error))
    }
}

/// The lexer's state between two tokens.
pub struct LexState {
    /// The offset of the next byte to look at.
    pub position: int,
    /// Set once the scan has ended for good.
    pub stop: bool,
    /// The errors found so far.
    pub errors: Seq<LexerError>,
}

/// The state in which lexing begins.
pub open spec fn start_state() -> LexState {
    LexState { position: 0, stop: false, errors: Seq::empty() }
}

/// The next token of `s` from state `st` on, and the state behind it.
/// There is no token at the end of the text, once the scan was stopped, and
/// where a block comment is nested or left open; the last two stop the scan
/// and add their error. A line comment without a line feed ends the scan
/// without an error.
pub open spec fn next_token(s: Seq<u8>, st: LexState) -> (Option<Token>, LexState)
    decreases s.len() - st.position,
    via next_token_decreases
{
    let i = st.position;
    if st.stop || i < 0 || i >= s.len() {
        (None, st)
    } else {
        match scan(s, i) {
            Scan::Skip(next) => next_token(s, LexState { position: next, ..st }),
            Scan::Found(kind, len) => (
                Some(Token { kind, span: span_at(i, len) }),
                LexState { position: i + len, ..st },
            ),
            Scan::Unknown => next_token(
                s,
                LexState { position: i + 1, errors: coalesce(st.errors, span_at(i, 1)), ..st },
            ),
            Scan::Nested(inner) => (
                None,
                LexState {
                    stop: true,
                    errors: st.errors.push(
                        LexerError::NestedComment(span_at(i, 2), span_at(inner, 2)),
                    ),
                    ..st
                },
            ),
            Scan::Unterminated => (
                None,
                LexState {
                    stop: true,
                    errors: st.errors.push(LexerError::UnexpectedEofInsideComment(span_at(i, 2))),
                    ..st
                },
            ),
            Scan::Eof => (None, LexState { position: s.len() as int, stop: true, ..st }),
        }
    }
}

#[via_fn]
proof fn next_token_decreases(s: Seq<u8>, st: LexState) {
    if !(st.stop || st.position < 0 || st.position >= s.len()) {
        lemma_scan_bounds(s, st.position);
    }
}

/// A skip leads forward and stays inside the text; a token is not empty and
/// ends inside the text; a nested marker lies inside the text.
pub proof fn lemma_scan_bounds(s: Seq<u8>, i: int)
    requires
        0 <= i < s.len(),
    ensures
        scan(s, i) matches Scan::Skip(next) ==> i < next <= s.len(),
        scan(s, i) matches Scan::Found(kind, len) ==> 0 < len && i + len <= s.len(),
        scan(s, i) matches Scan::Nested(inner) ==> i + 2 <= inner && inner + 2 <= s.len(),
        scan(s, i) is Unterminated || scan(s, i) is Nested ==> i + 2 <= s.len(),
{
    lemma_space_end_bounds(s, i);
    if i + 2 <= s.len() {
        lemma_next_marker_bounds(s, i + 2);
        lemma_next_line_feed_bounds(s, i + 2);
    }
    lemma_word_end_bounds(s, i);
    lemma_digits_end_bounds(s, i);
}

/// All tokens of `s` from state `st` on, and the state in which the lexer ends.
pub open spec fn lex_from(s: Seq<u8>, st: LexState) -> (Seq<Token>, LexState)
    decreases s.len() - st.position,
    via lex_from_decreases
{
    let (token, after) = next_token(s, st);
    match token {
        None => (Seq::empty(), after),
        Some(t) => {
            let (rest, end) = lex_from(s, after);
            (seq![t] + rest, end)
        },
    }
}

#[via_fn]
proof fn lex_from_decreases(s: Seq<u8>, st: LexState) {
    lemma_next_token_advances(s, st);
}

/// Behind a token the lexer stands further on in the text, and it never goes back.
pub proof fn lemma_next_token_advances(s: Seq<u8>, st: LexState)
    ensures
        next_token(s, st).0 is Some ==> 0 <= st.position < next_token(s, st).1.position
            <= s.len() && !st.stop,
        0 <= st.position <= s.len() ==> st.position <= next_token(s, st).1.position <= s.len(),
    decreases s.len() - st.position,
{
    let i = st.position;
    if !(st.stop || i < 0 || i >= s.len()) {
        lemma_scan_bounds(s, i);
        match scan(s, i) {
            Scan::Skip(next) => {
                lemma_next_token_advances(s, LexState { position: next, ..st });
            },
            Scan::Unknown => {
                lemma_next_token_advances(
                    s,
                    LexState { position: i + 1, errors: coalesce(st.errors, span_at(i, 1)), ..st },
                );
            },
            _ => {},
        }
    }
}

/// The tokens and the errors of the whole text `s`.
pub open spec fn lex(s: Seq<u8>) -> (Seq<Token>, Seq<LexerError>) {
    (lex_from(s, start_state()).0, lex_from(s, start_state()).1.errors)
}

/// A pull-based scanner over one text. Each call of `next` hands out the next
/// token; the errors gather in `errors`.
pub struct Lexer<'a> {
    pub text: &'a str,
    pub position: usize,
    pub total_length: usize,
    pub stop: bool,
    pub errors: Vec<LexerError>,
}

impl<'a> View for Lexer<'a> {
    type V = LexState;

    open spec fn view(&self) -> LexState {
        LexState { position: self.position as int, stop: self.stop, errors: self.errors@ }
    }
}

impl<'a> Lexer<'a> {
    /// The lexer's length is that of its text, and its position lies inside it.
    pub open spec fn wf(&self) -> bool {
        &&& self.total_length == self.text.spec_bytes().len()
        &&& self.position <= self.total_length
    }

    /// The bytes that the lexer reads.
    pub open spec fn bytes(&self) -> Seq<u8> {
        self.text.spec_bytes()
    }

    pub fn new(text: &'a str) -> (r: Lexer<'a>)
        ensures
            r.wf(),
            r.text == text,
            r@ == start_state(),
    {
        Lexer {
            text,
            position: 0,
            total_length: text.as_bytes().len(),
            stop: false,
            errors: Vec::new(),
        }
    }

    /// Reports the unknown bytes of `error`, as one entry with the last error
    /// where that is an unknown token which ends where `error` starts.
    pub fn add_error_span(&mut self, error: Span)
        requires
            old(self).errors@.len() > 0 ==> (old(self).errors@.last() matches LexerError::UnknownToken(
                prev,
            ) ==> prev.spec_end() == error.start ==> prev.len + error.len <= usize::MAX),
        ensures
            *final(self) == (Lexer { errors: final(self).errors, ..*old(self) }),
            final(self).errors@ == coalesce(old(self).errors@, error),
    {
        let n = self.errors.len();
        if n > 0 {
            let merged = match &self.errors[n - 1] {
                LexerError::UnknownToken(prev) => {
                    if prev.end() == error.start() {
                        let mut grown = prev.clone();
                        grown.expand(error.len());
                        Some(grown)
                    } else {
                        None
                    }
                },
                _ => None,
            };
            if let Some(grown) = merged {
                self.errors.pop();
                self.errors.push(LexerError::UnknownToken(grown));
                return ;
            }
        }
        self.errors.push(LexerError::UnknownToken(error));
    }

    /// The part of the text that `span` covers.
    pub fn get_text(&self, span: &Span) -> (r: &'a str)
        requires
            sliceable(self.bytes(), span.start as int, span.start + span.len),
        ensures
            r.spec_bytes() == self.bytes().subrange(span.start as int, span.start + span.len),
    {
        slice_from(self.text, span.start, span.len)
    }

    /// The next token, or `None` where the scan has ended.
    pub fn next(&mut self) -> (r: Option<Token>)
        requires
            old(self).wf(),
        ensures
            final(self).wf(),
            final(self).text == old(self).text,
            (r, final(self)@) == next_token(old(self).bytes(), old(self)@),
    {
        let bytes = self.text.as_bytes();
        loop
            invariant
                self.wf(),
                self.text == old(self).text,
                bytes@ == self.text.spec_bytes(),
                next_token(bytes@, self@) == next_token(bytes@, old(self)@),
            decreases self.total_length - self.position,
        {
            if self.position == self.total_length || self.stop {
                return None;
            }
            let at = self.position;
            proof {
                lemma_scan_bounds(bytes@, at as int);
            }
            let end = whitespace(bytes, at);
            if end > at {
                self.position = end;
                continue ;
            }
            if multiline_comment_start(bytes, at) {
                match multiline_comment_start_or_end(bytes, at + 2) {
                    Some(marker) => {
                        if multiline_comment_start(bytes, marker) {
                            self.errors.push(
                                LexerError::NestedComment(Span::new(at, 2), Span::new(marker, 2)),
                            );
                            self.stop = true;
                            return None;
                        } else {
                            self.position = marker + 2;
                            continue ;
                        }
                    },
                    None => {
                        self.errors.push(
                            LexerError::UnexpectedEofInsideComment(Span::new(at, 2)),
                        );
                        self.stop = true;
                        return None;
                    },
                }
            }
            if single_line_comment_start(bytes, at) {
                match newline(bytes, at + 2) {
                    Some(eol) => {
                        self.position = eol + 1;
                        continue ;
                    },
                    None => {
                        self.position = self.total_length;
                        self.stop = true;
                        return None;
                    },
                }
            }
            if let Some(kind) = structural_token(bytes[at]) {
                self.position = at + 1;
                return Some(Token { kind, span: Span::new(at, 1) });
            }
            match identifiers_or_constant(bytes, at) {
                Some((found, len)) => {
                    let kind = match found {
                        TokenKind::Identifier => {
                            let word = vstd::slice::slice_subrange(bytes, at, at + len);
                            match keyword_of(word) {
                                Some(k) => k,
                                None => TokenKind::Identifier,
                            }
                        },
                        _ => found,
                    };
                    self.position = at + len;
                    return Some(Token { kind, span: Span::new(at, len) });
                },
                None => {
                    self.position = at + 1;
                    self.add_error_span(Span::new(at, 1));
                    continue ;
                },
            }
        }
    }

    /// All tokens that are left, in the order of the text.
    pub fn collect_tokens(&mut self) -> (tokens: Vec<Token>)
        requires
            old(self).wf(),
        ensures
            final(self).wf(),
            final(self).text == old(self).text,
            (tokens@, final(self)@) == lex_from(old(self).bytes(), old(self)@),
            tokens_fit(tokens@, old(self).bytes()),
            final(self).stop || final(self).position == final(self).total_length,
    {
        let mut tokens: Vec<Token> = Vec::new();
        let ghost s = self.text.spec_bytes();
        proof {
            vstd::utf8::encode_utf8_valid_utf8(self.text@);
            crate::lexer_laws::lemma_lexed_tokens_fit(s, self@);
            crate::lexer_laws::lemma_lex_from_ends(s, self@);
        }
        loop
            invariant
                self.wf(),
                self.text == old(self).text,
                s == self.text.spec_bytes(),
                tokens@ + lex_from(s, self@).0 == lex_from(s, old(self)@).0,
                lex_from(s, self@).1 == lex_from(s, old(self)@).1,
                tokens_fit(lex_from(s, old(self)@).0, s),
                lex_from(s, old(self)@).1.stop || lex_from(s, old(self)@).1.position == s.len(),
            decreases s.len() - self@.position,
        {
            proof {
                lemma_next_token_advances(s, self@);
            }
            let ghost before = self@;
            match self.next() {
                Some(token) => {
                    proof {
                        let (rest, end) = lex_from(s, self@);
                        assert(lex_from(s, before).0 == seq![token] + rest);
                        assert(tokens@.push(token) + rest =~= tokens@ + (seq![token] + rest));
                    }
                    tokens.push(token);
                },
                None => {
                    assert(tokens@ + Seq::<Token>::empty() =~= tokens@);
                    return tokens;
                },
            }
        }
    }

    /// Lexes what is left of the text: the tokens, and all errors found so far.
    pub fn run(&mut self) -> (r: (Vec<Token>, Vec<LexerError>))
        requires
            old(self).wf(),
        ensures
            final(self).wf(),
            final(self).text == old(self).text,
            (r.0@, final(self)@) == lex_from(old(self).bytes(), old(self)@),
            r.1@ == final(self)@.errors,
            tokens_fit(r.0@, old(self).bytes()),
            final(self).stop || final(self).position == final(self).total_length,
    {
        let tokens = self.collect_tokens();
        let errors = self.errors.clone();
        assert(errors@ =~= self.errors@);
        (tokens, errors)
    }
}

} // verus!
