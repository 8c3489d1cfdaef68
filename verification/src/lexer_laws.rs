use vstd::prelude::*;
use vstd::utf8::{decode_utf8, valid_utf8};
use crate::lexer::{
    coalesce, lemma_next_token_advances, lemma_scan_bounds, lex, lex_from, next_token, scan,
    span_at, start_state, LexState, LexerError, Scan,
};
use crate::source_file::Id;
use crate::span::Span;
use crate::parser::lexeme;
use crate::text::{
    ascii_between, is_ascii_byte, lemma_ascii_run_sliceable, lemma_decode_ascii, sliceable,
};
use crate::errors::IntParseError;
use crate::utilities::{
    all_digits, decimal_value, is_conversion_of, is_digit_char, lemma_decimal_value_is_natural,
    signed_decimal,
};
use crate::grammar::{
    digits_end, is_digit, is_word, is_word_start, lemma_digits_end_bounds,
    lemma_space_end_bounds, lemma_word_end_bounds, space_end, space_width, structural, word_end,
    word_kind, word_or_number,
};
use crate::tokens::{tokens_fit, Token, TokenKind};

verus! {

/// A text that is white space from end to end has no tokens and no errors.
pub proof fn law_white_space_is_silent(s: Seq<u8>)
    requires
        space_end(s, 0) == s.len(),
    ensures
        lex(s) == (Seq::<Token>::empty(), Seq::<LexerError>::empty()),
{
    let st = start_state();
    if s.len() > 0 {
        lemma_space_end_bounds(s, 0);
        assert(space_width(s, 0) > 0);
        assert(scan(s, 0) == Scan::Skip(s.len() as int));
        let end = LexState { position: s.len() as int, ..st };
        assert(next_token(s, end) == (None::<Token>, end));
        assert(next_token(s, st) == (None::<Token>, end));
    } else {
        assert(next_token(s, st) == (None::<Token>, st));
    }
}

/// The span covers at least one byte, lies inside `s`, and at each of its
/// offsets stands a byte that begins no token.
pub open spec fn is_unknown_run(s: Seq<u8>, span: Span) -> bool {
    &&& span.start < span.start + span.len <= s.len()
    &&& forall|j: int| span.start <= j < span.start + span.len ==> #[trigger] scan(s, j) is Unknown
}

/// What stands just behind the span is no byte that begins no token: the run
/// cannot be made longer at its end.
pub open spec fn run_is_closed(s: Seq<u8>, span: Span) -> bool {
    span.start + span.len < s.len() ==> !(scan(s, span.start + span.len) is Unknown)
}

/// What holds of the unknown tokens among the errors while the lexer works:
/// each is a run of unknown bytes in front of the position; each is closed,
/// but for the last, which may end at the position and still grow; and of two
/// neighbours in the list the first ends in front of the second's start.
pub open spec fn runs_in_order(s: Seq<u8>, st: LexState) -> bool {
    &&& 0 <= st.position <= s.len()
    &&& forall|k: int|
        0 <= k < st.errors.len() && (#[trigger] st.errors[k]) is UnknownToken ==> {
            let span = st.errors[k]->UnknownToken_0;
            &&& is_unknown_run(s, span)
            &&& span.start + span.len <= st.position
            &&& (run_is_closed(s, span) || (k == st.errors.len() - 1 && span.start + span.len
                == st.position && !st.stop))
            &&& (k + 1 < st.errors.len() && st.errors[k + 1] is UnknownToken ==> span.start
                + span.len < st.errors[k + 1]->UnknownToken_0.start)
        }
}

proof fn lemma_note_unknown_keeps_order(s: Seq<u8>, st: LexState)
    requires
        s.len() <= usize::MAX,
        runs_in_order(s, st),
        !st.stop,
        st.position < s.len(),
        scan(s, st.position) is Unknown,
    ensures
        runs_in_order(
            s,
            LexState {
                position: st.position + 1,
                errors: coalesce(st.errors, span_at(st.position, 1)),
                ..st
            },
        ),
{
    let i = st.position;
    let old_errors = st.errors;
    let error = span_at(i, 1);
    let errors = coalesce(old_errors, error);
    let after = LexState { position: i + 1, errors, ..st };
    let m = old_errors.len() - 1;
    if old_errors.len() > 0 && (old_errors.last() matches LexerError::UnknownToken(prev)
        && prev.spec_end() == error.start) {
        let prev = old_errors[m]->UnknownToken_0;
        assert(old_errors[m] is UnknownToken);
        assert(prev.start + prev.len == i);
        let grown = Span { unit: prev.unit, start: prev.start, len: (prev.len + 1) as usize };
        assert(errors == old_errors.drop_last().push(LexerError::UnknownToken(grown)));
        assert forall|k: int|
            0 <= k < errors.len() && (#[trigger] errors[k]) is UnknownToken implies {
            let span = errors[k]->UnknownToken_0;
            &&& is_unknown_run(s, span)
            &&& span.start + span.len <= after.position
            &&& (run_is_closed(s, span) || (k == errors.len() - 1 && span.start + span.len
                == after.position && !after.stop))
            &&& (k + 1 < errors.len() && errors[k + 1] is UnknownToken ==> span.start + span.len
                < errors[k + 1]->UnknownToken_0.start)
        } by {
            if k < m {
                assert(errors[k] == old_errors[k]);
                assert(old_errors[k] is UnknownToken);
                if k + 1 < m {
                    assert(errors[k + 1] == old_errors[k + 1]);
                }
            } else {
                assert(errors[k]->UnknownToken_0 == grown);
                assert forall|j: int| grown.start <= j < grown.start + grown.len implies #[trigger] scan(
                    s,
                    j,
                ) is Unknown by {
                    if j < i {
                        assert(prev.start <= j < prev.start + prev.len);
                    }
                }
            }
        }
    } else {
        assert(errors == old_errors.push(LexerError::UnknownToken(error)));
        assert forall|k: int|
            0 <= k < errors.len() && (#[trigger] errors[k]) is UnknownToken implies {
            let span = errors[k]->UnknownToken_0;
            &&& is_unknown_run(s, span)
            &&& span.start + span.len <= after.position
            &&& (run_is_closed(s, span) || (k == errors.len() - 1 && span.start + span.len
                == after.position && !after.stop))
            &&& (k + 1 < errors.len() && errors[k + 1] is UnknownToken ==> span.start + span.len
                < errors[k + 1]->UnknownToken_0.start)
        } by {
            if k < old_errors.len() {
                assert(errors[k] == old_errors[k]);
                assert(old_errors[k] is UnknownToken);
                if k + 1 < old_errors.len() {
                    assert(errors[k + 1] == old_errors[k + 1]);
                }
            } else {
                assert(errors[k]->UnknownToken_0 == error);
            }
        }
    }
}

proof fn lemma_next_token_keeps_order(s: Seq<u8>, st: LexState)
    requires
        s.len() <= usize::MAX,
        runs_in_order(s, st),
    ensures
        runs_in_order(s, next_token(s, st).1),
        next_token(s, st).0 is None ==> next_token(s, st).1.stop || next_token(s, st).1.position
            >= s.len(),
    decreases s.len() - st.position,
{
    let i = st.position;
    if !(st.stop || i >= s.len()) {
        lemma_scan_bounds(s, i);
        match scan(s, i) {
            Scan::Skip(next) => {
                let after = LexState { position: next, ..st };
                assert(runs_in_order(s, after));
                lemma_next_token_keeps_order(s, after);
            },
            Scan::Found(kind, len) => {
                assert(runs_in_order(s, LexState { position: i + len, ..st }));
            },
            Scan::Unknown => {
                lemma_note_unknown_keeps_order(s, st);
                lemma_next_token_keeps_order(
                    s,
                    LexState { position: i + 1, errors: coalesce(st.errors, span_at(i, 1)), ..st },
                );
            },
            Scan::Nested(inner) => {
                let errors = st.errors.push(
                    LexerError::NestedComment(span_at(i, 2), span_at(inner, 2)),
                );
                let after = LexState { stop: true, errors, ..st };
                assert forall|k: int|
                    0 <= k < errors.len() && (#[trigger] errors[k]) is UnknownToken implies k
                    < st.errors.len() && st.errors[k] == errors[k] && st.errors[k] is UnknownToken by {}
                assert(runs_in_order(s, after));
            },
            Scan::Unterminated => {
                let errors = st.errors.push(LexerError::UnexpectedEofInsideComment(span_at(i, 2)));
                let after = LexState { stop: true, errors, ..st };
                assert forall|k: int|
                    0 <= k < errors.len() && (#[trigger] errors[k]) is UnknownToken implies k
                    < st.errors.len() && st.errors[k] == errors[k] && st.errors[k] is UnknownToken by {}
                assert(runs_in_order(s, after));
            },
            Scan::Eof => {
                assert(runs_in_order(s, LexState { position: s.len() as int, stop: true, ..st }));
            },
        }
    }
}

proof fn lemma_lex_from_keeps_order(s: Seq<u8>, st: LexState)
    requires
        s.len() <= usize::MAX,
        runs_in_order(s, st),
    ensures
        runs_in_order(s, lex_from(s, st).1),
        lex_from(s, st).1.stop || lex_from(s, st).1.position >= s.len(),
    decreases s.len() - st.position,
{
    lemma_next_token_keeps_order(s, st);
    lemma_next_token_advances(s, st);
    if next_token(s, st).0 is Some {
        lemma_lex_from_keeps_order(s, next_token(s, st).1);
    }
}

/// Every unknown token among the errors of a text is one whole run of bytes
/// that begin no token: it is not empty, each of its bytes is such a byte, and
/// the byte behind it is none. No two unknown tokens that are neighbours in
/// the list touch: the first ends in front of the second's start.
pub proof fn law_unknown_tokens_are_whole_runs(s: Seq<u8>, k: int)
    requires
        s.len() <= usize::MAX,
        0 <= k < lex(s).1.len(),
        lex(s).1[k] is UnknownToken,
    ensures
        is_unknown_run(s, lex(s).1[k]->UnknownToken_0),
        run_is_closed(s, lex(s).1[k]->UnknownToken_0),
        k + 1 < lex(s).1.len() && lex(s).1[k + 1] is UnknownToken ==> lex(s).1[k]->UnknownToken_0.start
            + lex(s).1[k]->UnknownToken_0.len < lex(s).1[k + 1]->UnknownToken_0.start,
{
    lemma_lex_from_keeps_order(s, start_state());
    let end = lex_from(s, start_state()).1;
    assert(end.errors[k] is UnknownToken);
}

/// The token stands in the main unit, inside `s`, where the lexer finds a
/// token of its kind and length.
pub open spec fn token_matches(s: Seq<u8>, token: Token) -> bool {
    &&& token.span.unit == Id::Main
    &&& token.span.start + token.span.len <= s.len()
    &&& scan(s, token.span.start as int) == Scan::Found(token.kind, token.span.len as int)
}

proof fn lemma_next_token_matches(s: Seq<u8>, st: LexState)
    requires
        s.len() <= usize::MAX,
        0 <= st.position <= s.len(),
    ensures
        next_token(s, st).0 matches Some(token) ==> token_matches(s, token) && st.position
            <= token.span.start && token.span.start + token.span.len == next_token(
            s,
            st,
        ).1.position,
    decreases s.len() - st.position,
{
    let i = st.position;
    if !(st.stop || i >= s.len()) {
        lemma_scan_bounds(s, i);
        match scan(s, i) {
            Scan::Skip(next) => {
                lemma_next_token_matches(s, LexState { position: next, ..st });
            },
            Scan::Unknown => {
                lemma_next_token_matches(
                    s,
                    LexState { position: i + 1, errors: coalesce(st.errors, span_at(i, 1)), ..st },
                );
            },
            _ => {},
        }
    }
}

/// The tokens stand in the order of the text and do not overlap, none of them
/// in front of `from`, and each where the lexer finds it.
pub open spec fn tokens_in_order(s: Seq<u8>, tokens: Seq<Token>, from: int) -> bool {
    &&& forall|k: int|
        0 <= k < tokens.len() ==> token_matches(s, #[trigger] tokens[k]) && from
            <= tokens[k].span.start
    &&& forall|j: int, k: int|
        0 <= j < k < tokens.len() ==> tokens[j].span.start + tokens[j].span.len
            <= tokens[k].span.start
}

pub proof fn lemma_lex_from_in_order(s: Seq<u8>, st: LexState)
    requires
        s.len() <= usize::MAX,
        0 <= st.position <= s.len(),
    ensures
        tokens_in_order(s, lex_from(s, st).0, st.position),
    decreases s.len() - st.position,
{
    lemma_next_token_matches(s, st);
    lemma_next_token_advances(s, st);
    let (token, after) = next_token(s, st);
    if token is Some {
        lemma_lex_from_in_order(s, after);
        let first = token->0;
        let rest = lex_from(s, after).0;
        let tokens = lex_from(s, st).0;
        assert(tokens == seq![first] + rest);
        assert forall|k: int| 0 <= k < tokens.len() implies token_matches(
            s,
            #[trigger] tokens[k],
        ) && st.position <= tokens[k].span.start by {
            if k > 0 {
                assert(tokens[k] == rest[k - 1]);
            }
        }
        assert forall|j: int, k: int| 0 <= j < k < tokens.len() implies tokens[j].span.start
            + tokens[j].span.len <= tokens[k].span.start by {
            assert(tokens[k] == rest[k - 1]);
            if j > 0 {
                assert(tokens[j] == rest[j - 1]);
            }
        }
    }
}

/// No token is of the kind that names white space or of the kind of a token
/// that is not classified.
pub proof fn law_tokens_are_classified(s: Seq<u8>, k: int)
    requires
        s.len() <= usize::MAX,
        0 <= k < lex(s).0.len(),
    ensures
        lex(s).0[k].kind != TokenKind::Whitespace,
        lex(s).0[k].kind != TokenKind::Invalid,
{
    law_tokens_in_order(s);
    let token = lex(s).0[k];
    assert(token_matches(s, token));
}

/// The tokens of a text stand in the order of the text without overlapping,
/// each in the main unit and where the lexer finds a token of its kind and
/// length.
pub proof fn law_tokens_in_order(s: Seq<u8>)
    requires
        s.len() <= usize::MAX,
    ensures
        tokens_in_order(s, lex(s).0, 0),
{
    lemma_lex_from_in_order(s, start_state());
}

proof fn lemma_word_end_of_words(w: Seq<u8>, j: int)
    requires
        0 <= j <= w.len(),
        forall|k: int| j <= k < w.len() ==> is_word(#[trigger] w[k]),
    ensures
        word_end(w, j) == w.len(),
    decreases w.len() - j,
{
    if j < w.len() {
        lemma_word_end_of_words(w, j + 1);
    }
}

proof fn lemma_digits_end_of_digits(w: Seq<u8>, j: int)
    requires
        0 <= j <= w.len(),
        forall|k: int| j <= k < w.len() ==> is_digit(#[trigger] w[k]),
    ensures
        digits_end(w, j) == w.len(),
    decreases w.len() - j,
{
    if j < w.len() {
        lemma_digits_end_of_digits(w, j + 1);
    }
}

/// The bytes of a token are ASCII bytes.
pub proof fn lemma_token_is_ascii(s: Seq<u8>, i: int)
    requires
        0 <= i < s.len(),
        scan(s, i) is Found,
    ensures
        ascii_between(s, i, i + scan(s, i)->Found_1),
{
    lemma_word_end_bounds(s, i);
    lemma_digits_end_bounds(s, i);
    let n = scan(s, i)->Found_1;
    assert forall|j: int| i <= j < i + n implies is_ascii_byte(#[trigger] s[j]) by {
        if structural(s[i]) is Some {
        } else if is_word_start(s[i]) {
            assert(is_word(s[j]));
        } else {
            assert(is_digit(s[j]));
        }
    }
}

/// A token's lexeme, lexed alone, is one token of the same kind and no error.
pub proof fn lemma_lexeme_lexes_alike(s: Seq<u8>, i: int)
    requires
        s.len() <= usize::MAX,
        0 <= i < s.len(),
        scan(s, i) is Found,
    ensures
        lex(s.subrange(i, i + scan(s, i)->Found_1)) == (
            seq![Token { kind: scan(s, i)->Found_0, span: span_at(0, scan(s, i)->Found_1) }],
            Seq::<LexerError>::empty(),
        ),
{
    lemma_scan_bounds(s, i);
    lemma_word_end_bounds(s, i);
    lemma_digits_end_bounds(s, i);
    let kind = scan(s, i)->Found_0;
    let n = scan(s, i)->Found_1;
    let w = s.subrange(i, i + n);
    assert(w[0] == s[i]);
    assert(space_width(w, 0) == 0);
    if structural(s[i]) is Some {
    } else if is_word_start(s[i]) {
        assert forall|k: int| 0 <= k < w.len() implies is_word(#[trigger] w[k]) by {
            assert(w[k] == s[i + k]);
        }
        lemma_word_end_of_words(w, 0);
        assert(w.subrange(0, n) =~= w);
        assert(word_or_number(w, 0) == Some((TokenKind::Identifier, n)));
    } else {
        assert forall|k: int| 0 <= k < w.len() implies is_digit(#[trigger] w[k]) by {
            assert(w[k] == s[i + k]);
        }
        lemma_digits_end_of_digits(w, 0);
        assert(word_or_number(w, 0) == Some((TokenKind::Constant, n)));
    }
    assert(scan(w, 0) == Scan::Found(kind, n));
    let st = start_state();
    let token = Token { kind, span: span_at(0, n) };
    let after = LexState { position: n, ..st };
    assert(next_token(w, st) == (Some(token), after));
    assert(next_token(w, after) == (None::<Token>, after));
    assert(lex_from(w, after) == (Seq::<Token>::empty(), after));
    assert(lex_from(w, st).0 == seq![token] + Seq::<Token>::empty());
    assert(seq![token] + Seq::<Token>::empty() =~= seq![token]);
}

/// Round trip: each token of a text lies inside the text, and its lexeme,
/// lexed alone, gives one token of the same kind, which covers it from end to
/// end, and no error.
pub proof fn law_tokens_round_trip(s: Seq<u8>, k: int)
    requires
        s.len() <= usize::MAX,
        0 <= k < lex(s).0.len(),
    ensures
        lex(s).0[k].span.start + lex(s).0[k].span.len <= s.len(),
        lex(s.subrange(lex(s).0[k].span.start as int, lex(s).0[k].span.start + lex(s).0[k].span.len))
            == (
            seq![Token { kind: lex(s).0[k].kind, span: span_at(0, lex(s).0[k].span.len as int) }],
            Seq::<LexerError>::empty(),
        ),
{
    law_tokens_in_order(s);
    let token = lex(s).0[k];
    assert(token_matches(s, token));
    lemma_scan_bounds(s, token.span.start as int);
    lemma_lexeme_lexes_alike(s, token.span.start as int);
}

/// In a text that is valid UTF-8, the span of every token found from `st` on
/// can be cut out: it begins and ends between characters.
pub proof fn lemma_lexed_tokens_fit(s: Seq<u8>, st: LexState)
    requires
        s.len() <= usize::MAX,
        valid_utf8(s),
        0 <= st.position <= s.len(),
    ensures
        tokens_fit(lex_from(s, st).0, s),
{
    lemma_lex_from_in_order(s, st);
    let tokens = lex_from(s, st).0;
    assert forall|k: int| 0 <= k < tokens.len() implies sliceable(
        s,
        (#[trigger] tokens[k]).span.start as int,
        tokens[k].span.start + tokens[k].span.len,
    ) by {
        let token = tokens[k];
        assert(token_matches(s, token));
        let i = token.span.start as int;
        lemma_scan_bounds(s, i);
        lemma_token_is_ascii(s, i);
        lemma_ascii_run_sliceable(s, i, i + token.span.len);
    }
}

/// The lexeme of a constant that the lexer finds is made of decimal digits,
/// one for each byte, so it writes down a number that is not negative. Its
/// conversion gives that number, or fails because the number is too large,
/// and for no other cause.
pub proof fn law_constants_are_digits(s: Seq<u8>, token: Token)
    requires
        token_matches(s, token),
        token.kind == TokenKind::Constant,
    ensures
        lexeme(s, token.span).len() == token.span.len,
        all_digits(lexeme(s, token.span)),
        signed_decimal(lexeme(s, token.span)) == Some(decimal_value(lexeme(s, token.span))),
        0 <= decimal_value(lexeme(s, token.span)),
        forall|parsed: Result<i64, IntParseError>| #[trigger]
            is_conversion_of(lexeme(s, token.span), parsed) ==> parsed == (if decimal_value(
                lexeme(s, token.span),
            ) <= i64::MAX {
                Ok::<i64, IntParseError>(decimal_value(lexeme(s, token.span)) as i64)
            } else {
                Err::<i64, IntParseError>(IntParseError::PosOverflow)
            }),
{
    let i = token.span.start as int;
    let n = token.span.len as int;
    lemma_word_end_bounds(s, i);
    lemma_digits_end_bounds(s, i);
    let w = s.subrange(i, i + n);
    assert(0 <= i < s.len()) by {
        if i >= s.len() {
            assert(scan(s, i) is Unknown);
        }
    }
    lemma_scan_bounds(s, i);
    assert(structural(s[i]) is None);
    assert(!is_word_start(s[i])) by {
        if is_word_start(s[i]) {
            assert(scan(s, i)->Found_0 == word_kind(s.subrange(i, i + n)));
        }
    }
    assert(n == digits_end(s, i) - i);
    assert forall|k: int| 0 <= k < w.len() implies is_digit(#[trigger] w[k]) by {
        assert(w[k] == s[i + k]);
    }
    assert forall|k: int| 0 <= k < w.len() implies is_ascii_byte(#[trigger] w[k]) by {
        assert(is_digit(w[k]));
    }
    lemma_decode_ascii(w);
    let chars = lexeme(s, token.span);
    assert(chars == decode_utf8(w));
    assert forall|k: int| 0 <= k < chars.len() implies is_digit_char(#[trigger] chars[k]) by {
        assert(chars[k] as u32 == w[k]);
        assert(is_digit(w[k]));
    }
    lemma_decimal_value_is_natural(chars);
}

/// The error is one that the lexer gives at its place: for a comment error,
/// the spans cover the opening markers that the scan of the text finds.
pub open spec fn error_matches(s: Seq<u8>, error: LexerError) -> bool {
    match error {
        LexerError::UnknownToken(span) => is_unknown_run(s, span),
        LexerError::NestedComment(outer, inner) => {
            &&& outer == span_at(outer.start as int, 2)
            &&& inner == span_at(inner.start as int, 2)
            &&& scan(s, outer.start as int) == Scan::Nested(inner.start as int)
        },
        LexerError::UnexpectedEofInsideComment(span) => {
            &&& span == span_at(span.start as int, 2)
            &&& scan(s, span.start as int) == Scan::Unterminated
        },
    }
}

/// What holds of the comment errors while the lexer works: only the last
/// error can be one, and then the scan is stopped.
pub open spec fn comment_error_last(s: Seq<u8>, st: LexState) -> bool {
    &&& 0 <= st.position <= s.len()
    &&& forall|k: int| 0 <= k < st.errors.len() - 1 ==> (#[trigger] st.errors[k]) is UnknownToken
    &&& (st.errors.len() > 0 && !(st.errors.last() is UnknownToken) ==> st.stop && error_matches(
        s,
        st.errors.last(),
    ))
}

proof fn lemma_next_token_keeps_comment_error_last(s: Seq<u8>, st: LexState)
    requires
        s.len() <= usize::MAX,
        comment_error_last(s, st),
    ensures
        comment_error_last(s, next_token(s, st).1),
    decreases s.len() - st.position,
{
    let i = st.position;
    if !(st.stop || i >= s.len()) {
        lemma_scan_bounds(s, i);
        match scan(s, i) {
            Scan::Skip(next) => {
                lemma_next_token_keeps_comment_error_last(s, LexState { position: next, ..st });
            },
            Scan::Unknown => {
                let errors = coalesce(st.errors, span_at(i, 1));
                let after = LexState { position: i + 1, errors, ..st };
                assert forall|k: int| 0 <= k < errors.len() implies (#[trigger] errors[k]) is UnknownToken by {
                    if k < st.errors.len() - 1 {
                        assert(st.errors[k] is UnknownToken);
                        assert(errors[k] == st.errors[k]);
                    }
                }
                lemma_next_token_keeps_comment_error_last(s, after);
            },
            Scan::Nested(inner) => {
                let errors = st.errors.push(
                    LexerError::NestedComment(span_at(i, 2), span_at(inner, 2)),
                );
                assert forall|k: int| 0 <= k < errors.len() - 1 implies (#[trigger] errors[k]) is UnknownToken by {
                    assert(errors[k] == st.errors[k]);
                    if k < st.errors.len() - 1 {
                        assert(st.errors[k] is UnknownToken);
                    }
                }
            },
            Scan::Unterminated => {
                let errors = st.errors.push(LexerError::UnexpectedEofInsideComment(span_at(i, 2)));
                assert forall|k: int| 0 <= k < errors.len() - 1 implies (#[trigger] errors[k]) is UnknownToken by {
                    assert(errors[k] == st.errors[k]);
                    if k < st.errors.len() - 1 {
                        assert(st.errors[k] is UnknownToken);
                    }
                }
            },
            _ => {},
        }
    }
}

proof fn lemma_lex_from_keeps_comment_error_last(s: Seq<u8>, st: LexState)
    requires
        s.len() <= usize::MAX,
        comment_error_last(s, st),
    ensures
        comment_error_last(s, lex_from(s, st).1),
    decreases s.len() - st.position,
{
    lemma_next_token_keeps_comment_error_last(s, st);
    lemma_next_token_advances(s, st);
    if next_token(s, st).0 is Some {
        lemma_lex_from_keeps_comment_error_last(s, next_token(s, st).1);
    }
}

/// A comment error is fatal: it is the last error of the text, the lexer has
/// stopped at it, and its spans cover the two bytes of the opening marker of
/// the comment and, for a nested comment, of the first marker inside it.
pub proof fn law_comment_errors_are_fatal(s: Seq<u8>, k: int)
    requires
        s.len() <= usize::MAX,
        0 <= k < lex(s).1.len(),
        !(lex(s).1[k] is UnknownToken),
    ensures
        k == lex(s).1.len() - 1,
        lex_from(s, start_state()).1.stop,
        error_matches(s, lex(s).1[k]),
{
    lemma_lex_from_keeps_comment_error_last(s, start_state());
    let end = lex_from(s, start_state()).1;
    if k < end.errors.len() - 1 {
        assert(end.errors[k] is UnknownToken);
    }
}

/// No two unknown tokens among the errors of a text touch or overlap: the one
/// that comes first in the list ends in front of the other's start.
pub proof fn law_unknown_tokens_lie_apart(s: Seq<u8>, j: int, k: int)
    requires
        s.len() <= usize::MAX,
        0 <= j < k < lex(s).1.len(),
        lex(s).1[j] is UnknownToken,
        lex(s).1[k] is UnknownToken,
    ensures
        lex(s).1[j]->UnknownToken_0.start + lex(s).1[j]->UnknownToken_0.len
            < lex(s).1[k]->UnknownToken_0.start,
    decreases k - j,
{
    lemma_lex_from_keeps_comment_error_last(s, start_state());
    let errors = lex(s).1;
    if j + 1 == k {
        law_unknown_tokens_are_whole_runs(s, j);
    } else {
        assert(errors[k - 1] is UnknownToken);
        law_unknown_tokens_lie_apart(s, j, k - 1);
        law_unknown_tokens_are_whole_runs(s, k - 1);
    }
}

/// The lexer ends at the end of the text or stopped; from where it ends it
/// finds nothing more.
pub proof fn lemma_lex_from_ends(s: Seq<u8>, st: LexState)
    requires
        0 <= st.position <= s.len(),
    ensures
        lex_from(s, st).1.stop || lex_from(s, st).1.position == s.len(),
        lex_from(s, lex_from(s, st).1) == (Seq::<Token>::empty(), lex_from(s, st).1),
    decreases s.len() - st.position,
{
    lemma_next_token_advances(s, st);
    lemma_next_token_ends(s, st);
    let (token, after) = next_token(s, st);
    if token is Some {
        lemma_lex_from_ends(s, after);
    } else {
        assert(next_token(s, after) == (None::<Token>, after));
    }
}

proof fn lemma_next_token_ends(s: Seq<u8>, st: LexState)
    requires
        0 <= st.position <= s.len(),
    ensures
        next_token(s, st).0 is None ==> next_token(s, st).1.stop || next_token(s, st).1.position
            == s.len(),
    decreases s.len() - st.position,
{
    let i = st.position;
    if !(st.stop || i >= s.len()) {
        lemma_scan_bounds(s, i);
        match scan(s, i) {
            Scan::Skip(next) => {
                lemma_next_token_ends(s, LexState { position: next, ..st });
            },
            Scan::Unknown => {
                lemma_next_token_ends(
                    s,
                    LexState { position: i + 1, errors: coalesce(st.errors, span_at(i, 1)), ..st },
                );
            },
            _ => {},
        }
    }
}

/// The lexer, begun at offset `from`, comes to stand at offset `j`: `j` is
/// `from`, or an offset at which it stands after what it finds at `from`.
pub open spec fn stands_at(s: Seq<u8>, from: int, j: int) -> bool
    decreases s.len() - from,
    via stands_at_decreases
{
    if from < 0 || from >= s.len() {
        false
    } else if j == from {
        true
    } else {
        match scan(s, from) {
            Scan::Skip(next) => stands_at(s, next, j),
            Scan::Found(kind, len) => stands_at(s, from + len, j),
            Scan::Unknown => stands_at(s, from + 1, j),
            _ => false,
        }
    }
}

#[via_fn]
proof fn stands_at_decreases(s: Seq<u8>, from: int, j: int) {
    if 0 <= from < s.len() {
        lemma_scan_bounds(s, from);
    }
}

/// One of the unknown tokens among `errors` covers offset `j`.
pub open spec fn covered(errors: Seq<LexerError>, j: int) -> bool {
    exists|k: int|
        0 <= k < errors.len() && (#[trigger] errors[k]) is UnknownToken
            && errors[k]->UnknownToken_0.start <= j < errors[k]->UnknownToken_0.start
            + errors[k]->UnknownToken_0.len
}

proof fn lemma_coalesce_covers(errors: Seq<LexerError>, at: int, j: int)
    requires
        0 <= at < usize::MAX,
        covered(errors, j) || j == at,
        errors.len() > 0 && errors.last() is UnknownToken ==> errors.last()->UnknownToken_0.start
            + errors.last()->UnknownToken_0.len <= at,
    ensures
        covered(coalesce(errors, span_at(at, 1)), j),
{
    let after = coalesce(errors, span_at(at, 1));
    let merges = errors.len() > 0 && errors.last() is UnknownToken
        && errors.last()->UnknownToken_0.spec_end() == at;
    if j == at {
        assert(after.last() is UnknownToken);
        assert(after[after.len() - 1] == after.last());
        if merges {
            assert(after.last()->UnknownToken_0.start <= at);
        }
    } else {
        let k = choose|k: int|
            0 <= k < errors.len() && (#[trigger] errors[k]) is UnknownToken
                && errors[k]->UnknownToken_0.start <= j < errors[k]->UnknownToken_0.start
                + errors[k]->UnknownToken_0.len;
        if merges && k == errors.len() - 1 {
            assert(after[k] is UnknownToken);
            assert(after[k]->UnknownToken_0.start == errors[k]->UnknownToken_0.start);
        } else {
            assert(after[k] == errors[k]);
        }
    }
}

proof fn lemma_next_token_covers(s: Seq<u8>, st: LexState, j: int)
    requires
        s.len() <= usize::MAX,
        runs_in_order(s, st),
        covered(st.errors, j) || (!st.stop && stands_at(s, st.position, j) && scan(s, j) is Unknown),
    ensures
        covered(next_token(s, st).1.errors, j) || (!next_token(s, st).1.stop && stands_at(
            s,
            next_token(s, st).1.position,
            j,
        ) && scan(s, j) is Unknown && next_token(s, st).0 is Some),
    decreases s.len() - st.position,
{
    let i = st.position;
    if !(st.stop || i >= s.len()) {
        lemma_scan_bounds(s, i);
        match scan(s, i) {
            Scan::Skip(next) => {
                let after = LexState { position: next, ..st };
                assert(runs_in_order(s, after));
                lemma_next_token_covers(s, after, j);
            },
            Scan::Unknown => {
                let after = LexState {
                    position: i + 1,
                    errors: coalesce(st.errors, span_at(i, 1)),
                    ..st
                };
                lemma_note_unknown_keeps_order(s, st);
                if covered(st.errors, j) || j == i {
                    if st.errors.len() > 0 && st.errors.last() is UnknownToken {
                        assert(st.errors[st.errors.len() - 1] is UnknownToken);
                    }
                    lemma_coalesce_covers(st.errors, i, j);
                }
                lemma_next_token_covers(s, after, j);
            },
            Scan::Nested(inner) => {
                let errors = st.errors.push(
                    LexerError::NestedComment(span_at(i, 2), span_at(inner, 2)),
                );
                if covered(st.errors, j) {
                    let k = choose|k: int|
                        0 <= k < st.errors.len() && (#[trigger] st.errors[k]) is UnknownToken
                            && st.errors[k]->UnknownToken_0.start <= j
                            < st.errors[k]->UnknownToken_0.start
                            + st.errors[k]->UnknownToken_0.len;
                    assert(errors[k] == st.errors[k]);
                }
            },
            Scan::Unterminated => {
                let errors = st.errors.push(LexerError::UnexpectedEofInsideComment(span_at(i, 2)));
                if covered(st.errors, j) {
                    let k = choose|k: int|
                        0 <= k < st.errors.len() && (#[trigger] st.errors[k]) is UnknownToken
                            && st.errors[k]->UnknownToken_0.start <= j
                            < st.errors[k]->UnknownToken_0.start
                            + st.errors[k]->UnknownToken_0.len;
                    assert(errors[k] == st.errors[k]);
                }
            },
            _ => {},
        }
    }
}

proof fn lemma_lex_from_covers(s: Seq<u8>, st: LexState, j: int)
    requires
        s.len() <= usize::MAX,
        runs_in_order(s, st),
        covered(st.errors, j) || (!st.stop && stands_at(s, st.position, j) && scan(s, j) is Unknown),
    ensures
        covered(lex_from(s, st).1.errors, j),
    decreases s.len() - st.position,
{
    lemma_next_token_covers(s, st, j);
    lemma_next_token_keeps_order(s, st);
    lemma_next_token_advances(s, st);
    if next_token(s, st).0 is Some {
        lemma_lex_from_covers(s, next_token(s, st).1, j);
    }
}

/// Every byte that begins no token, at an offset at which the lexer comes to
/// stand, lies in one of the unknown tokens among the errors of the text.
pub proof fn law_unknown_bytes_are_reported(s: Seq<u8>, j: int)
    requires
        s.len() <= usize::MAX,
        stands_at(s, 0, j),
        scan(s, j) is Unknown,
    ensures
        covered(lex(s).1, j),
{
    lemma_lex_from_covers(s, start_state(), j);
}

} // verus!
