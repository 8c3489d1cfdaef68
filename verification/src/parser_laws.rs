use vstd::prelude::*;
use crate::ast::{Expression, FunctionView, Program, ProgramView, Statement};
use crate::errors::ParseError;
use crate::parser::{first_mismatch, function_head, lexeme, program_at, yields};
use crate::token_collection::expected;
use crate::tokens::{Token, TokenKind};
use crate::utilities::radix10_i64;

verus! {

/// Parsing is repeatable: two results that `run` may give for the same
/// tokens, cursor and text are both errors, and then the same error, or both
/// programs, and then the same tree; and they leave the cursor at one place.
pub proof fn law_parsing_twice_gives_one_tree(
    tokens: Seq<Token>,
    bytes: Seq<u8>,
    at: int,
    first: Result<Program, ParseError>,
    first_cursor: int,
    second: Result<Program, ParseError>,
    second_cursor: int,
)
    requires
        yields(first, first_cursor, program_at(tokens, bytes, at)),
        yields(second, second_cursor, program_at(tokens, bytes, at)),
    ensures
        first_cursor == second_cursor,
        first is Ok <==> second is Ok,
        first is Ok ==> first->Ok_0@ == second->Ok_0@,
        first is Err ==> first->Err_0 == second->Err_0,
{
}

/// The kinds of a whole program, token by token.
pub open spec fn program_kinds() -> Seq<TokenKind> {
    seq![
        TokenKind::IntKeyword,
        TokenKind::Identifier,
        TokenKind::OpenParen,
        TokenKind::VoidKeyword,
        TokenKind::CloseParen,
        TokenKind::OpenBrace,
        TokenKind::ReturnKeyword,
        TokenKind::Constant,
        TokenKind::Semicolon,
        TokenKind::CloseBrace,
    ]
}

/// From place `at` on, `tokens` are of the kinds `kinds`, one after another.
pub open spec fn kinds_at(tokens: Seq<Token>, at: int, kinds: Seq<TokenKind>) -> bool {
    forall|k: int|
        0 <= k < kinds.len() ==> 0 <= at + k < tokens.len() && (#[trigger] tokens[at + k]).kind
            == kinds[k]
}

/// A program is accepted exactly where the tokens from the cursor to the end
/// are of the ten kinds of a program and the text of the constant is a 64-bit
/// signed integer. The tree then holds the text of the identifier as the name
/// and that integer as the value returned.
pub proof fn law_accepted_programs(tokens: Seq<Token>, bytes: Seq<u8>, at: int)
    requires
        0 <= at,
    ensures
        program_at(tokens, bytes, at).0 is Ok <==> tokens.len() == at + 10 && kinds_at(
            tokens,
            at,
            program_kinds(),
        ) && radix10_i64(lexeme(bytes, tokens[at + 7].span)) is Ok,
        program_at(tokens, bytes, at).0 is Ok ==> program_at(tokens, bytes, at) == (
            Ok::<ProgramView, ParseError>(
                ProgramView {
                    function: FunctionView {
                        name: lexeme(bytes, tokens[at + 1].span),
                        body: Statement::Return(
                            Expression::Constant(
                                radix10_i64(lexeme(bytes, tokens[at + 7].span))->Ok_0,
                            ),
                        ),
                    },
                },
            ),
            at + 10,
        ),
{
    reveal_with_fuel(first_mismatch, 7);
    let kinds = program_kinds();
    if program_at(tokens, bytes, at).0 is Ok {
        assert(first_mismatch(tokens, at, function_head(), 0) == 6);
        assert forall|k: int| 0 <= k < kinds.len() implies 0 <= at + k < tokens.len() && (
        #[trigger] tokens[at + k]).kind == kinds[k] by {
            if k == 0 {
                assert(expected(tokens, at, function_head()[0]) is Ok);
            } else if k == 1 {
                assert(expected(tokens, at + 1, function_head()[1]) is Ok);
            } else if k == 2 {
                assert(expected(tokens, at + 2, function_head()[2]) is Ok);
            } else if k == 3 {
                assert(expected(tokens, at + 3, function_head()[3]) is Ok);
            } else if k == 4 {
                assert(expected(tokens, at + 4, function_head()[4]) is Ok);
            } else if k == 5 {
                assert(expected(tokens, at + 5, function_head()[5]) is Ok);
            }
        }
    }
    if tokens.len() == at + 10 && kinds_at(tokens, at, kinds) && radix10_i64(
        lexeme(bytes, tokens[at + 7].span),
    ) is Ok {
        assert(tokens[at + 0].kind == kinds[0]);
        assert(tokens[at + 1].kind == kinds[1]);
        assert(tokens[at + 2].kind == kinds[2]);
        assert(tokens[at + 3].kind == kinds[3]);
        assert(tokens[at + 4].kind == kinds[4]);
        assert(tokens[at + 5].kind == kinds[5]);
        assert(tokens[at + 6].kind == kinds[6]);
        assert(tokens[at + 7].kind == kinds[7]);
        assert(tokens[at + 8].kind == kinds[8]);
        assert(tokens[at + 9].kind == kinds[9]);
        assert(first_mismatch(tokens, at, function_head(), 0) == 6);
    }
}

/// Parsing fails fast: the error of a program that is not accepted is the
/// error of the first thing that is amiss, in the order of the text. A token
/// of another kind than the grammar has at its place, or the end of the
/// tokens there, is amiss; so is a constant whose text is no integer; and so
/// are tokens behind the function.
pub proof fn law_first_error_wins(tokens: Seq<Token>, bytes: Seq<u8>, at: int, k: int)
    requires
        0 <= at,
        0 <= k < 10,
        kinds_at(tokens, at, program_kinds().subrange(0, k)),
        expected(tokens, at + k, program_kinds()[k]) is Err,
        k > 7 ==> radix10_i64(lexeme(bytes, tokens[at + 7].span)) is Ok,
    ensures
        program_at(tokens, bytes, at).0 == Err::<ProgramView, ParseError>(
            expected(tokens, at + k, program_kinds()[k])->Err_0,
        ),
{
    reveal_with_fuel(first_mismatch, 7);
    let kinds = program_kinds();
    let head = kinds.subrange(0, k);
    assert forall|j: int| 0 <= j < k implies expected(tokens, at + j, kinds[j]) is Ok by {
        assert(head[j] == kinds[j]);
        assert(tokens[at + j].kind == head[j]);
    }
    if k > 0 {
        assert(expected(tokens, at + 0, kinds[0]) is Ok);
    }
    if k > 1 {
        assert(expected(tokens, at + 1, kinds[1]) is Ok);
    }
    if k > 2 {
        assert(expected(tokens, at + 2, kinds[2]) is Ok);
    }
    if k > 3 {
        assert(expected(tokens, at + 3, kinds[3]) is Ok);
    }
    if k > 4 {
        assert(expected(tokens, at + 4, kinds[4]) is Ok);
    }
    if k > 5 {
        assert(expected(tokens, at + 5, kinds[5]) is Ok);
    }
    if k > 6 {
        assert(expected(tokens, at + 6, kinds[6]) is Ok);
    }
    if k > 7 {
        assert(expected(tokens, at + 7, kinds[7]) is Ok);
    }
    if k > 8 {
        assert(expected(tokens, at + 8, kinds[8]) is Ok);
    }
}

} // verus!
