use vstd::prelude::*;
use std::num::IntErrorKind;
use crate::errors::{IntParseError, ParseError};
use crate::tokens::Token;

verus! {

/// `0` to `9`
pub open spec fn is_digit_char(c: char) -> bool {
    0x30 <= c as u32 <= 0x39
}

/// Every character of `s` is a decimal digit.
pub open spec fn all_digits(s: Seq<char>) -> bool {
    forall|i: int| 0 <= i < s.len() ==> is_digit_char(#[trigger] s[i])
}

/// The number that the decimal digits `digits` write down.
pub open spec fn decimal_value(digits: Seq<char>) -> int
    decreases digits.len(),
{
    if digits.len() == 0 {
        0
    } else {
        decimal_value(digits.drop_last()) * 10 + (digits.last() as u32 - 0x30)
    }
}

/// Decimal digits write down a number that is not negative.
pub proof fn lemma_decimal_value_is_natural(digits: Seq<char>)
    requires
        all_digits(digits),
    ensures
        0 <= decimal_value(digits),
    decreases digits.len(),
{
    if digits.len() > 0 {
        let front = digits.drop_last();
        assert forall|i: int| 0 <= i < front.len() implies is_digit_char(#[trigger] front[i]) by {
            assert(front[i] == digits[i]);
        }
        lemma_decimal_value_is_natural(front);
        assert(is_digit_char(digits[digits.len() - 1]));
    }
}

/// The integer that `s` writes down, where `s` is one or more decimal digits
/// with or without a `+` or `-` in front of them.
pub open spec fn signed_decimal(s: Seq<char>) -> Option<int> {
    if s.len() >= 1 && all_digits(s) {
        Some(decimal_value(s))
    } else if s.len() >= 2 && s[0] == '+' && all_digits(s.skip(1)) {
        Some(decimal_value(s.skip(1)))
    } else if s.len() >= 2 && s[0] == '-' && all_digits(s.skip(1)) {
        Some(-decimal_value(s.skip(1)))
    } else {
        None
    }
}

/// What `i64::from_str_radix` with radix 10 returns for `text`, its error
/// given by kind.
pub uninterp spec fn radix10_i64(text: Seq<char>) -> Result<i64, IntParseError>;

/// `parsed` is what the conversion of `text` owes: the number where `text`
/// writes one down that an `i64` holds, an overflow where it writes down one
/// that is too large or too small, `Empty` for the empty text, and an error
/// for every other text.
pub open spec fn is_conversion_of(text: Seq<char>, parsed: Result<i64, IntParseError>) -> bool {
    match signed_decimal(text) {
        Some(value) => if value > i64::MAX {
            parsed == Err::<i64, IntParseError>(IntParseError::PosOverflow)
        } else if value < i64::MIN {
            parsed == Err::<i64, IntParseError>(IntParseError::NegOverflow)
        } else {
            parsed == Ok::<i64, IntParseError>(value as i64)
        },
        None => if text.len() == 0 {
            parsed == Err::<i64, IntParseError>(IntParseError::Empty)
        } else {
            parsed is Err
        },
    }
}

/// Calls `i64::from_str_radix` with radix 10 and gives its error by kind.
/// The result is a function of the text. Claimed of it, as std documents the
/// call: a text of decimal digits, with or without a sign in front, gives its
/// number, or the overflow on whose side it lies outside of `i64`; the empty
/// text gives `Empty`; any other text gives an error.
#[verifier::external_body]
fn from_decimal(text: &str) -> (parsed: Result<i64, IntParseError>)
    ensures
        parsed == radix10_i64(text@),
        is_conversion_of(text@, parsed),
{
    match i64::from_str_radix(text, 10) {
        Ok(num) => Ok(num),
        Err(err) => Err(
            match err.kind() {
                IntErrorKind::PosOverflow => IntParseError::PosOverflow,
                IntErrorKind::NegOverflow => IntParseError::NegOverflow,
                IntErrorKind::Empty => IntParseError::Empty,
                IntErrorKind::InvalidDigit => IntParseError::InvalidDigit,
                _ => IntParseError::PosOverflow,
            },
        ),
    }
}

/// The value of the constant `token` whose text was converted to `parsed`.
pub open spec fn number_outcome(parsed: Result<i64, IntParseError>, token: Token) -> Result<
    i64,
    ParseError,
> {
    match parsed {
        Ok(num) => Ok(num),
        Err(cause) => Err(ParseError::InvalidNumber(token, cause)),
    }
}

/// Turns the conversion's result for the text of `token` into the parser's:
/// a failed conversion is an invalid number at `token`, with its cause.
pub fn number_result(parsed: Result<i64, IntParseError>, token: &Token) -> (r: Result<
    i64,
    ParseError,
>)
    ensures
        r == number_outcome(parsed, *token),
{
    match parsed {
        Ok(num) => Ok(num),
        Err(cause) => Err(ParseError::InvalidNumber(token.clone(), cause)),
    }
}

/// The 64-bit signed integer that `text`, the text of `token`, writes down.
pub fn parse_number(text: &str, token: &Token) -> (r: Result<i64, ParseError>)
    ensures
        r == number_outcome(radix10_i64(text@), *token),
        is_conversion_of(text@, radix10_i64(text@)),
{
    number_result(from_decimal(text), token)
}

} // verus!
