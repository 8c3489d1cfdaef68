use vstd::prelude::*;
use vstd::string::StringSliceAdditionalSpecFns;
use vstd::utf8::{
    char_is_scalar, encode_scalar, has_width_1_encoding, has_width_2_encoding,
    has_width_3_encoding, is_ascii_chars, is_ascii_chars_encode_utf8,
};
use crate::tokens::TokenKind;

verus! {

pub const TAB: u8 = 0x09;
pub const LINE_FEED: u8 = 0x0a;
pub const CARRIAGE_RETURN: u8 = 0x0d;
pub const SPACE: u8 = 0x20;
pub const OPEN_PAREN: u8 = 0x28;
pub const CLOSE_PAREN: u8 = 0x29;
pub const STAR: u8 = 0x2a;
pub const SLASH: u8 = 0x2f;
pub const DIGIT_ZERO: u8 = 0x30;
pub const DIGIT_NINE: u8 = 0x39;
pub const SEMICOLON: u8 = 0x3b;
pub const UPPER_A: u8 = 0x41;
pub const UPPER_Z: u8 = 0x5a;
pub const UNDERSCORE: u8 = 0x5f;
pub const LOWER_A: u8 = 0x61;
pub const LOWER_Z: u8 = 0x7a;
pub const OPEN_BRACE: u8 = 0x7b;
pub const CLOSE_BRACE: u8 = 0x7d;

/// `[0-9]`
pub open spec fn is_digit(b: u8) -> bool {
    DIGIT_ZERO <= b <= DIGIT_NINE
}

/// `[A-Za-z_]`
pub open spec fn is_word_start(b: u8) -> bool {
    (LOWER_A <= b <= LOWER_Z) || (UPPER_A <= b <= UPPER_Z) || b == UNDERSCORE
}

/// `[0-9A-Za-z_]`
pub open spec fn is_word(b: u8) -> bool {
    is_digit(b) || is_word_start(b)
}

/// The token that a single structural byte stands for.
pub open spec fn structural(b: u8) -> Option<TokenKind> {
    if b == OPEN_PAREN {
        Some(TokenKind::OpenParen)
    } else if b == CLOSE_PAREN {
        Some(TokenKind::CloseParen)
    } else if b == OPEN_BRACE {
        Some(TokenKind::OpenBrace)
    } else if b == CLOSE_BRACE {
        Some(TokenKind::CloseBrace)
    } else if b == SEMICOLON {
        Some(TokenKind::Semicolon)
    } else {
        None
    }
}

/// The three-byte encodings of the white-space characters U+1680,
/// U+2000 to U+200A, U+2028, U+2029, U+202F, U+205F and U+3000.
pub open spec fn is_wide_space(a: u8, b: u8, c: u8) -> bool {
    ||| a == 0xe1 && b == 0x9a && c == 0x80
    ||| a == 0xe2 && b == 0x80 && (0x80 <= c <= 0x8a || c == 0xa8 || c == 0xa9 || c == 0xaf)
    ||| a == 0xe2 && b == 0x81 && c == 0x9f
    ||| a == 0xe3 && b == 0x80 && c == 0x80
}

/// The number of bytes of the white-space character that starts at offset `i`,
/// and 0 where none starts there. White space is U+0009 to U+000D, U+0020,
/// U+0085, U+00A0 and the characters of `is_wide_space`.
pub open spec fn space_width(s: Seq<u8>, i: int) -> int {
    if !(0 <= i < s.len()) {
        0
    } else if TAB <= s[i] <= CARRIAGE_RETURN || s[i] == SPACE {
        1
    } else if i + 1 < s.len() && s[i] == 0xc2 && (s[i + 1] == 0x85 || s[i + 1] == 0xa0) {
        2
    } else if i + 2 < s.len() && is_wide_space(s[i], s[i + 1], s[i + 2]) {
        3
    } else {
        0
    }
}

/// The white-space characters: U+0009 to U+000D, U+0020, U+0085, U+00A0,
/// U+1680, U+2000 to U+200A, U+2028, U+2029, U+202F, U+205F and U+3000.
pub open spec fn is_space_char(c: char) -> bool {
    let v = c as u32;
    ||| 0x09 <= v <= 0x0d
    ||| v == 0x20
    ||| v == 0x85
    ||| v == 0xa0
    ||| v == 0x1680
    ||| 0x2000 <= v <= 0x200a
    ||| v == 0x2028
    ||| v == 0x2029
    ||| v == 0x202f
    ||| v == 0x205f
    ||| v == 0x3000
}

/// The bytes that count as white space are the UTF-8 encodings of the
/// white-space characters, and of no other character.
pub proof fn law_space_bytes_are_space_chars(c: char)
    ensures
        space_width(encode_scalar(c as u32), 0) == (if is_space_char(c) {
            encode_scalar(c as u32).len() as int
        } else {
            0
        }),
{
    let v = c as u32;
    let bytes = encode_scalar(v);
    char_is_scalar(c);
    if has_width_1_encoding(v) {
        let b = bytes[0];
        assert(b == v) by (bit_vector)
            requires
                b == (v & 0x7F) as u8,
                v <= 0x7F,
        ;
    } else if has_width_2_encoding(v) {
        let a = bytes[0];
        let b = bytes[1];
        assert((a == 0xc2 && (b == 0x85 || b == 0xa0)) <==> (v == 0x85 || v == 0xa0)) by (bit_vector)
            requires
                a == 0xC0 | ((v >> 6) & 0x1F) as u8,
                b == 0x80 | (v & 0x3F) as u8,
                0x80 <= v <= 0x7FF,
        ;
        assert(a >= 0xc0) by (bit_vector)
            requires
                a == 0xC0 | ((v >> 6) & 0x1F) as u8,
        ;
    } else if has_width_3_encoding(v) {
        let a = bytes[0];
        let b = bytes[1];
        let c3 = bytes[2];
        assert(is_wide_space(a, b, c3) <==> (v == 0x1680 || 0x2000 <= v <= 0x200a || v == 0x2028
            || v == 0x2029 || v == 0x202f || v == 0x205f || v == 0x3000)) by (bit_vector)
            requires
                a == 0xE0 | ((v >> 12) & 0x0F) as u8,
                b == 0x80 | ((v >> 6) & 0x3F) as u8,
                c3 == 0x80 | (v & 0x3F) as u8,
                0x800 <= v <= 0xFFFF,
        ;
        assert(a >= 0xe0) by (bit_vector)
            requires
                a == 0xE0 | ((v >> 12) & 0x0F) as u8,
        ;
    } else {
        let a = bytes[0];
        assert(a >= 0xf0) by (bit_vector)
            requires
                a == 0xF0 | ((v >> 18) & 0x7) as u8,
        ;
    }
}

/// The end of the longest run of white space that starts at `i`.
pub open spec fn space_end(s: Seq<u8>, i: int) -> int
    decreases s.len() - i,
{
    if space_width(s, i) > 0 {
        space_end(s, i + space_width(s, i))
    } else {
        i
    }
}

/// The end of the longest run of word bytes that starts at `i`.
pub open spec fn word_end(s: Seq<u8>, i: int) -> int
    decreases s.len() - i,
{
    if 0 <= i < s.len() && is_word(s[i]) {
        word_end(s, i + 1)
    } else {
        i
    }
}

/// The end of the longest run of digits that starts at `i`.
pub open spec fn digits_end(s: Seq<u8>, i: int) -> int
    decreases s.len() - i,
{
    if 0 <= i < s.len() && is_digit(s[i]) {
        digits_end(s, i + 1)
    } else {
        i
    }
}

/// The bytes `a`, `b` stand at offsets `i` and `i + 1`.
pub open spec fn pair_at(s: Seq<u8>, i: int, a: u8, b: u8) -> bool {
    0 <= i && i + 1 < s.len() && s[i] == a && s[i + 1] == b
}

/// `/*` stands at offset `i`.
pub open spec fn opens_comment(s: Seq<u8>, i: int) -> bool {
    pair_at(s, i, SLASH, STAR)
}

/// `*/` stands at offset `i`.
pub open spec fn closes_comment(s: Seq<u8>, i: int) -> bool {
    pair_at(s, i, STAR, SLASH)
}

/// `//` stands at offset `i`.
pub open spec fn opens_line_comment(s: Seq<u8>, i: int) -> bool {
    pair_at(s, i, SLASH, SLASH)
}

/// The first offset from `i` on at which `/*` or `*/` stands, and the length
/// of the text where there is none.
pub open spec fn next_marker(s: Seq<u8>, i: int) -> int
    decreases s.len() - i,
{
    if i >= s.len() {
        s.len() as int
    } else if opens_comment(s, i) || closes_comment(s, i) {
        i
    } else {
        next_marker(s, i + 1)
    }
}

/// The first offset from `i` on that holds a line feed, and the length of the
/// text where there is none.
pub open spec fn next_line_feed(s: Seq<u8>, i: int) -> int
    decreases s.len() - i,
{
    if i >= s.len() {
        s.len() as int
    } else if 0 <= i && s[i] == LINE_FEED {
        i
    } else {
        next_line_feed(s, i + 1)
    }
}

/// The identifier or constant that starts at offset `i`, with its length.
/// An identifier is a word start followed by the longest run of word bytes.
/// A constant is the longest run of digits, and only one that no word byte
/// follows: `12ab` holds no constant.
pub open spec fn word_or_number(s: Seq<u8>, i: int) -> Option<(TokenKind, int)> {
    if !(0 <= i < s.len()) {
        None
    } else if is_word_start(s[i]) {
        Some((TokenKind::Identifier, word_end(s, i) - i))
    } else if is_digit(s[i]) && !(digits_end(s, i) < s.len() && is_word(s[digits_end(s, i)])) {
        Some((TokenKind::Constant, digits_end(s, i) - i))
    } else {
        None
    }
}

/// The bytes of `int`.
pub open spec fn int_word() -> Seq<u8> {
    seq![0x69u8, 0x6e, 0x74]
}

/// The bytes of `void`.
pub open spec fn void_word() -> Seq<u8> {
    seq![0x76u8, 0x6f, 0x69, 0x64]
}

/// The bytes of `return`.
pub open spec fn return_word() -> Seq<u8> {
    seq![0x72u8, 0x65, 0x74, 0x75, 0x72, 0x6e]
}

/// The keyword that `word` spells.
pub open spec fn keyword(word: Seq<u8>) -> Option<TokenKind> {
    if word == int_word() {
        Some(TokenKind::IntKeyword)
    } else if word == void_word() {
        Some(TokenKind::VoidKeyword)
    } else if word == return_word() {
        Some(TokenKind::ReturnKeyword)
    } else {
        None
    }
}

/// The kind of the token that the word `word` makes: its keyword, else an identifier.
pub open spec fn word_kind(word: Seq<u8>) -> TokenKind {
    match keyword(word) {
        Some(kind) => kind,
        None => TokenKind::Identifier,
    }
}

/// A run of white space ends at or behind its start, inside the text, and
/// behind its start where white space starts there.
pub proof fn lemma_space_end_bounds(s: Seq<u8>, i: int)
    requires
        0 <= i <= s.len(),
    ensures
        i <= space_end(s, i) <= s.len(),
        space_width(s, i) > 0 ==> i < space_end(s, i),
        space_width(s, space_end(s, i)) == 0,
    decreases s.len() - i,
{
    if space_width(s, i) > 0 {
        lemma_space_end_bounds(s, i + space_width(s, i));
    }
}

pub proof fn lemma_word_end_bounds(s: Seq<u8>, i: int)
    requires
        0 <= i <= s.len(),
    ensures
        i <= word_end(s, i) <= s.len(),
        i < s.len() && is_word(s[i]) ==> i < word_end(s, i),
        forall|j: int| i <= j < word_end(s, i) ==> is_word(#[trigger] s[j]),
        word_end(s, i) < s.len() ==> !is_word(s[word_end(s, i)]),
    decreases s.len() - i,
{
    if i < s.len() && is_word(s[i]) {
        lemma_word_end_bounds(s, i + 1);
    }
}

pub proof fn lemma_digits_end_bounds(s: Seq<u8>, i: int)
    requires
        0 <= i <= s.len(),
    ensures
        i <= digits_end(s, i) <= s.len(),
        i < s.len() && is_digit(s[i]) ==> i < digits_end(s, i),
        forall|j: int| i <= j < digits_end(s, i) ==> is_digit(#[trigger] s[j]),
        digits_end(s, i) < s.len() ==> !is_digit(s[digits_end(s, i)]),
    decreases s.len() - i,
{
    if i < s.len() && is_digit(s[i]) {
        lemma_digits_end_bounds(s, i + 1);
    }
}

pub proof fn lemma_next_marker_bounds(s: Seq<u8>, i: int)
    requires
        0 <= i <= s.len(),
    ensures
        i <= next_marker(s, i) <= s.len(),
        next_marker(s, i) < s.len() ==> next_marker(s, i) + 2 <= s.len() && (opens_comment(
            s,
            next_marker(s, i),
        ) || closes_comment(s, next_marker(s, i))),
        forall|j: int|
            i <= j < next_marker(s, i) ==> !opens_comment(s, j) && !closes_comment(s, j),
    decreases s.len() - i,
{
    if i < s.len() && !(opens_comment(s, i) || closes_comment(s, i)) {
        lemma_next_marker_bounds(s, i + 1);
    }
}

pub proof fn lemma_next_line_feed_bounds(s: Seq<u8>, i: int)
    requires
        0 <= i <= s.len(),
    ensures
        i <= next_line_feed(s, i) <= s.len(),
        next_line_feed(s, i) < s.len() ==> s[next_line_feed(s, i)] == LINE_FEED,
        forall|j: int| i <= j < next_line_feed(s, i) ==> #[trigger] s[j] != LINE_FEED,
    decreases s.len() - i,
{
    if i < s.len() && s[i] != LINE_FEED {
        lemma_next_line_feed_bounds(s, i + 1);
    }
}

/// The reserved words, written as text, are the byte sequences that the
/// lexer holds a word against.
pub proof fn lemma_keyword_bytes()
    ensures
        "int".spec_bytes() == int_word(),
        "void".spec_bytes() == void_word(),
        "return".spec_bytes() == return_word(),
{
    reveal_strlit("int");
    reveal_strlit("void");
    reveal_strlit("return");
    assert(is_ascii_chars("int"@));
    assert(is_ascii_chars("void"@));
    assert(is_ascii_chars("return"@));
    is_ascii_chars_encode_utf8("int"@);
    is_ascii_chars_encode_utf8("void"@);
    is_ascii_chars_encode_utf8("return"@);
    assert("int".spec_bytes() =~= int_word());
    assert("void".spec_bytes() =~= void_word());
    assert("return".spec_bytes() =~= return_word());
}

} // verus!
