use vstd::prelude::*;
use vstd::string::StringExecFns;
use vstd::string::StringSliceAdditionalSpecFns;
use vstd::utf8::*;

verus! {

/// The byte range `start .. end` can be cut out of the UTF-8 text `bytes`:
/// it lies inside the text and both of its ends fall between characters.
pub open spec fn sliceable(bytes: Seq<u8>, start: int, end: int) -> bool {
    &&& 0 <= start <= end <= bytes.len()
    &&& is_char_boundary(bytes, start)
    &&& is_char_boundary(bytes, end)
}

/// A byte below 0x80 stands for one whole character.
pub open spec fn is_ascii_byte(b: u8) -> bool {
    b < 0x80
}

/// Every byte of `bytes` in `start .. end` is an ASCII byte.
pub open spec fn ascii_between(bytes: Seq<u8>, start: int, end: int) -> bool {
    forall|i: int| start <= i < end ==> is_ascii_byte(#[trigger] bytes[i])
}

/// In valid UTF-8, the offset just behind an ASCII byte falls between characters.
pub proof fn lemma_boundary_after_ascii(bytes: Seq<u8>, i: int)
    requires
        valid_utf8(bytes),
        0 <= i < bytes.len(),
        is_ascii_byte(bytes[i]),
    ensures
        is_char_boundary(bytes, i),
        is_char_boundary(bytes, i + 1),
{
    is_char_boundary_iff_not_is_continuation_byte(bytes, i);
    if i + 1 == bytes.len() {
        is_char_boundary_start_end_of_seq(bytes);
    } else {
        valid_utf8_split(bytes, i);
        let tail = bytes.subrange(i, bytes.len() as int);
        assert(tail[0] == bytes[i]);
        assert(valid_first_scalar(tail));
        assert(length_of_first_scalar(tail) == 1);
        let rest = pop_first_scalar(tail);
        assert(valid_utf8(rest));
        assert(rest =~= bytes.subrange(i + 1, bytes.len() as int));
        assert(rest.len() > 0);
        assert(valid_first_scalar(rest));
        assert(rest[0] == bytes[i + 1]);
        is_char_boundary_iff_not_is_continuation_byte(bytes, i + 1);
    }
}

/// A non-empty run of ASCII bytes in valid UTF-8 can be cut out.
pub proof fn lemma_ascii_run_sliceable(bytes: Seq<u8>, start: int, end: int)
    requires
        valid_utf8(bytes),
        0 <= start < end <= bytes.len(),
        ascii_between(bytes, start, end),
    ensures
        sliceable(bytes, start, end),
{
    assert(is_ascii_byte(bytes[start]));
    assert(is_ascii_byte(bytes[end - 1]));
    lemma_boundary_after_ascii(bytes, start);
    lemma_boundary_after_ascii(bytes, end - 1);
}

/// ASCII bytes are valid UTF-8, and decode to one character for each byte,
/// with the byte's own value.
pub proof fn lemma_decode_ascii(bytes: Seq<u8>)
    requires
        ascii_between(bytes, 0, bytes.len() as int),
    ensures
        valid_utf8(bytes),
        decode_utf8(bytes).len() == bytes.len(),
        forall|i: int| 0 <= i < bytes.len() ==> (#[trigger] decode_utf8(bytes)[i]) as u32 == bytes[i],
    decreases bytes.len(),
{
    if bytes.len() > 0 {
        let first = bytes[0];
        assert(is_ascii_byte(first));
        assert(first & 0x7f == first) by (bit_vector)
            requires
                first < 0x80,
        ;
        let rest = bytes.subrange(1, bytes.len() as int);
        assert forall|i: int| 0 <= i < rest.len() implies is_ascii_byte(#[trigger] rest[i]) by {
            assert(rest[i] == bytes[i + 1]);
        }
        lemma_decode_ascii(rest);
        assert(valid_first_scalar(bytes));
        assert(pop_first_scalar(bytes) == rest);
        assert(valid_utf8(bytes));
        let head = decode_first_scalar(bytes);
        assert(head == first as u32);
        assert(decode_utf8(bytes) == seq![head as char] + decode_utf8(rest));
        assert forall|i: int| 0 <= i < bytes.len() implies (#[trigger] decode_utf8(bytes)[i]) as u32
            == bytes[i] by {
            if i > 0 {
                assert(decode_utf8(bytes)[i] == decode_utf8(rest)[i - 1]);
                assert(rest[i - 1] == bytes[i]);
            }
        }
    }
}

/// The part of `text` that lies in the byte range `start .. end`.
pub fn slice<'a>(text: &'a str, start: usize, end: usize) -> (part: &'a str)
    requires
        sliceable(text.spec_bytes(), start as int, end as int),
    ensures
        part.spec_bytes() == text.spec_bytes().subrange(start as int, end as int),
{
    let ghost bytes = text.spec_bytes();
    proof {
        encode_utf8_valid_utf8(text@);
    }
    let (head, _) = text.split_at(end);
    proof {
        encode_utf8_valid_utf8(head@);
        let head_bytes = head.spec_bytes();
        assert(head_bytes =~= bytes.subrange(0, end as int));
        if start == end {
            is_char_boundary_start_end_of_seq(head_bytes);
        } else {
            is_char_boundary_iff_not_is_continuation_byte(bytes, start as int);
            assert(head_bytes[start as int] == bytes[start as int]);
            is_char_boundary_iff_not_is_continuation_byte(head_bytes, start as int);
        }
    }
    let (_, part) = head.split_at(start);
    assert(part.spec_bytes() =~= bytes.subrange(start as int, end as int));
    part
}

/// The part of `text` that starts at byte `start` and is `len` bytes long.
pub fn slice_from<'a>(text: &'a str, start: usize, len: usize) -> (part: &'a str)
    requires
        sliceable(text.spec_bytes(), start as int, start + len),
    ensures
        part.spec_bytes() == text.spec_bytes().subrange(start as int, start + len),
{
    let total = text.as_bytes().len();
    slice(text, start, start + len)
}

/// Whether the byte range `start .. end` can be cut out of `text`.
pub fn can_slice(text: &str, start: usize, end: usize) -> (ok: bool)
    ensures
        ok == sliceable(text.spec_bytes(), start as int, end as int),
{
    proof {
        encode_utf8_valid_utf8(text@);
    }
    start <= end && end <= text.as_bytes().len() && text.is_char_boundary(start)
        && text.is_char_boundary(end)
}

/// The character of the decimal digit `d`.
pub open spec fn digit_char(d: int) -> char {
    if d == 0 {
        '0'
    } else if d == 1 {
        '1'
    } else if d == 2 {
        '2'
    } else if d == 3 {
        '3'
    } else if d == 4 {
        '4'
    } else if d == 5 {
        '5'
    } else if d == 6 {
        '6'
    } else if d == 7 {
        '7'
    } else if d == 8 {
        '8'
    } else {
        '9'
    }
}

/// The decimal digits of `n`, without leading zeros.
pub open spec fn decimal_text(n: nat) -> Seq<char>
    decreases n,
{
    if n < 10 {
        seq![digit_char(n as int)]
    } else {
        decimal_text(n / 10).push(digit_char((n % 10) as int))
    }
}

fn digit(d: usize) -> (r: &'static str)
    requires
        d < 10,
    ensures
        r@ == seq![digit_char(d as int)],
{
    proof {
        reveal_strlit("0");
        reveal_strlit("1");
        reveal_strlit("2");
        reveal_strlit("3");
        reveal_strlit("4");
        reveal_strlit("5");
        reveal_strlit("6");
        reveal_strlit("7");
        reveal_strlit("8");
        reveal_strlit("9");
    }
    let r = if d == 0 {
        "0"
    } else if d == 1 {
        "1"
    } else if d == 2 {
        "2"
    } else if d == 3 {
        "3"
    } else if d == 4 {
        "4"
    } else if d == 5 {
        "5"
    } else if d == 6 {
        "6"
    } else if d == 7 {
        "7"
    } else if d == 8 {
        "8"
    } else {
        "9"
    };
    assert(r@ =~= seq![digit_char(d as int)]);
    r
}

/// `n` written in decimal digits.
pub fn decimal(n: usize) -> (r: String)
    ensures
        r@ == decimal_text(n as nat),
    decreases n,
{
    if n < 10 {
        digit(n).to_owned()
    } else {
        let mut out = decimal(n / 10);
        let last = digit(n % 10);
        out.append(last);
        assert(out@ =~= decimal_text((n / 10) as nat).push(digit_char((n % 10) as int)));
        out
    }
}

} // verus!
