use vstd::prelude::*;
use vstd::string::StringExecFns;
use vstd::string::StringSliceAdditionalSpecFns;
use vstd::utf8::{
    decode_utf8, encode_utf8, encode_utf8_decode_utf8, encode_utf8_valid_utf8,
    is_char_boundary_start_end_of_seq,
};
use regex::Regex;
use crate::mapped_file::SourceFile;
use crate::span::Span;
use crate::text::{slice_from, sliceable};

verus! {

/// Whether `regex::Regex::new` accepts `pattern`.
pub uninterp spec fn pattern_compiles(pattern: Seq<char>) -> bool;

/// The byte offsets of the match that `regex::Regex::find_at` reports for
/// `pattern` in `haystack` when the search begins at byte `start`.
pub uninterp spec fn pattern_find_at(pattern: Seq<char>, haystack: Seq<char>, start: int) -> Option<
    (int, int),
>;

/// Calls `regex::Regex::new` and says whether it returned `Ok`. Nothing is
/// claimed of which patterns compile: the answer is a function of the pattern.
#[verifier::external_body]
fn compiles(pattern: &str) -> (ok: bool)
    ensures
        ok == pattern_compiles(pattern@),
{
    Regex::new(pattern).is_ok()
}

/// Calls `regex::Regex::find_at` on the pattern compiled by `regex::Regex::new`.
/// Which match is found is a function of pattern, haystack and start. Claimed
/// of every match, as the crate documents it: it begins at or behind `start`,
/// its start is not behind its end, and both fall between characters inside
/// the haystack.
#[verifier::external_body]
fn find_at(pattern: &str, haystack: &str, start: usize) -> (r: Option<(usize, usize)>)
    requires
        pattern_compiles(pattern@),
        sliceable(haystack.spec_bytes(), start as int, start as int),
    ensures
        match r {
            Some((from, to)) => {
                &&& pattern_find_at(pattern@, haystack@, start as int) == Some(
                    (from as int, to as int),
                )
                &&& start <= from
                &&& sliceable(haystack.spec_bytes(), from as int, to as int)
            },
            None => pattern_find_at(pattern@, haystack@, start as int) is None,
        },
{
    Regex::new(pattern).unwrap().find_at(haystack, start).map(|m| (m.start(), m.end()))
}

/// The spans that `process` cuts out of `text`, found from byte `from` on.
/// Each begins with a match of `open` and ends with the first match of `close`
/// behind it; the search for the next one begins just behind the match of
/// `open`. It ends where `open` or `close` matches nothing more, and where an
/// empty match of `open` would leave it at a standstill.
pub open spec fn removals_from(open: Seq<char>, close: Seq<char>, text: Seq<char>, from: int) -> Seq<
    Span,
>
    decreases encode_utf8(text).len() - from,
{
    match pattern_find_at(open, text, from) {
        Some((s1, e1)) => if from < e1 <= encode_utf8(text).len() {
            match pattern_find_at(close, text, e1) {
                Some((s2, e2)) => seq![Span::extent(s1, e1, s2, e2)] + removals_from(
                    open,
                    close,
                    text,
                    e1,
                ),
                None => Seq::empty(),
            }
        } else {
            Seq::empty()
        },
        None => Seq::empty(),
    }
}

/// The characters of `bytes` that lie in the spans of `spans`, one span after
/// the other.
pub open spec fn cut(bytes: Seq<u8>, spans: Seq<Span>) -> Seq<char>
    decreases spans.len(),
{
    if spans.len() == 0 {
        Seq::empty()
    } else {
        cut(bytes, spans.drop_last()) + decode_utf8(
            bytes.subrange(spans.last().start as int, spans.last().start + spans.last().len),
        )
    }
}

/// Every span of `spans` can be cut out of `bytes`.
pub open spec fn all_sliceable(bytes: Seq<u8>, spans: Seq<Span>) -> bool {
    forall|i: int|
        0 <= i < spans.len() ==> sliceable(
            bytes,
            (#[trigger] spans[i]).start as int,
            spans[i].start + spans[i].len,
        )
}

/// The text of the spans `removals` of `text`, joined in their order.
pub fn extract(text: &str, removals: &Vec<Span>) -> (r: String)
    requires
        all_sliceable(text.spec_bytes(), removals@),
    ensures
        r@ == cut(text.spec_bytes(), removals@),
{
    let mut out = String::new();
    let mut i: usize = 0;
    while i < removals.len()
        invariant
            i <= removals@.len(),
            all_sliceable(text.spec_bytes(), removals@),
            out@ == cut(text.spec_bytes(), removals@.subrange(0, i as int)),
        decreases removals@.len() - i,
    {
        let span = &removals[i];
        let piece = slice_from(text, span.start, span.len);
        proof {
            encode_utf8_decode_utf8(piece@);
            let upto = removals@.subrange(0, i + 1);
            assert(upto.drop_last() =~= removals@.subrange(0, i as int));
            assert(upto.last() == removals@[i as int]);
        }
        out.append(piece);
        i = i + 1;
    }
    assert(removals@.subrange(0, i as int) =~= removals@);
    out
}

/// Collects what stands between two markers, each given as a pattern.
pub struct Preprocessor {
    comment_start: String,
    comment_end: String,
}

impl Preprocessor {
    #[verifier::type_invariant]
    spec fn patterns_compile(self) -> bool {
        pattern_compiles(self.comment_start@) && pattern_compiles(self.comment_end@)
    }

    /// The pattern that opens a stretch to collect.
    pub closed spec fn start_pattern(&self) -> Seq<char> {
        self.comment_start@
    }

    /// The pattern that closes it.
    pub closed spec fn end_pattern(&self) -> Seq<char> {
        self.comment_end@
    }

    pub fn new(comment_start: &str, comment_end: &str) -> (r: Preprocessor)
        requires
            pattern_compiles(comment_start@),
            pattern_compiles(comment_end@),
        ensures
            r.start_pattern() == comment_start@,
            r.end_pattern() == comment_end@,
    {
        Preprocessor { comment_start: comment_start.to_owned(), comment_end: comment_end.to_owned() }
    }

    /// A preprocessor for the two patterns, if both compile.
    pub fn try_new(comment_start: &str, comment_end: &str) -> (r: Option<Preprocessor>)
        ensures
            r is Some <==> pattern_compiles(comment_start@) && pattern_compiles(comment_end@),
            r matches Some(p) ==> p.start_pattern() == comment_start@ && p.end_pattern()
                == comment_end@,
    {
        if compiles(comment_start) && compiles(comment_end) {
            Some(Preprocessor::new(comment_start, comment_end))
        } else {
            None
        }
    }

    /// The spans between the markers in `text`, in the order in which they are found.
    pub fn removals(&self, text: &str) -> (r: Vec<Span>)
        ensures
            r@ == removals_from(self.start_pattern(), self.end_pattern(), text@, 0),
            all_sliceable(text.spec_bytes(), r@),
    {
        proof {
            use_type_invariant(self);
            encode_utf8_valid_utf8(text@);
            is_char_boundary_start_end_of_seq(text.spec_bytes());
        }
        let ghost open = self.comment_start@;
        let ghost close = self.comment_end@;
        let total = text.as_bytes().len();
        let mut removals: Vec<Span> = Vec::new();
        let mut start: usize = 0;
        loop
            invariant
                pattern_compiles(self.comment_start@),
                pattern_compiles(self.comment_end@),
                open == self.comment_start@,
                close == self.comment_end@,
                total == text.spec_bytes().len(),
                sliceable(text.spec_bytes(), start as int, start as int),
                all_sliceable(text.spec_bytes(), removals@),
                removals@ + removals_from(open, close, text@, start as int) == removals_from(
                    open,
                    close,
                    text@,
                    0,
                ),
            decreases total - start,
        {
            match find_at(self.comment_start.as_str(), text, start) {
                Some((s1, e1)) => {
                    if e1 <= start {
                        assert(removals@ + Seq::<Span>::empty() =~= removals@);
                        return removals;
                    }
                    match find_at(self.comment_end.as_str(), text, e1) {
                        Some((s2, e2)) => {
                            let span = Span::combine_ranges(s1..e1, s2..e2);
                            proof {
                                let rest = removals_from(open, close, text@, e1 as int);
                                assert(removals@.push(span) + rest =~= removals@ + (seq![span]
                                    + rest));
                            }
                            removals.push(span);
                            start = e1;
                        },
                        None => {
                            assert(removals@ + Seq::<Span>::empty() =~= removals@);
                            return removals;
                        },
                    }
                },
                None => {
                    assert(removals@ + Seq::<Span>::empty() =~= removals@);
                    return removals;
                },
            }
        }
    }

    /// The text of all stretches between the markers in `source`, joined in
    /// the order in which they are found.
    pub fn process(&self, source: &SourceFile) -> (r: String)
        ensures
            r@ == cut(
                source.bytes(),
                removals_from(self.start_pattern(), self.end_pattern(), source.contents@, 0),
            ),
    {
        let text = source.contents.as_str();
        let removals = self.removals(text);
        extract(text, &removals)
    }
}

/// The spans stand in ascending order, none reaches into the next, and each
/// ends at an offset that a `usize` holds.
pub open spec fn disjoint_ascending(removed: Seq<Span>) -> bool {
    &&& forall|i: int, j: int|
        0 <= i < j < removed.len() ==> removed[i].start + removed[i].len <= removed[j].start
    &&& forall|i: int|
        0 <= i < removed.len() ==> (#[trigger] removed[i]).start + removed[i].len <= usize::MAX
}

/// The summed length of the first `n` spans.
pub open spec fn total_len(removed: Seq<Span>, n: int) -> int
    decreases n,
{
    if n <= 0 {
        0
    } else {
        total_len(removed, n - 1) + removed[n - 1].len
    }
}

/// The summed length of the spans that end at or in front of `offset`.
pub open spec fn removed_before(removed: Seq<Span>, offset: int) -> int
    decreases removed.len(),
{
    if removed.len() == 0 {
        0
    } else if removed.last().start + removed.last().len <= offset {
        removed_before(removed.drop_last(), offset) + removed.last().len
    } else {
        removed_before(removed.drop_last(), offset)
    }
}

/// `offset` lies in one of the spans.
pub open spec fn inside_removed(removed: Seq<Span>, offset: int) -> bool {
    exists|i: int|
        0 <= i < removed.len() && (#[trigger] removed[i]).start <= offset < removed[i].start
            + removed[i].len
}

/// Where the byte at `offset` of a text stands once the spans `removed` are
/// cut out of it: nowhere if it lies in one of them, else as far to the front
/// as the spans in front of it are long.
pub open spec fn to_slimmed(removed: Seq<Span>, offset: int) -> Option<int> {
    if inside_removed(removed, offset) {
        None
    } else {
        Some(offset - removed_before(removed, offset))
    }
}

/// Where the first `n` spans end at or in front of `offset` and the others
/// begin behind it, `offset` lies in none, and what is removed in front of it
/// is the length of those `n`.
pub proof fn lemma_removed_before(removed: Seq<Span>, offset: int, n: int)
    requires
        0 <= n <= removed.len(),
        forall|k: int| 0 <= k < n ==> (#[trigger] removed[k]).start + removed[k].len <= offset,
        forall|k: int| n <= k < removed.len() ==> offset < (#[trigger] removed[k]).start,
    ensures
        !inside_removed(removed, offset),
        removed_before(removed, offset) == total_len(removed, n),
    decreases removed.len(),
{
    if removed.len() > 0 {
        let front = removed.drop_last();
        if n == removed.len() {
            assert(removed.last() == removed[n - 1]);
            lemma_removed_before(front, offset, n - 1);
            lemma_total_len_prefix(removed, front, n - 1);
        } else {
            assert(offset < removed[removed.len() - 1].start);
            lemma_removed_before(front, offset, n);
            lemma_total_len_prefix(removed, front, n);
        }
    }
}

/// The summed length of the first `n` spans looks at those spans only.
pub proof fn lemma_total_len_prefix(a: Seq<Span>, b: Seq<Span>, n: int)
    requires
        n <= a.len(),
        n <= b.len(),
        forall|k: int| 0 <= k < n ==> a[k] == b[k],
    ensures
        total_len(a, n) == total_len(b, n),
    decreases n,
{
    if n > 0 {
        lemma_total_len_prefix(a, b, n - 1);
    }
}

/// Spans that do not overlap are together no longer than the offset at which
/// the last of them ends.
pub proof fn lemma_total_len_bound(removed: Seq<Span>, n: int)
    requires
        disjoint_ascending(removed),
        0 < n <= removed.len(),
    ensures
        0 <= total_len(removed, n) <= removed[n - 1].start + removed[n - 1].len,
    decreases n,
{
    if n > 1 {
        lemma_total_len_bound(removed, n - 1);
        assert(removed[n - 2].start + removed[n - 2].len <= removed[n - 1].start);
    } else {
        assert(total_len(removed, 0) == 0);
    }
}

/// The offset in the uncut text of the byte that stands at `offset` once
/// the spans `removed` are cut out.
pub fn map_slimmed_to_original_chars(offset: usize, removed: &[Span]) -> (r: Option<usize>)
    requires
        disjoint_ascending(removed@),
        offset + total_len(removed@, removed@.len() as int) <= usize::MAX,
    ensures
        r matches Some(original) && to_slimmed(removed@, original as int) == Some(offset as int),
{
    let mut shift: usize = 0;
    let mut i: usize = 0;
    while i < removed.len()
        invariant
            i <= removed@.len(),
            disjoint_ascending(removed@),
            offset + total_len(removed@, removed@.len() as int) <= usize::MAX,
            shift == total_len(removed@, i as int),
            forall|k: int|
                0 <= k < i ==> (#[trigger] removed@[k]).start + removed@[k].len <= offset + shift,
        decreases removed@.len() - i,
    {
        let start = removed[i].start;
        let len = removed[i].len;
        proof {
            if i > 0 {
                lemma_total_len_bound(removed@, i as int);
            }
            lemma_total_len_grows(removed@, i + 1, removed@.len() as int);
        }
        if offset < start - shift {
            proof {
                lemma_removed_before(removed@, offset + shift, i as int);
            }
            return Some(offset + shift);
        }
        shift = shift + len;
        i = i + 1;
    }
    proof {
        lemma_removed_before(removed@, offset + shift, i as int);
    }
    Some(offset + shift)
}

/// The summed length grows with the number of spans.
pub proof fn lemma_total_len_grows(removed: Seq<Span>, m: int, n: int)
    requires
        0 <= m <= n,
    ensures
        total_len(removed, m) <= total_len(removed, n),
    decreases n - m,
{
    if m < n {
        lemma_total_len_grows(removed, m, n - 1);
    }
}

/// The offset, once the spans `removed` are cut out, of the byte that stands
/// at `offset` in the uncut text; nothing if it lies in one of the spans.
pub fn map_original_to_slimmed_chars(offset: usize, removed: &[Span]) -> (r: Option<usize>)
    requires
        disjoint_ascending(removed@),
    ensures
        match r {
            Some(slimmed) => to_slimmed(removed@, offset as int) == Some(slimmed as int),
            None => to_slimmed(removed@, offset as int) is None,
        },
{
    let mut shift: usize = 0;
    let mut i: usize = 0;
    while i < removed.len()
        invariant
            i <= removed@.len(),
            disjoint_ascending(removed@),
            shift == total_len(removed@, i as int),
            shift <= offset,
            forall|k: int|
                0 <= k < i ==> (#[trigger] removed@[k]).start + removed@[k].len <= offset,
        decreases removed@.len() - i,
    {
        let start = removed[i].start;
        let len = removed[i].len;
        let end = start + len;
        if offset < start {
            proof {
                lemma_removed_before(removed@, offset as int, i as int);
            }
            return Some(offset - shift);
        } else if offset < end {
            return None;
        } else {
            proof {
                lemma_total_len_bound(removed@, i + 1);
            }
            shift = shift + (end - start);
        }
        i = i + 1;
    }
    proof {
        lemma_removed_before(removed@, offset as int, i as int);
    }
    Some(offset - shift)
}

/// What is removed in front of an offset does not depend on the offset as
/// long as every span ends at or in front of it.
proof fn lemma_removed_before_all(removed: Seq<Span>, x: int, y: int)
    requires
        forall|k: int| 0 <= k < removed.len() ==> (#[trigger] removed[k]).start + removed[k].len <= x,
        forall|k: int| 0 <= k < removed.len() ==> (#[trigger] removed[k]).start + removed[k].len <= y,
    ensures
        removed_before(removed, x) == removed_before(removed, y),
    decreases removed.len(),
{
    if removed.len() > 0 {
        let front = removed.drop_last();
        assert(removed.last() == removed[removed.len() - 1]);
        assert forall|k: int| 0 <= k < front.len() implies (#[trigger] front[k]).start
            + front[k].len <= x && front[k].start + front[k].len <= y by {
            assert(front[k] == removed[k]);
        }
        lemma_removed_before_all(front, x, y);
    }
}

/// Between an offset `a` outside of the spans and an offset `b` behind it,
/// less is removed than the two lie apart.
proof fn lemma_removed_between(removed: Seq<Span>, a: int, b: int)
    requires
        disjoint_ascending(removed),
        a < b,
        !inside_removed(removed, a),
    ensures
        0 <= removed_before(removed, b) - removed_before(removed, a) <= b - a - 1,
    decreases removed.len(),
{
    if removed.len() > 0 {
        let front = removed.drop_last();
        let last = removed[removed.len() - 1];
        assert(removed.last() == last);
        assert forall|k: int| 0 <= k < front.len() implies front[k] == removed[k] by {}
        assert(disjoint_ascending(front)) by {
            assert forall|i: int, j: int| 0 <= i < j < front.len() implies front[i].start
                + front[i].len <= front[j].start by {
                assert(front[i] == removed[i] && front[j] == removed[j]);
            }
            assert forall|i: int| 0 <= i < front.len() implies (#[trigger] front[i]).start
                + front[i].len <= usize::MAX by {
                assert(front[i] == removed[i]);
            }
        }
        assert(!inside_removed(front, a)) by {
            if inside_removed(front, a) {
                let i = choose|i: int|
                    0 <= i < front.len() && (#[trigger] front[i]).start <= a < front[i].start
                        + front[i].len;
                assert(removed[i].start <= a < removed[i].start + removed[i].len);
            }
        }
        let end = last.start + last.len;
        if a < end <= b {
            assert(last.start > a) by {
                if last.start <= a {
                    assert(removed[removed.len() - 1].start <= a < removed[removed.len() - 1].start
                        + removed[removed.len() - 1].len);
                }
            }
            assert forall|k: int| 0 <= k < front.len() implies (#[trigger] front[k]).start
                + front[k].len <= last.start && front[k].start + front[k].len <= b by {
                assert(removed[k].start + removed[k].len <= removed[removed.len() - 1].start);
            }
            lemma_removed_before_all(front, last.start as int, b);
            lemma_removed_between(front, a, last.start as int);
        } else {
            lemma_removed_between(front, a, b);
        }
    }
}

/// Cutting the spans out keeps the order of what is left: of two offsets
/// outside of the spans, the one behind stays behind. So no two of them come
/// to stand at one offset, and the offset that `map_slimmed_to_original_chars`
/// gives is the only one that `map_original_to_slimmed_chars` maps back.
pub proof fn law_cutting_keeps_the_order(removed: Seq<Span>, a: int, b: int)
    requires
        disjoint_ascending(removed),
        a < b,
        to_slimmed(removed, a) is Some,
        to_slimmed(removed, b) is Some,
    ensures
        to_slimmed(removed, a)->0 < to_slimmed(removed, b)->0,
{
    lemma_removed_between(removed, a, b);
}

} // verus!
