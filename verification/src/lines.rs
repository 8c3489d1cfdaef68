use vstd::prelude::*;
use crate::grammar::LINE_FEED;

verus! {

/// `offsets` lists, in ascending order, every offset of `s` that holds a line feed.
pub open spec fn is_line_index(offsets: Seq<usize>, s: Seq<u8>) -> bool {
    &&& forall|k: int|
        0 <= k < offsets.len() ==> (#[trigger] offsets[k]) < s.len() && s[offsets[k] as int]
            == LINE_FEED
    &&& forall|j: int, k: int| 0 <= j < k < offsets.len() ==> offsets[j] < offsets[k]
    &&& forall|i: int|
        0 <= i < s.len() && #[trigger] s[i] == LINE_FEED ==> exists|k: int|
            0 <= k < offsets.len() && offsets[k] == i
}

/// The number of line feeds in front of `offset`.
pub open spec fn line_feeds_before(s: Seq<u8>, offset: int) -> int
    decreases offset,
{
    if offset <= 0 {
        0
    } else if offset - 1 < s.len() && s[offset - 1] == LINE_FEED {
        line_feeds_before(s, offset - 1) + 1
    } else {
        line_feeds_before(s, offset - 1)
    }
}

/// The offset at which the line of `offset` begins: just behind the last line
/// feed in front of `offset`, and 0 where there is none. A line feed belongs
/// to the line that it ends.
pub open spec fn line_start(s: Seq<u8>, offset: int) -> int
    decreases offset,
{
    if offset <= 0 {
        0
    } else if offset - 1 < s.len() && s[offset - 1] == LINE_FEED {
        offset
    } else {
        line_start(s, offset - 1)
    }
}

/// The line and column of the byte at `offset`, both counted from 1; nothing
/// for an offset at or behind the end of the text.
pub open spec fn line_col(s: Seq<u8>, offset: int) -> Option<(int, int)> {
    if 0 <= offset < s.len() {
        Some((line_feeds_before(s, offset) + 1, offset - line_start(s, offset) + 1))
    } else {
        None
    }
}

/// Where the first `i` entries of a line index lie in front of `offset` and
/// the others do not, `offset` has `i` line feeds in front of it, the last of
/// them at entry `i - 1`.
pub proof fn lemma_line_index_rank(offsets: Seq<usize>, s: Seq<u8>, offset: int, i: int)
    requires
        is_line_index(offsets, s),
        0 <= i <= offsets.len(),
        0 <= offset <= s.len(),
        forall|k: int| 0 <= k < i ==> (#[trigger] offsets[k]) < offset,
        forall|k: int| i <= k < offsets.len() ==> (#[trigger] offsets[k]) >= offset,
    ensures
        i <= offset,
        line_feeds_before(s, offset) == i,
        line_start(s, offset) == (if i == 0 {
            0
        } else {
            offsets[i - 1] + 1
        }),
    decreases offset,
{
    if offset == 0 {
        if i > 0 {
            assert(offsets[0] < offset);
        }
    } else if s[offset - 1] == LINE_FEED {
        let j = choose|k: int| 0 <= k < offsets.len() && offsets[k] == offset - 1;
        assert(j < i) by {
            if j >= i {
                assert(offsets[j] >= offset);
            }
        }
        assert(j == i - 1) by {
            if j < i - 1 {
                assert(offsets[j] < offsets[i - 1]);
                assert(offsets[i - 1] < offset);
            }
        }
        assert forall|k: int| 0 <= k < i - 1 implies (#[trigger] offsets[k]) < offset - 1 by {
            assert(offsets[k] < offsets[i - 1]);
        }
        lemma_line_index_rank(offsets, s, offset - 1, i - 1);
    } else {
        assert forall|k: int| 0 <= k < i implies (#[trigger] offsets[k]) < offset - 1 by {
            assert(offsets[k] < offset);
            assert(s[offsets[k] as int] == LINE_FEED);
        }
        lemma_line_index_rank(offsets, s, offset - 1, i);
    }
}

/// The offsets of all line feeds of `text`, in ascending order.
pub fn line_feed_offsets(text: &[u8]) -> (offsets: Vec<usize>)
    ensures
        is_line_index(offsets@, text@),
{
    let mut offsets: Vec<usize> = Vec::new();
    let n = text.len();
    let mut i: usize = 0;
    while i < n
        invariant
            n == text@.len(),
            i <= n,
            is_line_index(offsets@, text@.subrange(0, i as int)),
        decreases n - i,
    {
        let ghost before = offsets@;
        let ghost head = text@.subrange(0, i as int);
        let ghost grown = text@.subrange(0, i + 1);
        if text[i] == LINE_FEED {
            offsets.push(i);
        }
        proof {
            assert forall|k: int| 0 <= k < offsets@.len() implies (#[trigger] offsets@[k])
                < grown.len() && grown[offsets@[k] as int] == LINE_FEED by {
                if k < before.len() {
                    assert(before[k] < head.len() && head[before[k] as int] == LINE_FEED);
                }
            }
            assert forall|j: int, k: int| 0 <= j < k < offsets@.len() implies offsets@[j]
                < offsets@[k] by {
                assert(before[j] < head.len());
            }
            assert forall|p: int| 0 <= p < grown.len() && #[trigger] grown[p]
                == LINE_FEED implies exists|k: int|
                0 <= k < offsets@.len() && offsets@[k] == p by {
                if p < i {
                    assert(head[p] == LINE_FEED);
                    let k = choose|k: int| 0 <= k < before.len() && before[k] == p;
                    assert(offsets@[k] == p);
                } else {
                    assert(offsets@[offsets@.len() - 1] == p);
                }
            }
        }
        i = i + 1;
    }
    assert(text@.subrange(0, n as int) =~= text@);
    offsets
}

/// The line and column, both counted from 1, of the byte at `offset` in a
/// text of `length` bytes whose line feeds stand at `offsets`.
pub fn locate(offsets: &Vec<usize>, length: usize, offset: usize, Ghost(s): Ghost<Seq<u8>>) -> (r:
    Option<(usize, usize)>)
    requires
        is_line_index(offsets@, s),
        length == s.len(),
    ensures
        match r {
            Some((line, col)) => line_col(s, offset as int) == Some((line as int, col as int)),
            None => line_col(s, offset as int) is None,
        },
{
    if length == 0 {
        return None;
    }
    let count = offsets.len();
    if count > 0 {
        if offset <= offsets[0] {
            proof {
                lemma_line_index_rank(offsets@, s, offset as int, 0);
            }
            return Some((1, offset + 1));
        }
        let mut i: usize = 1;
        while i < count
            invariant
                1 <= i <= count,
                count == offsets@.len(),
                is_line_index(offsets@, s),
                forall|k: int| 0 <= k < i ==> (#[trigger] offsets@[k]) < offset,
            decreases count - i,
        {
            if offsets[i] >= offset {
                proof {
                    assert forall|k: int| i <= k < offsets@.len() implies (#[trigger] offsets@[k])
                        >= offset by {
                        if k > i {
                            assert(offsets@[i as int] < offsets@[k]);
                        }
                    }
                    lemma_line_index_rank(offsets@, s, offset as int, i as int);
                }
                return Some((i + 1, offset - offsets[i - 1]));
            }
            i = i + 1;
        }
    }
    if offset < length {
        proof {
            lemma_line_index_rank(offsets@, s, offset as int, count as int);
        }
        let col = if count > 0 {
            offset - offsets[count - 1]
        } else {
            offset + 1
        };
        return Some((count + 1, col));
    }
    None
}

} // verus!
