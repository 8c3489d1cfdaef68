use vstd::prelude::*;
use std::cmp::Ordering;
use std::ops::Range;
use vstd::std_specs::cmp::PartialOrdSpecImpl;
use vstd::std_specs::convert::FromSpecImpl;
use vstd::string::StringExecFns;
use crate::text::{decimal, decimal_text};
use crate::source_file::Id;

verus! {

/// A half-open byte range `start .. start + len` into the text of one unit.
#[derive(Debug, PartialEq, Eq)]
pub struct Span {
    pub unit: Id,
    pub start: usize,
    pub len: usize,
}

impl Clone for Span {
    fn clone(&self) -> (r: Self)
        ensures
            r == *self,
    {
        Span { unit: self.unit.clone(), start: self.start, len: self.len }
    }
}

impl Span {
    /// A span in the main unit.
    pub fn new(start: usize, len: usize) -> (r: Span)
        ensures
            r == (Span { unit: Id::Main, start, len }),
    {
        Span { unit: Id::Main, start, len }
    }

    /// A span in the unit `unit`.
    pub fn new_with_unit(start: usize, len: usize, unit: Id) -> (r: Span)
        ensures
            r == (Span { unit, start, len }),
    {
        Span { unit, start, len }
    }

    /// The offset just behind the span, held at the largest offset there is.
    pub open spec fn spec_end(&self) -> usize {
        if self.start + self.len > usize::MAX {
            usize::MAX
        } else {
            (self.start + self.len) as usize
        }
    }

    /// The span of the main unit that covers the ranges `s1 .. e1` and
    /// `s2 .. e2` and what lies between them: from the earlier start to the
    /// later end.
    pub open spec fn extent(s1: int, e1: int, s2: int, e2: int) -> Span {
        let start = if s1 <= s2 {
            s1
        } else {
            s2
        };
        let end = if e1 >= e2 {
            e1
        } else {
            e2
        };
        Span { unit: Id::Main, start: start as usize, len: (end - start) as usize }
    }

    /// The span that covers both ranges and the gap between them, if there is one.
    pub fn combine_ranges(r1: Range<usize>, r2: Range<usize>) -> (r: Span)
        requires
            r1.start <= r2.start ==> r1.start <= r1.end || r1.start <= r2.end,
            r2.start <= r1.start ==> r2.start <= r2.end || r2.start <= r1.end,
        ensures
            r == Span::extent(r1.start as int, r1.end as int, r2.start as int, r2.end as int),
    {
        let start = if r1.start <= r2.start {
            r1.start
        } else {
            r2.start
        };
        let end = if r1.end >= r2.end {
            r1.end
        } else {
            r2.end
        };
        Span::new(start, end - start)
    }

    /// Lengthens the span by `len` bytes at its end.
    pub fn expand(&mut self, len: usize)
        requires
            old(self).len + len <= usize::MAX,
        ensures
            *final(self) == (Span {
                unit: old(self).unit,
                start: old(self).start,
                len: (old(self).len + len) as usize,
            }),
    {
        self.len = self.len + len;
    }

    pub fn range(&self) -> (r: Range<usize>)
        requires
            self.start + self.len <= usize::MAX,
        ensures
            r.start == self.start,
            r.end == self.start + self.len,
    {
        self.start..self.start + self.len
    }

    pub fn source(&self) -> (r: &Id)
        ensures
            *r == self.unit,
    {
        &self.unit
    }

    pub fn start(&self) -> (r: usize)
        ensures
            r == self.start,
    {
        self.start
    }

    pub fn end(&self) -> (r: usize)
        ensures
            r == self.spec_end(),
    {
        self.start.saturating_add(self.len)
    }

    pub fn len(&self) -> (r: usize)
        ensures
            r == self.len,
    {
        self.len
    }

    /// The span as it is shown to a reader: `[start..end]`.
    pub open spec fn spec_text(&self) -> Seq<char> {
        "["@ + decimal_text(self.start as nat) + ".."@ + decimal_text(self.spec_end() as nat)
            + "]"@
    }

    /// The span as it is shown to a reader: `[start..end]`.
    pub fn to_text(&self) -> (r: String)
        ensures
            r@ == self.spec_text(),
    {
        let mut out = "[".to_owned();
        out.append(decimal(self.start).as_str());
        out.append("..");
        out.append(decimal(self.end()).as_str());
        out.append("]");
        out
    }
}

impl From<Range<usize>> for Span {
    /// The span of the main unit that covers the range; a range that ends in
    /// front of its start is empty.
    fn from(r: Range<usize>) -> (span: Span) {
        if r.start <= r.end {
            Span::new(r.start, r.end - r.start)
        } else {
            Span::new(r.start, 0)
        }
    }
}

impl FromSpecImpl<Range<usize>> for Span {
    open spec fn obeys_from_spec() -> bool {
        true
    }

    open spec fn from_spec(r: Range<usize>) -> Span {
        if r.start <= r.end {
            Span { unit: Id::Main, start: r.start, len: range_len(r) }
        } else {
            Span { unit: Id::Main, start: r.start, len: 0 }
        }
    }
}

/// The number of offsets in `r`.
pub open spec fn range_len(r: Range<usize>) -> usize {
    (r.end - r.start) as usize
}

/// How two start offsets stand to each other.
pub open spec fn order_of_starts(a: usize, b: usize) -> Ordering {
    if a < b {
        Ordering::Less
    } else if a == b {
        Ordering::Equal
    } else {
        Ordering::Greater
    }
}

impl PartialOrd for Span {
    /// Spans are ordered by their start offsets alone.
    fn partial_cmp(&self, other: &Self) -> (r: Option<Ordering>) {
        if self.start < other.start {
            Some(Ordering::Less)
        } else if self.start == other.start {
            Some(Ordering::Equal)
        } else {
            Some(Ordering::Greater)
        }
    }
}

impl PartialOrdSpecImpl for Span {
    open spec fn obeys_partial_cmp_spec() -> bool {
        true
    }

    open spec fn partial_cmp_spec(&self, other: &Span) -> Option<Ordering> {
        Some(order_of_starts(self.start, other.start))
    }
}

} // verus!
