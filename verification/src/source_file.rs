use vstd::prelude::*;
use vstd::string::StringExecFns;
use vstd::string::StringSliceAdditionalSpecFns;
use vstd::utf8::encode_utf8;
use crate::lines::{is_line_index, line_col, line_feed_offsets, locate};
use crate::span::Span;
use crate::text::{slice_from, sliceable};

verus! {

/// Names the compiled unit that a span points into.
#[derive(Eq, PartialEq, Debug)]
pub enum Id {
    Main,
    Unit(String),
}

impl Clone for Id {
    fn clone(&self) -> (r: Self)
        ensures
            r == *self,
    {
        match self {
            Id::Main => Id::Main,
            Id::Unit(name) => Id::Unit(name.clone()),
        }
    }
}

impl Id {
    /// The id as it is shown to a reader: `Main`, or `Unit("name")`.
    pub open spec fn spec_text(&self) -> Seq<char> {
        match self {
            Id::Main => "Main"@,
            Id::Unit(name) => "Unit(\""@ + name@ + "\")"@,
        }
    }

    /// The id as it is shown to a reader: `Main`, or `Unit("name")`.
    pub fn to_text(&self) -> (r: String)
        ensures
            r@ == self.spec_text(),
    {
        match self {
            Id::Main => "Main".to_owned(),
            Id::Unit(name) => {
                let mut out = "Unit(\"".to_owned();
                out.append(name.as_str());
                out.append("\")");
                out
            },
        }
    }
}

/// The text of one compiled unit, with the offsets of its line feeds.
pub struct SourceFile {
    pub id: Id,
    pub filename: String,
    pub source: String,
    pub lines_offsets: Vec<usize>,
    pub length: usize,
}

impl SourceFile {
    /// The bytes of the text.
    pub open spec fn bytes(&self) -> Seq<u8> {
        encode_utf8(self.source@)
    }

    /// `lines_offsets` lists the line feeds of the text, and `length` is its
    /// length in bytes.
    pub open spec fn wf(&self) -> bool {
        &&& is_line_index(self.lines_offsets@, self.bytes())
        &&& self.length == self.bytes().len()
    }

    /// A source file named `(buffer)` that holds `input`.
    pub fn from_string(id: Id, input: &str) -> (r: Self)
        ensures
            r.wf(),
            r.id == id,
            r.filename@ == "(buffer)"@,
            r.source@ == input@,
    {
        let offsets = Self::offsets(input);
        SourceFile {
            id,
            filename: "(buffer)".to_owned(),
            source: input.to_owned(),
            lines_offsets: offsets,
            length: input.as_bytes().len(),
        }
    }

    /// The offsets of all line feeds of `input`, in ascending order.
    pub fn offsets(input: &str) -> (r: Vec<usize>)
        ensures
            is_line_index(r@, input.spec_bytes()),
    {
        line_feed_offsets(input.as_bytes())
    }

    pub fn set_id(&mut self, id: Id)
        ensures
            *final(self) == (SourceFile { id, ..*old(self) }),
    {
        self.id = id;
    }

    /// The line and column, both counted from 1, of the byte at `offset`;
    /// nothing for an offset at or behind the end of the text. The line is
    /// one more than the number of line feeds in front of `offset`; the column
    /// counts from the byte behind the last of them.
    pub fn line_pos_from_offset(&self, offset: usize) -> (r: Option<(usize, usize)>)
        requires
            self.wf(),
        ensures
            match r {
                Some((line, col)) => line_col(self.bytes(), offset as int) == Some(
                    (line as int, col as int),
                ),
                None => line_col(self.bytes(), offset as int) is None,
            },
    {
        locate(&self.lines_offsets, self.length, offset, Ghost(self.bytes()))
    }

    /// The part of the text that `span` covers.
    pub fn get_text(&self, span: &Span) -> (r: &str)
        requires
            sliceable(self.bytes(), span.start as int, span.start + span.len),
        ensures
            r.spec_bytes() == self.bytes().subrange(span.start as int, span.start + span.len),
    {
        slice_from(self.source.as_str(), span.start, span.len)
    }

    /// The empty span at the end of the text.
    pub fn eof(&self) -> (r: Span)
        ensures
            r == (Span { unit: self.id, start: self.length, len: 0 }),
    {
        Span::new_with_unit(self.length, 0, self.id.clone())
    }
}

} // verus!
