use vstd::prelude::*;
use vstd::string::StringSliceAdditionalSpecFns;
use vstd::utf8::encode_utf8;
use crate::lines::{is_line_index, line_col, line_feed_offsets, locate};

verus! {

/// The text of one file as the preprocessing stage holds it, with the offsets
/// of its line feeds.
pub struct SourceFile {
    pub id: Option<String>,
    pub filename: String,
    pub contents: String,
    pub lines_offsets: Vec<usize>,
    pub length: usize,
}

impl SourceFile {
    /// The bytes of the text.
    pub open spec fn bytes(&self) -> Seq<u8> {
        encode_utf8(self.contents@)
    }

    /// `lines_offsets` lists the line feeds of the text, and `length` is its
    /// length in bytes.
    pub open spec fn wf(&self) -> bool {
        &&& is_line_index(self.lines_offsets@, self.bytes())
        &&& self.length == self.bytes().len()
    }

    /// A source file named `(buffer)` that holds `input`.
    pub fn from_string(id: Option<String>, input: &str) -> (r: Self)
        ensures
            r.wf(),
            r.id == id,
            r.filename@ == "(buffer)"@,
            r.contents@ == input@,
    {
        let offsets = Self::offsets(input);
        SourceFile {
            id,
            filename: "(buffer)".to_owned(),
            contents: input.to_owned(),
            lines_offsets: offsets,
            length: input.as_bytes().len(),
        }
    }

    /// The offsets of all line feeds of `input`, in ascending order.
    pub fn offsets(input: &str) -> (r: Vec<usize>)
        ensures
            is_line_index(r@, input.spec_bytes()),
    {
        line_feed_offsets(input.as_bytes())
    }

    pub fn set_id(&mut self, id: String)
        ensures
            *final(self) == (SourceFile { id: Some(id), ..*old(self) }),
    {
        self.id = Some(id);
    }

    /// The line and column, both counted from 1, of the byte at `offset`;
    /// nothing for an offset at or behind the end of the text.
    pub fn line_pos_from_offset(&self, offset: usize) -> (r: Option<(usize, usize)>)
        requires
            self.wf(),
        ensures
            match r {
                Some((line, col)) => line_col(self.bytes(), offset as int) == Some(
                    (line as int, col as int),
                ),
                None => line_col(self.bytes(), offset as int) is None,
            },
    {
        locate(&self.lines_offsets, self.length, offset, Ghost(self.bytes()))
    }
}

} // verus!
