//! Source files as the compiler numbers them: every file of a code map has a span of byte
//! positions of its own.

use vstd::prelude::*;

use crate::position::{
    lsp_byte_span_to_range, lsp_position_to_byte_index, offset_message, offset_position,
    position_message, position_offset,
};
use crate::protocol::{Position, Range};
use crate::rpc::ServerError;
use crate::text::{line_count, utf8_len};

verus! {

/// Byte positions from `start` to `end`.
#[derive(Clone, Copy, Debug, PartialEq, Eq, Structural)]
pub struct Span {
    pub start: u32,
    pub end: u32,
}

impl Span {
    /// The span between two positions, whichever comes first.
    pub fn new(start: u32, end: u32) -> (span: Span)
        ensures
            start <= end ==> span == (Span { start, end }),
            start > end ==> span == (Span { start: end, end: start }),
    {
        if start <= end {
            Span { start, end }
        } else {
            Span { start: end, end: start }
        }
    }
}

/// A source file whose first byte has the position `start`.
#[derive(Clone, Debug, PartialEq, Eq)]
pub struct FileMap {
    pub name: String,
    pub source: String,
    pub start: u32,
}

impl FileMap {
    /// The file's positions fit 32 bits. Zero is the position of nothing.
    pub open spec fn well_formed(&self) -> bool {
        0 < self.start && self.start + utf8_len(self.source@) <= u32::MAX
    }

    /// The position behind the last byte.
    pub open spec fn end(&self) -> int {
        self.start + utf8_len(self.source@)
    }

    /// Whether `position` is one of the file's, the one behind its last byte included.
    pub open spec fn holds(&self, position: int) -> bool {
        self.start <= position <= self.end()
    }

    /// The positions of the file.
    pub fn span(&self) -> (span: Span)
        requires
            self.well_formed(),
        ensures
            span.start == self.start,
            span.end == self.end(),
    {
        let len: usize = self.source.as_str().as_bytes().len();
        Span { start: self.start, end: self.start + len as u32 }
    }
}

/// The files of a program, in the order of their positions.
pub struct CodeMap {
    pub files: Vec<FileMap>,
}

impl CodeMap {
    /// Each file begins behind the end of those in front of it.
    pub open spec fn well_formed(&self) -> bool {
        &&& forall|i: int| 0 <= i < self.files@.len() ==> (#[trigger] self.files@[i]).well_formed()
        &&& forall|i: int, j: int|
            0 <= i < j < self.files@.len() ==> (#[trigger] self.files@[i]).end() < (
            #[trigger] self.files@[j]).start
    }

    /// Whether each file begins behind the end of those in front of it.
    pub fn is_well_formed(&self) -> (valid: bool)
        ensures
            valid == self.well_formed(),
    {
        let mut i: usize = 0;
        while i < self.files.len()
            invariant
                i <= self.files@.len(),
                forall|j: int| 0 <= j < i ==> (#[trigger] self.files@[j]).well_formed(),
                forall|j: int, k: int|
                    0 <= j < k < i ==> (#[trigger] self.files@[j]).end() < (
                    #[trigger] self.files@[k]).start,
            decreases self.files@.len() - i,
        {
            let file = &self.files[i];
            let len: usize = file.source.as_str().as_bytes().len();
            if file.start == 0 || len as u64 > (u32::MAX - file.start) as u64 {
                assert(!self.files@[i as int].well_formed());
                return false;
            }
            if i > 0 && self.files[i - 1].span().end >= file.start {
                assert(self.files@[i - 1].end() >= self.files@[i as int].start);
                return false;
            }
            assert forall|j: int, k: int| 0 <= j < k < i + 1 implies (
            #[trigger] self.files@[j]).end() < (#[trigger] self.files@[k]).start by {
                if k == i && j < i - 1 {
                    assert(self.files@[j].end() < self.files@[i - 1].start);
                }
            }
            i += 1;
        }
        true
    }

    /// Law: a position belongs to one file at most.
    pub proof fn law_position_belongs_to_one_file(&self, position: int, i: int, j: int)
        requires
            self.well_formed(),
            0 <= i < self.files@.len(),
            0 <= j < self.files@.len(),
            self.files@[i].holds(position),
            self.files@[j].holds(position),
        ensures
            i == j,
            self.file_index(position) == Some(i),
    {
        assert forall|k: int|
            0 <= k < self.files@.len() && (#[trigger] self.files@[k]).holds(position) implies k
            == i by {
            if k < i {
                assert(self.files@[k].end() < self.files@[i].start);
            } else if i < k {
                assert(self.files@[i].end() < self.files@[k].start);
            }
        }
    }

    /// The file that a position belongs to, by its number.
    pub open spec fn file_index(&self, position: int) -> Option<int> {
        if exists|i: int| 0 <= i < self.files@.len() && self.files@[i].holds(position) {
            Some(choose|i: int| 0 <= i < self.files@.len() && self.files@[i].holds(position))
        } else {
            None
        }
    }

    /// The file that a position belongs to.
    pub fn get(&self, position: u32) -> (file: Option<&FileMap>)
        requires
            self.well_formed(),
        ensures
            match self.file_index(position as int) {
                Some(i) => file == Some(&self.files@[i]) && 0 <= i < self.files@.len()
                    && self.files@[i].holds(position as int),
                None => file is None,
            },
    {
        let mut low: usize = 0;
        let mut high: usize = self.files.len();
        while low < high
            invariant
                self.well_formed(),
                low <= high <= self.files@.len(),
                forall|i: int|
                    0 <= i < low ==> (#[trigger] self.files@[i]).end() < position,
                forall|i: int|
                    high <= i < self.files@.len() ==> position < (#[trigger] self.files@[i]).start,
            decreases high - low,
        {
            let middle: usize = low + (high - low) / 2;
            let span = self.files[middle].span();
            if span.start > position {
                high = middle;
            } else if span.end < position {
                low = middle + 1;
            } else {
                assert(self.files@[middle as int].holds(position as int));
                return Some(&self.files[middle]);
            }
        }
        None
    }
}

/// The byte position that `position` names in a file.
pub fn position_to_byte_index(files: &FileMap, position: &Position) -> (index: Result<
    u32,
    ServerError<()>,
>)
    requires
        files.well_formed(),
        position.line < line_count(files.source@),
    ensures
        match index {
            Ok(index) => {
                &&& files.start <= index
                &&& position_offset(files.source@, *position) == Some((index - files.start) as nat)
            },
            Err(error) => {
                &&& position_offset(files.source@, *position) is None
                &&& error.message@ == position_message(files.source@, *position)
                &&& error.data is None
            },
        },
{
    match lsp_position_to_byte_index(files.source.as_str(), *position) {
        Ok(index) => {
            proof {
                crate::position::lemma_position_offset_bound(files.source@, *position);
            }
            Ok(files.start + index as u32)
        },
        Err(message) => Err(ServerError::from(message)),
    }
}

/// The range of the document that a span of byte positions covers.
pub fn byte_span_to_range(files: &FileMap, span: Span) -> (range: Result<Range, ServerError<()>>)
    requires
        files.well_formed(),
        files.start <= span.start,
        files.start <= span.end,
    ensures
        ({
            let start = (span.start - files.start) as nat;
            let end = (span.end - files.start) as nat;
            match range {
                Ok(range) => {
                    &&& offset_position(files.source@, start) == Some(range.start)
                    &&& offset_position(files.source@, end) == Some(range.end)
                },
                Err(error) => {
                    &&& error.data is None
                    &&& if offset_position(files.source@, start) is None {
                        error.message@ == offset_message(files.source@, start)
                    } else {
                        &&& offset_position(files.source@, end) is None
                        &&& error.message@ == offset_message(files.source@, end)
                    }
                },
            }
        }),
{
    let start: usize = (span.start - files.start) as usize;
    let end: usize = (span.end - files.start) as usize;
    match lsp_byte_span_to_range(files.source.as_str(), start, end) {
        Ok(range) => Ok(range),
        Err(message) => Err(ServerError::from(message)),
    }
}

} // verus!
