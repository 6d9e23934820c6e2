//! The values that travel between an editor and the server.

use vstd::prelude::*;
use vstd::std_specs::cmp::PartialEqSpecImpl;

verus! {

/// A place in a document: a line, counted from zero, and a number of UTF-16 code units from its
/// begin.
#[derive(Clone, Copy, Debug, PartialEq, Eq, Structural)]
pub struct Position {
    pub line: u32,
    pub character: u32,
}

/// The part of a document from one place to another.
#[derive(Clone, Copy, Debug, PartialEq, Eq, Structural)]
pub struct Range {
    pub start: Position,
    pub end: Position,
}

/// What a document is known by.
#[derive(Debug, Eq)]
pub struct Uri {
    pub text: String,
}

impl PartialEq for Uri {
    fn eq(&self, other: &Uri) -> (same: bool) {
        self.text == other.text
    }
}

impl PartialEqSpecImpl for Uri {
    open spec fn obeys_eq_spec() -> bool {
        true
    }

    open spec fn eq_spec(&self, other: &Uri) -> bool {
        self.text@ == other.text@
    }
}

/// A range in the document with the given uri.
#[derive(Clone, Debug, PartialEq, Eq)]
pub struct Location {
    pub uri: String,
    pub range: Range,
}

/// An edit that an editor reports: the text that replaces a range, or the whole document where
/// there is no range.
#[derive(Clone, Debug, PartialEq, Eq)]
pub struct TextDocumentContentChangeEvent {
    pub range: Option<Range>,
    /// The length of the range, which older editors send along.
    pub range_length: Option<u32>,
    pub text: String,
}

/// The range at the very begin of a document.
pub open spec fn zero_range() -> Range {
    Range {
        start: Position { line: 0, character: 0 },
        end: Position { line: 0, character: 0 },
    }
}

/// The range for what has no better one.
pub fn no_range() -> (range: Range)
    ensures
        range == zero_range(),
{
    Range { start: Position { line: 0, character: 0 }, end: Position { line: 0, character: 0 } }
}

} // verus!
