//! Formatting of a document.

use vstd::prelude::*;

use crate::position::{
    at_column, fits, index_position, lemma_index_position, lemma_offset_position_at,
    lemma_position_offset_at,
};
use crate::protocol::{Position, Range, TextDocumentContentChangeEvent};
use crate::source::{byte_span_to_range, FileMap};
use crate::text_edit::{edited, Edited};

verus! {

/// A text that takes the place of a range.
#[derive(Debug, PartialEq, Eq)]
pub struct TextEdit {
    pub range: Range,
    pub new_text: String,
}

/// The edit that makes `formatted` of a whole document.
pub fn format_edits(source: &FileMap, formatted: String) -> (edits: Vec<TextEdit>)
    requires
        source.well_formed(),
    ensures
        edits@ == seq![
            TextEdit {
                range: Range {
                    start: Position { line: 0, character: 0 },
                    end: index_position(source.source@, source.source@.len() as int),
                },
                new_text: formatted,
            },
        ],
{
    proof {
        let text = source.source@;
        lemma_offset_position_at(text, 0);
        lemma_offset_position_at(text, text.len() as int);
        assert(text.take(0) =~= Seq::<char>::empty());
        assert(text.take(text.len() as int) =~= text);
        assert(text.subrange(0, 0) =~= Seq::<char>::empty());
    }
    let mut edits: Vec<TextEdit> = Vec::new();
    match byte_span_to_range(source, source.span()) {
        Ok(range) => {
            edits.push(TextEdit { range, new_text: formatted });
        },
        Err(_) => {},
    }
    edits
}

/// Law: the edit that formats a document, made to the document, leaves the formatted text.
pub proof fn law_formatting_leaves_the_formatted_text(
    text: Seq<char>,
    edit: TextEdit,
    change: TextDocumentContentChangeEvent,
)
    requires
        fits(text),
        edit.range == (Range {
            start: Position { line: 0, character: 0 },
            end: index_position(text, text.len() as int),
        }),
        change.range == Some(edit.range),
        change.text == edit.new_text,
    ensures
        edited(text, change) == (Edited { text: edit.new_text@, error: None }),
{
    let n = text.len() as int;
    lemma_index_position(text, n);
    lemma_position_offset_at(text, edit.range.end, n);
    lemma_index_position(text, 0);
    assert(text.take(0) =~= Seq::<char>::empty());
    assert(text.subrange(0, 0) =~= Seq::<char>::empty());
    assert(at_column(text, edit.range.start, 0));
    lemma_position_offset_at(text, edit.range.start, 0);
    assert(text.take(0) + edit.new_text@ + text.skip(n) =~= edit.new_text@);
}

} // verus!
