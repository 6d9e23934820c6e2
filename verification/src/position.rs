//! Translation between places in a document, which count lines and UTF-16 code units, and byte
//! offsets in its text.

use codespan_reporting::files::SimpleFile;
use vstd::prelude::*;

use crate::protocol::{Position, Range};
use crate::text::{
    decimal, lemma_encode_utf8_split, lemma_index_in_line, lemma_index_is_boundary,
    lemma_line_bounds, lemma_newline_count_push, lemma_utf16_len_take_monotonic,
    lemma_utf16_len_upper, lemma_utf8_len_lower, lemma_utf8_len_take_monotonic, line_begin,
    line_close, line_count, line_text, newline_count, to_chars, utf16_len, utf8_len,
};

verus! {

/// Whether `position` names the gap in front of character `k`.
pub open spec fn at_column(text: Seq<char>, position: Position, k: int) -> bool {
    &&& position.line < line_count(text)
    &&& line_begin(text, position.line as nat) <= k <= line_close(text, position.line as nat)
    &&& utf16_len(text.subrange(line_begin(text, position.line as nat), k)) == position.character
}

/// The gap that `position` names, by the number of characters in front of it. A position in the
/// middle of a surrogate pair or behind the end of its line names none; directly behind a line
/// feed it names the next line's begin.
pub open spec fn position_index(text: Seq<char>, position: Position) -> Option<int> {
    if exists|k: int| at_column(text, position, k) {
        Some(choose|k: int| at_column(text, position, k))
    } else {
        None
    }
}

/// The byte offset of the gap that `position` names.
pub open spec fn position_offset(text: Seq<char>, position: Position) -> Option<nat> {
    match position_index(text, position) {
        Some(k) => Some(utf8_len(text.take(k))),
        None => None,
    }
}

/// The place of the gap in front of character `k`.
pub open spec fn index_position(text: Seq<char>, k: int) -> Position {
    let line = newline_count(text.take(k));
    Position {
        line: line as u32,
        character: utf16_len(text.subrange(line_begin(text, line), k)) as u32,
    }
}

/// Whether the first `k` characters take `offset` bytes.
pub open spec fn at_offset(text: Seq<char>, offset: nat, k: int) -> bool {
    0 <= k <= text.len() && utf8_len(text.take(k)) == offset
}

/// The place that a byte offset stands at; there is none for an offset behind the end or in the
/// middle of a character.
pub open spec fn offset_position(text: Seq<char>, offset: nat) -> Option<Position> {
    if exists|k: int| at_offset(text, offset, k) {
        Some(index_position(text, choose|k: int| at_offset(text, offset, k)))
    } else {
        None
    }
}

/// What is said of a column that its line does not have.
pub open spec fn column_message(given: nat, max: nat) -> Seq<char> {
    "invalid column "@ + decimal(given) + ", maximum column "@ + decimal(max)
}

/// What is said of a position in an existing line that names no offset: the length of the line in
/// UTF-16 code units and in bytes.
pub open spec fn position_message(text: Seq<char>, position: Position) -> Seq<char> {
    let line = line_text(text, position.line as nat);
    column_message(utf16_len(line), utf8_len(line))
}

/// What is said of an offset that stands at no place.
pub open spec fn offset_message(text: Seq<char>, offset: nat) -> Seq<char> {
    let last = newline_count(text);
    if offset > utf8_len(text) {
        column_message(
            (offset - utf8_len(text.take(line_begin(text, last)))) as nat,
            utf8_len(line_text(text, last)),
        )
    } else {
        "index is not a code point boundary"@
    }
}

/// Whether offsets and columns of `text` fit the numbers that the protocol has for them.
pub open spec fn fits(text: Seq<char>) -> bool {
    utf8_len(text) <= u32::MAX
}

/// Calls `codespan_lsp::position_to_byte_index` on a file that holds `source`.
///
/// The byte offset is the one that the position names. Where the line exists and the position
/// names none, the error says how long the line is. The call panics on a line that the file does
/// not have, and counts columns in 32 bits.
#[verifier::external_body]
pub(crate) fn lsp_position_to_byte_index(source: &str, position: Position) -> (index: Result<
    usize,
    String,
>)
    requires
        fits(source@),
        position.line < line_count(source@),
    ensures
        match index {
            Ok(index) => position_offset(source@, position) == Some(index as nat),
            Err(message) => {
                &&& position_offset(source@, position) is None
                &&& message@ == position_message(source@, position)
            },
        },
{
    let position = lsp_types::Position { line: position.line, character: position.character };
    codespan_lsp::position_to_byte_index(&SimpleFile::new("", source), (), &position).map_err(
        |err| err.to_string(),
    )
}

/// Calls `codespan_lsp::range_to_byte_span` on a file that holds `source`.
///
/// Both positions of the range are looked up as by `position_to_byte_index`, the start first; the
/// end is looked up only where the start was found. The call panics on a line that the file does
/// not have.
#[verifier::external_body]
pub(crate) fn lsp_range_to_byte_span(source: &str, range: Range) -> (span: Result<
    (usize, usize),
    String,
>)
    requires
        fits(source@),
        range.start.line < line_count(source@),
        position_offset(source@, range.start) is Some ==> range.end.line < line_count(source@),
    ensures
        match span {
            Ok((start, end)) => {
                &&& position_offset(source@, range.start) == Some(start as nat)
                &&& position_offset(source@, range.end) == Some(end as nat)
            },
            Err(message) => if position_offset(source@, range.start) is None {
                message@ == position_message(source@, range.start)
            } else {
                &&& position_offset(source@, range.end) is None
                &&& message@ == position_message(source@, range.end)
            },
        },
{
    let range = lsp_types::Range {
        start: lsp_types::Position { line: range.start.line, character: range.start.character },
        end: lsp_types::Position { line: range.end.line, character: range.end.character },
    };
    codespan_lsp::range_to_byte_span(&SimpleFile::new("", source), (), &range).map(
        |span| (span.start, span.end),
    ).map_err(|err| err.to_string())
}

/// Calls `codespan_lsp::byte_span_to_range` on a file that holds `source`.
///
/// Both offsets of the span are translated to the places that they stand at, the start first. An
/// offset that stands nowhere gives an error.
#[verifier::external_body]
pub(crate) fn lsp_byte_span_to_range(source: &str, start: usize, end: usize) -> (range: Result<
    Range,
    String,
>)
    requires
        fits(source@),
    ensures
        match range {
            Ok(range) => {
                &&& offset_position(source@, start as nat) == Some(range.start)
                &&& offset_position(source@, end as nat) == Some(range.end)
            },
            Err(message) => if offset_position(source@, start as nat) is None {
                message@ == offset_message(source@, start as nat)
            } else {
                &&& offset_position(source@, end as nat) is None
                &&& message@ == offset_message(source@, end as nat)
            },
        },
{
    codespan_lsp::byte_span_to_range(&SimpleFile::new("", source), (), start..end).map(
        |range|
            Range {
                start: Position { line: range.start.line, character: range.start.character },
                end: Position { line: range.end.line, character: range.end.character },
            },
    ).map_err(|err| err.to_string())
}

/// Whether `text` has a line with the number `line`.
pub fn has_line(text: &str, line: u32) -> (found: bool)
    ensures
        found == (line < line_count(text@)),
{
    let chars = to_chars(text);
    let mut left: u32 = line;
    let mut i: usize = 0;
    assert(text@.take(0) =~= Seq::<char>::empty());
    while i < chars.len() && left > 0
        invariant
            chars@ == text@,
            i <= chars@.len(),
            left <= line,
            newline_count(text@.take(i as int)) == line - left,
        decreases chars@.len() - i,
    {
        assert(text@.take(i + 1) =~= text@.take(i as int).push(text@[i as int]));
        proof {
            lemma_newline_count_push(text@.take(i as int), text@[i as int]);
        }
        if chars[i] == '\n' {
            left -= 1;
        }
        i += 1;
    }
    proof {
        assert(text@.take(text@.len() as int) =~= text@);
        crate::text::lemma_newline_count_take_monotonic(text@, i as int, text@.len() as int);
    }
    left == 0
}

/// Law: a position names at most one gap.
pub proof fn law_position_names_one_gap(text: Seq<char>, position: Position, i: int, j: int)
    requires
        at_column(text, position, i),
        at_column(text, position, j),
    ensures
        i == j,
{
    let line = position.line as nat;
    lemma_line_bounds(text, line);
    let b = line_begin(text, line);
    if i < j {
        lemma_columns_ascend(text, b, i, j);
    } else if j < i {
        lemma_columns_ascend(text, b, j, i);
    }
}

proof fn lemma_columns_ascend(text: Seq<char>, b: int, i: int, j: int)
    requires
        0 <= b <= i < j <= text.len(),
    ensures
        utf16_len(text.subrange(b, i)) < utf16_len(text.subrange(b, j)),
{
    let tail = text.subrange(b, j);
    lemma_utf16_len_take_monotonic(tail, i - b, j - b);
    assert(tail.take(i - b) =~= text.subrange(b, i));
    assert(tail.take(j - b) =~= tail);
}

/// Law: different gaps stand at different offsets.
pub proof fn law_offset_names_one_gap(text: Seq<char>, offset: nat, i: int, j: int)
    requires
        at_offset(text, offset, i),
        at_offset(text, offset, j),
    ensures
        i == j,
{
    if i < j {
        lemma_utf8_len_take_monotonic(text, i, j);
    } else if j < i {
        lemma_utf8_len_take_monotonic(text, j, i);
    }
}

/// The place of a gap names that gap, and both its numbers fit 32 bits.
pub proof fn lemma_index_position(text: Seq<char>, k: int)
    requires
        fits(text),
        0 <= k <= text.len(),
    ensures
        at_column(text, index_position(text, k), k),
        index_position(text, k).line == newline_count(text.take(k)),
{
    let line = newline_count(text.take(k));
    lemma_index_in_line(text, k);
    let b = line_begin(text, line);
    let column = text.subrange(b, k);
    lemma_utf16_len_upper(column);
    lemma_encode_utf8_split(text, k);
    lemma_encode_utf8_split(text.take(k), b);
    assert(text.take(k).skip(b) =~= column);
    lemma_newline_count_upper(text.take(k));
    lemma_utf8_len_lower(text.take(k));
}

proof fn lemma_newline_count_upper(text: Seq<char>)
    ensures
        newline_count(text) <= text.len(),
    decreases text.len(),
{
    if text.len() > 0 {
        lemma_newline_count_upper(text.drop_last());
    }
}

/// Law: the place of an offset leads back to that offset.
pub proof fn law_offset_to_position_and_back(text: Seq<char>, offset: nat)
    requires
        fits(text),
    ensures
        offset_position(text, offset) matches Some(position) ==> position_offset(text, position)
            == Some(offset),
{
    if exists|k: int| at_offset(text, offset, k) {
        let k = choose|k: int| at_offset(text, offset, k);
        lemma_index_position(text, k);
        lemma_position_offset_at(text, index_position(text, k), k);
    }
}

/// A position that names a gap names the offset of that gap.
pub proof fn lemma_position_offset_at(text: Seq<char>, position: Position, k: int)
    requires
        at_column(text, position, k),
    ensures
        position_index(text, position) == Some(k),
        position_offset(text, position) == Some(utf8_len(text.take(k))),
{
    let chosen = choose|k: int| at_column(text, position, k);
    law_position_names_one_gap(text, position, k, chosen);
}

/// The offset that a position names stands in the text.
pub proof fn lemma_position_offset_bound(text: Seq<char>, position: Position)
    ensures
        position_index(text, position) matches Some(k) ==> 0 <= k <= text.len() && at_column(
            text,
            position,
            k,
        ),
        position_offset(text, position) matches Some(offset) ==> offset <= utf8_len(text),
{
    if let Some(k) = position_index(text, position) {
        lemma_line_bounds(text, position.line as nat);
        lemma_index_is_boundary(text, k);
    }
}

/// An offset stands at the place of the gap that it stands at.
pub proof fn lemma_offset_position_at(text: Seq<char>, k: int)
    requires
        0 <= k <= text.len(),
    ensures
        offset_position(text, utf8_len(text.take(k))) == Some(index_position(text, k)),
{
    let offset = utf8_len(text.take(k));
    assert(at_offset(text, offset, k));
    let chosen = choose|k: int| at_offset(text, offset, k);
    law_offset_names_one_gap(text, offset, k, chosen);
}

/// Law: a place leads to an offset that leads back to it, unless it stands behind a line feed: that
/// place is the next line's begin too, and the offset leads to the latter.
pub proof fn law_position_to_offset_and_back(text: Seq<char>, position: Position, k: int)
    requires
        fits(text),
        at_column(text, position, k),
        k < line_close(text, position.line as nat) || position.line == newline_count(text),
    ensures
        position_offset(text, position) == Some(utf8_len(text.take(k))),
        offset_position(text, utf8_len(text.take(k))) == Some(position),
{
    let line = position.line as nat;
    lemma_line_bounds(text, line);
    lemma_position_offset_at(text, position, k);
    lemma_offset_position_at(text, k);
    if k == line_close(text, line) {
        assert(text.take(k) =~= text);
    }
    assert(newline_count(text.take(k)) == line);
    lemma_index_position(text, k);
}

/// Law: offsets and places are in the same order: a gap further on stands on a later line or at a
/// later column.
pub proof fn law_positions_ascend(text: Seq<char>, i: int, j: int)
    requires
        fits(text),
        0 <= i < j <= text.len(),
    ensures
        ({
            let a = index_position(text, i);
            let b = index_position(text, j);
            a.line < b.line || a.line == b.line && a.character < b.character
        }),
{
    lemma_index_position(text, i);
    lemma_index_position(text, j);
    crate::text::lemma_newline_count_take_monotonic(text, i, j);
    let line = newline_count(text.take(i));
    if newline_count(text.take(j)) == line {
        lemma_line_bounds(text, line);
        lemma_columns_ascend(text, line_begin(text, line), i, j);
    }
}

} // verus!
