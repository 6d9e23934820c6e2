//! What byte positions of source files mean.

use vstd::prelude::*;

use crate::position::{
    at_offset, index_position, lemma_index_position, lemma_offset_position_at,
    lemma_position_offset_at, offset_message, offset_position, position_index, position_message,
};
use crate::protocol::{Position, Range};
use crate::rpc::ServerError;
use crate::source::{byte_span_to_range, position_to_byte_index, CodeMap, FileMap, Span};
use crate::text::{newline_count, utf8_len};

verus! {

/// Whether `range` names the part of a text that stands between two others.
pub open spec fn names(range: Range, before: Seq<char>, part: Seq<char>, after: Seq<char>) -> bool {
    let text = before + part + after;
    &&& position_index(text, range.start) == Some(before.len() as int)
    &&& position_index(text, range.end) == Some((before.len() + part.len()) as int)
    &&& range.start.line == newline_count(before)
    &&& range.end.line == newline_count(before + part)
}

/// Law: the byte positions of a part of a file, counted from the file's own first position, lead to
/// the range that names this part.
pub proof fn law_spans_lead_to_their_part(
    file: &FileMap,
    span: Span,
    range: Result<Range, ServerError<()>>,
    before: Seq<char>,
    part: Seq<char>,
    after: Seq<char>,
)
    requires
        file.well_formed(),
        call_ensures(byte_span_to_range, (file, span), range),
        file.source@ == before + part + after,
        span.start == file.start + utf8_len(before),
        span.end == file.start + utf8_len(before + part),
    ensures
        range is Ok,
        names(range->Ok_0, before, part, after),
{
    let text = file.source@;
    let i = before.len() as int;
    let j = (before.len() + part.len()) as int;
    assert(text.take(i) =~= before);
    assert(text.take(j) =~= before + part);
    lemma_offset_position_at(text, i);
    lemma_offset_position_at(text, j);
    lemma_index_position(text, i);
    lemma_index_position(text, j);
    lemma_position_offset_at(text, index_position(text, i), i);
    lemma_position_offset_at(text, index_position(text, j), j);
}

/// Law: byte positions behind the end of a file, or inside a character, lead nowhere.
pub proof fn law_spans_stand_between_characters(
    file: &FileMap,
    span: Span,
    range: Result<Range, ServerError<()>>,
)
    requires
        file.start <= span.start,
        file.start <= span.end,
        call_ensures(byte_span_to_range, (file, span), range),
    ensures
        range is Ok <==> (exists|i: int|
            0 <= i <= file.source@.len() && utf8_len(#[trigger] file.source@.take(i)) + file.start
                == span.start) && (exists|j: int|
            0 <= j <= file.source@.len() && utf8_len(#[trigger] file.source@.take(j)) + file.start
                == span.end),
        range matches Err(error) ==> error.data is None && error.message@ == offset_message(
            file.source@,
            if offset_position(file.source@, (span.start - file.start) as nat) is None {
                (span.start - file.start) as nat
            } else {
                (span.end - file.start) as nat
            },
        ),
{
    let text = file.source@;
    let start = (span.start - file.start) as nat;
    let end = (span.end - file.start) as nat;
    assert(forall|i: int| at_offset(text, start, i) <==> 0 <= i <= text.len() && utf8_len(
        #[trigger] text.take(i),
    ) == start);
    assert(forall|j: int| at_offset(text, end, j) <==> 0 <= j <= text.len() && utf8_len(
        #[trigger] text.take(j),
    ) == end);
    if range is Ok {
        let i = choose|i: int| at_offset(text, start, i);
        let j = choose|j: int| at_offset(text, end, j);
        assert(utf8_len(text.take(i)) + file.start == span.start);
        assert(utf8_len(text.take(j)) + file.start == span.end);
    }
    if exists|i: int|
        0 <= i <= text.len() && utf8_len(#[trigger] text.take(i)) + file.start == span.start {
        let i = choose|i: int|
            0 <= i <= text.len() && utf8_len(#[trigger] text.take(i)) + file.start == span.start;
        assert(at_offset(text, start, i));
    }
    if exists|j: int|
        0 <= j <= text.len() && utf8_len(#[trigger] text.take(j)) + file.start == span.end {
        let j = choose|j: int|
            0 <= j <= text.len() && utf8_len(#[trigger] text.take(j)) + file.start == span.end;
        assert(at_offset(text, end, j));
    }
}

/// Law: a place leads to the byte position of the gap that it names, counted from the file's own
/// first position, and to none if it names no gap.
pub proof fn law_places_lead_to_bytes(
    file: &FileMap,
    position: &Position,
    index: Result<u32, ServerError<()>>,
)
    requires
        call_ensures(position_to_byte_index, (file, position), index),
    ensures
        index is Ok <==> position_index(file.source@, *position) is Some,
        index matches Err(error) ==> error.data is None && error.message@ == position_message(
            file.source@,
            *position,
        ),
        index matches Ok(index) ==> index == file.start + utf8_len(
            file.source@.take(position_index(file.source@, *position).unwrap()),
        ),
{
}

/// Law: a file has the byte positions from its first on, as many as it has bytes, and one more.
pub proof fn law_files_have_the_positions_of_their_bytes(file: &FileMap, span: Span)
    requires
        call_ensures(FileMap::span, (file,), span),
    ensures
        span.start == file.start,
        span.end - span.start == utf8_len(file.source@),
{
}

/// Law: a span between two positions starts at the smaller one.
pub proof fn law_spans_are_in_order(start: u32, end: u32, span: Span, other: Span)
    requires
        call_ensures(Span::new, (start, end), span),
        call_ensures(Span::new, (end, start), other),
    ensures
        span == other,
        span.start <= span.end,
        span.start == start && span.end == end || span.start == end && span.end == start,
{
}

/// Law: a position leads to the file that has it, and to no file if none has.
pub proof fn law_positions_lead_to_their_file(
    code_map: &CodeMap,
    position: u32,
    file: Option<&FileMap>,
    i: int,
)
    requires
        code_map.well_formed(),
        call_ensures(CodeMap::get, (code_map, position), file),
        0 <= i < code_map.files@.len(),
    ensures
        code_map.files@[i].start <= position <= code_map.files@[i].start + utf8_len(
            code_map.files@[i].source@,
        ) ==> file == Some(&code_map.files@[i]),
        file matches Some(found) ==> code_map.files@.contains(*found) && found.start <= position
            <= found.start + utf8_len(found.source@),
{
    if code_map.files@[i].holds(position as int) {
        code_map.law_position_belongs_to_one_file(position as int, i, i);
    }
}

/// Law: files are in order if each begins at a position that is not zero and behind the end of the
/// one in front of it, and ends at a position of 32 bits.
pub proof fn law_files_in_order(code_map: &CodeMap, valid: bool)
    requires
        call_ensures(CodeMap::is_well_formed, (code_map,), valid),
    ensures
        valid <==> (forall|i: int|
            0 <= i < code_map.files@.len() ==> 0 < (#[trigger] code_map.files@[i]).start
                && code_map.files@[i].start + utf8_len(code_map.files@[i].source@) <= u32::MAX) && (
        forall|i: int, j: int|
            0 <= i < j < code_map.files@.len() ==> (#[trigger] code_map.files@[i]).start + utf8_len(
                code_map.files@[i].source@,
            ) < (#[trigger] code_map.files@[j]).start),
{
    if valid {
        assert forall|i: int| 0 <= i < code_map.files@.len() implies 0 < (
        #[trigger] code_map.files@[i]).start && code_map.files@[i].start + utf8_len(
            code_map.files@[i].source@,
        ) <= u32::MAX by {
            assert(code_map.files@[i].well_formed());
        }
        assert forall|i: int, j: int| 0 <= i < j < code_map.files@.len() implies (
        #[trigger] code_map.files@[i]).start + utf8_len(code_map.files@[i].source@) < (
        #[trigger] code_map.files@[j]).start by {
            assert(code_map.files@[i].end() < code_map.files@[j].start);
        }
    }
}

} // verus!
