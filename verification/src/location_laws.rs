//! What places and byte positions have to do with each other, line by line.

use vstd::prelude::*;

use crate::location_translation::{
    at_character, byte_pos_to_position, byte_span_to_range, character_to_line_offset, is_character,
    is_column, location_to_position, position_to_byte_pos, range_to_byte_span, LineColumn,
};
use crate::position::{at_offset, law_offset_names_one_gap, position_index};
use crate::position_laws::law_place_counts_lines_and_columns;
use crate::protocol::{Position, Range};
use crate::rpc::ServerError;
use crate::source::{FileMap, Span};
use crate::text::{
    decimal_string, lemma_utf16_len_take_monotonic, newline_count, utf16_len, utf8_len,
};

verus! {

/// Law: a byte position stands at the place that counts the lines in front of it and the UTF-16 code
/// units in front of it on its line, and that place leads back to the byte position.
pub proof fn law_byte_positions_and_places(
    file: &FileMap,
    before: Seq<char>,
    column: Seq<char>,
    after: Seq<char>,
    pos: u32,
    position: Result<Position, ServerError<()>>,
    place: &Position,
    back: Result<u32, ServerError<()>>,
)
    requires
        file.well_formed(),
        file.source@ == before + column + after,
        before.len() == 0 || before.last() == '\n',
        forall|i: int| 0 <= i < column.len() ==> #[trigger] column[i] != '\n',
        newline_count(before) <= u32::MAX,
        utf16_len(column) <= u32::MAX,
        pos == file.start + utf8_len(before + column),
        call_ensures(byte_pos_to_position, (file, pos), position),
        place.line == newline_count(before),
        place.character == utf16_len(column),
        call_ensures(position_to_byte_pos, (file, place), back),
    ensures
        position == Ok::<Position, ServerError<()>>(*place),
        back == Ok::<u32, ServerError<()>>(pos),
{
    law_place_counts_lines_and_columns(before, column, after, *place);
}

/// Law: a place that a document does not have leads to no byte position, and is told.
pub proof fn law_missing_places_have_no_bytes(
    file: &FileMap,
    place: &Position,
    pos: Result<u32, ServerError<()>>,
)
    requires
        call_ensures(position_to_byte_pos, (file, place), pos),
    ensures
        pos is Ok <==> position_index(file.source@, *place) is Some,
        pos matches Ok(pos) ==> pos == file.start + utf8_len(
            file.source@.take(position_index(file.source@, *place).unwrap()),
        ),
{
}

/// Law: a span covers the range between the places of its ends, and the span of a range has the
/// bytes of its ends, the smaller one first.
pub proof fn law_spans_and_ranges(
    file: &FileMap,
    span: Span,
    range: Result<Range, ServerError<()>>,
    start: Result<Position, ServerError<()>>,
    end: Result<Position, ServerError<()>>,
    other: &Range,
    back: Result<Span, ServerError<()>>,
    first: Result<u32, ServerError<()>>,
    last: Result<u32, ServerError<()>>,
)
    requires
        call_ensures(byte_span_to_range, (file, span), range),
        call_ensures(byte_pos_to_position, (file, span.start), start),
        call_ensures(byte_pos_to_position, (file, span.end), end),
        call_ensures(range_to_byte_span, (file, other), back),
        call_ensures(position_to_byte_pos, (file, &other.start), first),
        call_ensures(position_to_byte_pos, (file, &other.end), last),
    ensures
        range is Ok,
        range->Ok_0.start == start->Ok_0,
        range->Ok_0.end == end->Ok_0,
        back is Ok <==> first is Ok && last is Ok,
        back matches Ok(back) ==> {
            &&& back.start <= back.end
            &&& first->Ok_0 <= last->Ok_0 ==> back.start == first->Ok_0 && back.end == last->Ok_0
            &&& first->Ok_0 > last->Ok_0 ==> back.start == last->Ok_0 && back.end == first->Ok_0
        },
{
}

/// Law: a byte of a line stands at the place behind the UTF-16 code units of the characters in front
/// of it, and a number of code units leads back to the byte.
pub proof fn law_columns_of_a_line(
    line: &str,
    front: Seq<char>,
    back: Seq<char>,
    location: &LineColumn,
    position: Result<Position, ServerError<()>>,
    character: u64,
    offset: Option<i64>,
)
    requires
        line@ == front + back,
        location.column == utf8_len(front),
        call_ensures(location_to_position, (line, location), position),
        character == utf16_len(front),
        call_ensures(character_to_line_offset, (line, character), offset),
    ensures
        position is Ok,
        position->Ok_0.line == location.line,
        position->Ok_0.character == utf16_len(front),
        offset == Some(utf8_len(front) as i64),
        offset.unwrap() == utf8_len(front),
{
    let n = front.len() as int;
    assert(line@.take(n) =~= front);
    assert(at_offset(line@, location.column as nat, n));
    assert(is_column(line@, location.column as nat));
    let k = choose|k: int|
        at_offset(line@, location.column as nat, k) && position->Ok_0.character == utf16_len(
            line@.take(k),
        );
    law_offset_names_one_gap(line@, location.column as nat, n, k);
    assert(at_character(line@, character as nat, n));
    assert(is_character(line@, character as nat));
    let m = choose|m: int|
        at_character(line@, character as nat, m) && offset.unwrap() == utf8_len(line@.take(m));
    if m < n {
        lemma_utf16_len_take_monotonic(line@, m, n);
    } else if n < m {
        lemma_utf16_len_take_monotonic(line@, n, m);
    }
}

/// Law: a column that does not stand between two characters of its line is told.
pub proof fn law_columns_stand_between_characters(
    line: &str,
    location: &LineColumn,
    position: Result<Position, ServerError<()>>,
    character: u64,
    offset: Option<i64>,
)
    requires
        call_ensures(location_to_position, (line, location), position),
        call_ensures(character_to_line_offset, (line, character), offset),
    ensures
        position is Err <==> forall|k: int|
            0 <= k <= line@.len() ==> utf8_len(#[trigger] line@.take(k)) != location.column,
        offset is None <==> forall|k: int|
            0 <= k <= line@.len() ==> utf16_len(#[trigger] line@.take(k)) != character,
{
    assert(forall|k: int|
        at_offset(line@, location.column as nat, k) <==> 0 <= k <= line@.len() && utf8_len(
            #[trigger] line@.take(k),
        ) == location.column);
    assert(forall|k: int|
        at_character(line@, character as nat, k) <==> 0 <= k <= line@.len() && utf16_len(
            #[trigger] line@.take(k),
        ) == character);
    if position is Ok {
        let k = choose|k: int| at_offset(line@, location.column as nat, k);
        assert(utf8_len(line@.take(k)) == location.column);
    }
    if offset is Some {
        let k = choose|k: int| at_character(line@, character as nat, k);
        assert(utf16_len(line@.take(k)) == character);
    }
}

/// Law: a place that does not exist is told by its numbers.
pub proof fn law_missing_places_are_told(
    file: &FileMap,
    place: &Position,
    error: ServerError<()>,
    line: String,
    character: String,
    text: &str,
    location: &LineColumn,
    failure: ServerError<()>,
    row: String,
    column: String,
)
    requires
        call_ensures(
            position_to_byte_pos,
            (file, place),
            Err::<u32, ServerError<()>>(error),
        ),
        call_ensures(decimal_string, (place.line as u64,), line),
        call_ensures(decimal_string, (place.character as u64,), character),
        call_ensures(
            location_to_position,
            (text, location),
            Err::<Position, ServerError<()>>(failure),
        ),
        call_ensures(decimal_string, ((location.line + 1) as u64,), row),
        call_ensures(decimal_string, ((location.column + 1) as u64,), column),
    ensures
        error.message@ == "Position ("@ + line@ + ", "@ + character@ + ") is out of range"@,
        failure.message@ == "Line: "@ + row@ + ", Column: "@ + column@
            + " is not a valid location"@,
{
}

} // verus!
