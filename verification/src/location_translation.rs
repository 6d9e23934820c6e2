//! Translation between places in a document and byte positions of a source file, line by line.

use vstd::prelude::*;
use vstd::utf8::{encode_utf8, is_char_boundary};

use crate::position::{
    at_column, at_offset, fits, lemma_index_position, lemma_offset_position_at,
    lemma_position_offset_at, lemma_position_offset_bound, offset_position, position_index,
    position_offset,
};
use crate::protocol::{Position, Range};
use crate::rpc::ServerError;
use crate::source::{FileMap, Span};
use crate::text::{
    decimal, decimal_string, lemma_boundary_is_index, lemma_encode_utf8_injective,
    lemma_encode_utf8_push, lemma_encode_utf8_split, lemma_index_in_line, lemma_index_is_boundary,
    lemma_line_bounds, lemma_same_offset, lemma_utf16_len_push, lemma_utf16_len_take_monotonic,
    lemma_utf16_len_upper, lemma_utf8_len_take_monotonic, line_begin, line_close, line_count,
    newline_count, substring, to_chars, utf16_count, utf16_len, utf8_len,
};

verus! {

/// A place in a source file: a line and a byte in it, both counted from zero.
#[derive(Clone, Copy, Debug, PartialEq, Eq, Structural)]
pub struct LineColumn {
    pub line: u32,
    pub column: u32,
}

/// The line of the gap that stands at a byte offset, where there is such a gap.
pub open spec fn line_at(text: Seq<char>, offset: nat) -> Option<nat> {
    if exists|k: int| at_offset(text, offset, k) {
        Some(newline_count(text.take(choose|k: int| at_offset(text, offset, k))))
    } else {
        None
    }
}

/// Calls `codespan::FileMap::find_line` on a file that holds `source`.
///
/// Positions of such a file start at one. The line is found where the position stands between two
/// characters or at an end of the file; as many line feeds precede the position as its line has
/// lines in front of it.
#[verifier::external_body]
fn find_line(source: &str, position: u32) -> (line: Option<u32>)
    requires
        utf8_len(source@) < u32::MAX,
    ensures
        match line {
            Some(line) => position > 0 && line_at(source@, (position - 1) as nat) == Some(
                line as nat,
            ),
            None => position == 0 || line_at(source@, (position - 1) as nat) is None,
        },
{
    let file = codespan::FileMap::new("".into(), source);
    file.find_line(codespan::ByteIndex(position)).ok().map(|line| line.0)
}

/// Calls `codespan::FileMap::line_span` on a file that holds `source`.
///
/// Positions of such a file start at one. A line that the file has spans its characters and its
/// line feed.
#[verifier::external_body]
fn line_span(source: &str, line: u32) -> (span: Option<(u32, u32)>)
    requires
        utf8_len(source@) < u32::MAX,
    ensures
        match span {
            Some((start, end)) => {
                &&& line < line_count(source@)
                &&& start == 1 + utf8_len(source@.take(line_begin(source@, line as nat)))
                &&& end == 1 + utf8_len(source@.take(line_close(source@, line as nat)))
            },
            None => line >= line_count(source@),
        },
{
    let file = codespan::FileMap::new("".into(), source);
    file.line_span(codespan::LineIndex(line)).ok().map(|span| (span.start().0, span.end().0))
}

/// Whether `column` bytes of `line` are whole characters.
pub open spec fn is_column(line: Seq<char>, column: nat) -> bool {
    exists|k: int| at_offset(line, column, k)
}

/// What is said of a place that its line does not have.
pub open spec fn location_message(location: LineColumn) -> Seq<char> {
    "Line: "@ + decimal((location.line + 1) as nat) + ", Column: "@ + decimal(
        (location.column + 1) as nat,
    ) + " is not a valid location"@
}

/// The place in a document that a byte of the line `line` stands at.
pub fn location_to_position(line: &str, loc: &LineColumn) -> (position: Result<
    Position,
    ServerError<()>,
>)
    requires
        fits(line@),
        is_column(line@, loc.column as nat) || loc.line < u32::MAX && loc.column < u32::MAX,
    ensures
        match position {
            Ok(position) => {
                &&& position.line == loc.line
                &&& exists|k: int|
                    at_offset(line@, loc.column as nat, k) && position.character == utf16_len(
                        line@.take(k),
                    )
            },
            Err(error) => {
                &&& !is_column(line@, loc.column as nat)
                &&& error.message@ == location_message(*loc)
                &&& error.data is None
            },
        },
{
    let column: usize = loc.column as usize;
    let ghost bytes = encode_utf8(line@);
    proof {
        vstd::utf8::encode_utf8_valid_utf8(line@);
        if is_char_boundary(bytes, column as int) {
            let k = lemma_boundary_is_index(line@, column as int);
            assert(at_offset(line@, loc.column as nat, k));
        }
        if is_column(line@, loc.column as nat) {
            let k = choose|k: int| at_offset(line@, loc.column as nat, k);
            lemma_index_is_boundary(line@, k);
        }
    }
    if line.is_char_boundary(column) {
        let ghost k = lemma_boundary_is_index(line@, column as int);
        let (front, _) = line.split_at(column);
        proof {
            lemma_index_is_boundary(line@, k);
            assert(encode_utf8(front@) =~= bytes.take(column as int));
            lemma_encode_utf8_injective(front@, line@.take(k));
            lemma_utf16_len_upper(front@);
            assert(at_offset(line@, loc.column as nat, k));
        }
        Ok(Position { line: loc.line, character: utf16_count(front) as u32 })
    } else {
        let mut message = "Line: ".to_owned();
        message.append(decimal_string(loc.line as u64 + 1).as_str());
        message.append(", Column: ");
        message.append(decimal_string(loc.column as u64 + 1).as_str());
        message.append(" is not a valid location");
        Err(ServerError::from(message))
    }
}

/// The place in a document that a byte position of its source file stands at.
pub fn byte_pos_to_position(source: &FileMap, pos: u32) -> (position: Result<
    Position,
    ServerError<()>,
>)
    requires
        source.well_formed(),
        source.start <= pos,
        offset_position(source.source@, (pos - source.start) as nat) is Some,
    ensures
        position matches Ok(position) && offset_position(
            source.source@,
            (pos - source.start) as nat,
        ) == Some(position),
{
    let text = source.source.as_str();
    let ghost offset = (pos - source.start) as nat;
    let ghost k = choose|k: int| at_offset(text@, offset, k);
    let index: u32 = pos - source.start + 1;
    let found = find_line(text, index);
    let line: u32 = found.unwrap();
    proof {
        lemma_index_in_line(text@, k);
    }
    let ghost begin = line_begin(text@, line as nat);
    let ghost close = line_close(text@, line as nat);
    let (start, end): (u32, u32) = line_span(text, line).unwrap();
    proof {
        lemma_index_is_boundary(text@, begin);
        lemma_index_is_boundary(text@, close);
        if begin < close {
            lemma_utf8_len_take_monotonic(text@, begin, close);
        }
        if begin < k {
            lemma_utf8_len_take_monotonic(text@, begin, k);
        }
    }
    let line_src = substring(text, (start - 1) as usize, (end - 1) as usize);
    let location = LineColumn { line, column: index - start };
    proof {
        assert(line_src@ =~= text@.subrange(begin, close));
        lemma_column_in_line(text@, begin, close, k);
        lemma_encode_utf8_split(text@.take(close), begin);
        assert(text@.take(close).skip(begin) =~= line_src@);
        assert(at_offset(line_src@, location.column as nat, k - begin));
        lemma_index_position(text@, k);
        lemma_offset_position_at(text@, k);
        assert(line_src@.take(k - begin) =~= text@.subrange(begin, k));
    }
    let position = location_to_position(line_src, &location);
    proof {
        let column = choose|i: int|
            at_offset(line_src@, location.column as nat, i) && position->Ok_0.character
                == utf16_len(line_src@.take(i));
        lemma_same_offset(line_src@, k - begin, column);
    }
    position
}

/// Bytes of a line count from its begin.
proof fn lemma_column_in_line(text: Seq<char>, begin: int, close: int, k: int)
    requires
        0 <= begin <= k <= close <= text.len(),
    ensures
        utf8_len(text.subrange(begin, close).take(k - begin)) == utf8_len(text.take(k)) - utf8_len(
            text.take(begin),
        ),
{
    lemma_encode_utf8_split(text.take(k), begin);
    assert(text.take(k).take(begin) =~= text.take(begin));
    assert(text.take(k).skip(begin) =~= text.subrange(begin, close).take(k - begin));
}

/// The range of a document that a span of its source file covers.
pub fn byte_span_to_range(source: &FileMap, span: Span) -> (range: Result<Range, ServerError<()>>)
    requires
        source.well_formed(),
        source.start <= span.start,
        source.start <= span.end,
        offset_position(source.source@, (span.start - source.start) as nat) is Some,
        offset_position(source.source@, (span.end - source.start) as nat) is Some,
    ensures
        range matches Ok(range) && {
            &&& offset_position(source.source@, (span.start - source.start) as nat) == Some(
                range.start,
            )
            &&& offset_position(source.source@, (span.end - source.start) as nat) == Some(range.end)
        },
{
    let start = byte_pos_to_position(source, span.start)?;
    let end = byte_pos_to_position(source, span.end)?;
    Ok(Range { start, end })
}

/// Whether the first `k` characters of `line` take `character` UTF-16 code units.
pub open spec fn at_character(line: Seq<char>, character: nat, k: int) -> bool {
    0 <= k <= line.len() && utf16_len(line.take(k)) == character
}

/// Whether `character` UTF-16 code units of `line` are whole characters.
pub open spec fn is_character(line: Seq<char>, character: nat) -> bool {
    exists|k: int| at_character(line, character, k)
}

/// How many bytes of `line` stand in front of the UTF-16 code unit `character`, where a character
/// starts there.
pub fn character_to_line_offset(line: &str, character: u64) -> (offset: Option<i64>)
    requires
        utf8_len(line@) <= i64::MAX,
    ensures
        match offset {
            Some(offset) => exists|k: int|
                at_character(line@, character as nat, k) && offset == utf8_len(line@.take(k)),
            None => !exists|k: int| at_character(line@, character as nat, k),
        },
        offset is Some == is_character(line@, character as nat),
{
    let chars = to_chars(line);
    let mut character_offset: u64 = 0;
    let mut byte_offset: i64 = 0;
    let mut i: usize = 0;
    proof {
        assert(line@.take(0) =~= Seq::<char>::empty());
        lemma_utf16_len_upper(line@);
    }
    loop
        invariant
            chars@ == line@,
            i <= line@.len(),
            utf8_len(line@) <= i64::MAX,
            utf16_len(line@) <= utf8_len(line@),
            character_offset == utf16_len(line@.take(i as int)),
            byte_offset == utf8_len(line@.take(i as int)),
            forall|k: int| 0 <= k < i ==> !at_character(line@, character as nat, k),
        decreases line@.len() - i,
    {
        if character_offset == character {
            assert(at_character(line@, character as nat, i as int));
            return Some(byte_offset);
        }
        assert(!at_character(line@, character as nat, i as int));
        if i == chars.len() {
            return None;
        }
        let c: char = chars[i];
        proof {
            assert(line@.take(i + 1) =~= line@.take(i as int).push(c));
            lemma_utf16_len_push(line@.take(i as int), c);
            lemma_encode_utf8_push(line@.take(i as int), c);
            vstd::utf8::char_is_scalar(c);
            assert(line@.take(line@.len() as int) =~= line@);
            if i + 1 < line@.len() {
                lemma_utf16_len_take_monotonic(line@, i + 1, line@.len() as int);
                lemma_utf8_len_take_monotonic(line@, i + 1, line@.len() as int);
            }
        }
        character_offset += if c as u32 >= 0x10000 {
            2
        } else {
            1
        };
        byte_offset += if c as u32 <= 0x7F {
            1
        } else if c as u32 <= 0x7FF {
            2
        } else if c as u32 <= 0xFFFF {
            3
        } else {
            4
        };
        i += 1;
    }
}

/// What is said of a place that a document does not have.
pub open spec fn out_of_range_message(position: Position) -> Seq<char> {
    "Position ("@ + decimal(position.line as nat) + ", "@ + decimal(position.character as nat)
        + ") is out of range"@
}

/// The byte position that a place in the document has in the source file.
pub fn position_to_byte_pos(source: &FileMap, position: &Position) -> (pos: Result<
    u32,
    ServerError<()>,
>)
    requires
        source.well_formed(),
    ensures
        match pos {
            Ok(pos) => {
                &&& source.start <= pos
                &&& position_offset(source.source@, *position) == Some((pos - source.start) as nat)
            },
            Err(error) => {
                &&& position_offset(source.source@, *position) is None
                &&& error.message@ == out_of_range_message(*position)
                &&& error.data is None
            },
        },
{
    let text = source.source.as_str();
    let offset = match line_span(text, position.line) {
        None => None,
        Some((start, end)) => {
            let ghost begin = line_begin(text@, position.line as nat);
            let ghost close = line_close(text@, position.line as nat);
            proof {
                lemma_line_bounds(text@, position.line as nat);
                lemma_index_is_boundary(text@, begin);
                lemma_index_is_boundary(text@, close);
                if begin < close {
                    lemma_utf8_len_take_monotonic(text@, begin, close);
                }
            }
            let line = substring(text, (start - 1) as usize, (end - 1) as usize);
            proof {
                assert(line@ =~= text@.subrange(begin, close));
                lemma_column_in_line(text@, begin, close, close);
                assert(line@.take(close - begin) =~= line@);
            }
            match character_to_line_offset(line, position.character as u64) {
                None => {
                    proof {
                        if let Some(k) = position_index(text@, *position) {
                            assert(at_column(text@, *position, k));
                            assert(line@.take(k - begin) =~= text@.subrange(begin, k));
                            assert(at_character(line@, position.character as nat, k - begin));
                        }
                    }
                    None
                },
                Some(column) => {
                    proof {
                        let i = choose|i: int|
                            at_character(line@, position.character as nat, i) && column == utf8_len(
                                line@.take(i),
                            );
                        assert(line@.take(i) =~= text@.subrange(begin, begin + i));
                        assert(at_column(text@, *position, begin + i));
                        lemma_position_offset_at(text@, *position, begin + i);
                        lemma_column_in_line(text@, begin, close, begin + i);
                        lemma_position_offset_bound(text@, *position);
                    }
                    Some(start - 1 + column as u32)
                },
            }
        },
    };
    match offset {
        Some(offset) => {
            proof {
                lemma_position_offset_bound(text@, *position);
            }
            Ok(source.start + offset)
        },
        None => {
            let mut message = "Position (".to_owned();
            message.append(decimal_string(position.line as u64).as_str());
            message.append(", ");
            message.append(decimal_string(position.character as u64).as_str());
            message.append(") is out of range");
            Err(ServerError::from(message))
        },
    }
}

/// The span of the source file that a range of the document covers, whichever of its ends comes
/// first.
pub fn range_to_byte_span(source: &FileMap, range: &Range) -> (span: Result<Span, ServerError<()>>)
    requires
        source.well_formed(),
    ensures
        ({
            let start = position_offset(source.source@, range.start);
            let end = position_offset(source.source@, range.end);
            match span {
                Ok(span) => start is Some && end is Some && {
                    let first = source.start + start.unwrap();
                    let last = source.start + end.unwrap();
                    if first <= last {
                        span.start == first && span.end == last
                    } else {
                        span.start == last && span.end == first
                    }
                },
                Err(error) => {
                    &&& error.data is None
                    &&& if start is None {
                        error.message@ == out_of_range_message(range.start)
                    } else {
                        end is None && error.message@ == out_of_range_message(range.end)
                    }
                },
            }
        }),
{
    let start = position_to_byte_pos(source, &range.start)?;
    let end = position_to_byte_pos(source, &range.end)?;
    Ok(Span::new(start, end))
}

/// Law: a byte position that stands at a place in the document is the one that the place leads back
/// to.
pub proof fn law_byte_pos_round_trip(source: FileMap, pos: u32)
    requires
        source.well_formed(),
        source.start <= pos,
    ensures
        offset_position(source.source@, (pos - source.start) as nat) matches Some(position)
            ==> position_offset(source.source@, position) == Some((pos - source.start) as nat),
{
    crate::position::law_offset_to_position_and_back(
        source.source@,
        (pos - source.start) as nat,
    );
}

} // verus!
