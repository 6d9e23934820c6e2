//! What places in a document mean, by taking the document apart.

use vstd::prelude::*;

use crate::position::{
    at_column, fits, has_line, index_position, lemma_index_position, lemma_offset_position_at,
    lemma_position_offset_at, offset_position, position_index, position_offset,
};
use crate::protocol::{no_range, Position, Range};
use crate::text::{
    lemma_line_bounds, lemma_newline_count_take_monotonic, line_begin, newline_count, utf16_len,
    utf8_len,
};
use crate::text_laws::{law_line_feeds_add_up, lemma_no_line_feeds};

verus! {

/// Law: a place counts the line feeds in front of its line, and the UTF-16 code units in front of it
/// on the line. In a text that is taken apart into the lines `before`, the part `column` of one
/// line, and what is behind it, the place between the last two names that gap, and the gap has
/// that place.
pub proof fn law_place_counts_lines_and_columns(
    before: Seq<char>,
    column: Seq<char>,
    after: Seq<char>,
    position: Position,
)
    requires
        before.len() == 0 || before.last() == '\n',
        forall|i: int| 0 <= i < column.len() ==> #[trigger] column[i] != '\n',
        position.line == newline_count(before),
        position.character == utf16_len(column),
        fits(before + column + after),
    ensures
        position_index(before + column + after, position) == Some(
            (before.len() + column.len()) as int,
        ),
        position_offset(before + column + after, position) == Some(utf8_len(before + column)),
        offset_position(before + column + after, utf8_len(before + column)) == Some(position),
{
    let text = before + column + after;
    let k = (before.len() + column.len()) as int;
    assert(text.take(k) =~= before + column);
    law_line_feeds_add_up(before, column, '\n');
    lemma_no_line_feeds(column);
    lemma_index_position(text, k);
    lemma_offset_position_at(text, k);
    let line = newline_count(before);
    let b = line_begin(text, line);
    lemma_line_bounds(text, line);
    crate::text::lemma_line_begin(text, line);
    assert(text.take(before.len() as int) =~= before);
    crate::text::lemma_index_in_line(text, before.len() as int);
    // The line begins where the lines in front of it end.
    assert(b == before.len()) by {
        if b < before.len() {
            lemma_newline_count_take_monotonic(text, b, before.len() - 1);
            assert(before.drop_last() =~= text.take(before.len() - 1));
        }
    }
    assert(text.subrange(b, k) =~= column);
    lemma_position_offset_at(text, index_position(text, k), k);
    assert(index_position(text, k) == position);
}

/// Law: a position behind the end of its line names no gap, and neither does one inside a character
/// that takes two code units.
pub proof fn law_place_has_to_exist(
    before: Seq<char>,
    line: Seq<char>,
    position: Position,
)
    requires
        before.len() == 0 || before.last() == '\n',
        forall|i: int| 0 <= i < line.len() ==> #[trigger] line[i] != '\n',
        fits(before + line),
        position.line == newline_count(before),
        forall|k: int| 0 <= k <= line.len() ==> utf16_len(#[trigger] line.take(k))
            != position.character,
    ensures
        position_index(before + line, position) is None,
        position_offset(before + line, position) is None,
{
    let text = before + line;
    if exists|k: int| at_column(text, position, k) {
        let k = choose|k: int| at_column(text, position, k);
        let at = Position { line: position.line, character: 0 };
        assert(text =~= before + Seq::<char>::empty() + line);
        law_place_counts_lines_and_columns(before, Seq::empty(), line, at);
        crate::position::lemma_position_offset_bound(text, at);
        lemma_line_bounds(text, position.line as nat);
        let b = line_begin(text, position.line as nat);
        assert(utf16_len(text.subrange(b, b)) == 0) by {
            assert(text.subrange(b, b) =~= Seq::<char>::empty());
        }
        lemma_position_offset_at(text, at, b);
        assert(text.subrange(b, k) =~= line.take(k - b));
    }
}

/// Law: a text has a line exactly if there are as many line feeds in front of some place in it.
pub proof fn law_lines_are_counted(text: &str, line: u32, found: bool)
    requires
        call_ensures(has_line, (text, line), found),
    ensures
        found <==> exists|k: int|
            0 <= k <= text@.len() && newline_count(#[trigger] text@.take(k)) == line,
{
    if found {
        crate::text::lemma_line_begin(text@, line as nat);
        let k = line_begin(text@, line as nat);
        assert(newline_count(text@.take(k)) == line);
    }
    if exists|k: int| 0 <= k <= text@.len() && newline_count(#[trigger] text@.take(k)) == line {
        let k = choose|k: int|
            0 <= k <= text@.len() && newline_count(#[trigger] text@.take(k)) == line;
        lemma_newline_count_take_monotonic(text@, k, text@.len() as int);
        assert(text@.take(text@.len() as int) =~= text@);
    }
}

/// Law: where there is nothing better, a range stands at the very begin of a document.
pub proof fn law_no_range_is_the_begin(range: Range)
    requires
        call_ensures(no_range, (), range),
    ensures
        range.start.line == 0 && range.start.character == 0,
        range.end.line == 0 && range.end.character == 0,
{
}

} // verus!
