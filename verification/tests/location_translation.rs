use gluon_language_server::location_translation::{
    byte_pos_to_position, byte_span_to_range, character_to_line_offset, location_to_position,
    position_to_byte_pos, range_to_byte_span, LineColumn,
};
use gluon_language_server::protocol::{Position, Range};
use gluon_language_server::source::{FileMap, Span};

fn file(source: &str) -> FileMap {
    FileMap {
        name: "".to_string(),
        source: source.to_string(),
        start: 1,
    }
}

#[test]
fn position() {
    let text = r#"
let test = 2
let test1 = ""
te
"#;
    let source = codespan::FileMap::new("".into(), text);
    let pos = position_to_byte_pos(
        &file(text),
        &Position {
            line: 3,
            character: 2,
        },
    )
    .unwrap();
    assert_eq!(
        (3.into(), 2.into()),
        source.location(codespan::ByteIndex(pos)).unwrap()
    );
}

// The protocol specifies that each `character` in position is a UTF-16 character.
// This means that `å` and `ä` here counts as 1 while `𐐀` counts as 2.
const UNICODE: &str = "åä t𐐀b";

#[test]
fn unicode_get_byte_pos() {
    let source = file(UNICODE);

    let result = position_to_byte_pos(
        &source,
        &Position {
            line: 0,
            character: 3,
        },
    );
    assert_eq!(result, Ok(6));

    let result = position_to_byte_pos(
        &source,
        &Position {
            line: 0,
            character: 6,
        },
    );
    assert_eq!(result, Ok(11));
}

#[test]
fn unicode_get_position() {
    let source = file(UNICODE);

    let result = byte_pos_to_position(&source, 6);
    assert_eq!(
        result,
        Ok(Position {
            line: 0,
            character: 3,
        },)
    );

    let result = byte_pos_to_position(&source, 11);
    assert_eq!(
        result,
        Ok(Position {
            line: 0,
            character: 6,
        },)
    );
}

#[test]
fn places_that_a_document_lacks_are_out_of_range() {
    let source = file(UNICODE);
    for (line, character) in [(0, 5), (0, 8), (1, 0), (u32::MAX, 0)] {
        let error = position_to_byte_pos(&source, &Position { line, character }).unwrap_err();
        assert_eq!(
            error.message,
            format!("Position ({}, {}) is out of range", line, character)
        );
        assert_eq!(error.data, None);
    }
}

#[test]
fn location_has_to_stand_between_characters() {
    let at = |column: u32| location_to_position(UNICODE, &LineColumn { line: 7, column });
    assert_eq!(
        at(4),
        Ok(Position {
            line: 7,
            character: 2
        })
    );
    assert_eq!(
        at(11),
        Ok(Position {
            line: 7,
            character: 7
        })
    );
    assert_eq!(
        at(1).unwrap_err().message,
        "Line: 8, Column: 2 is not a valid location"
    );
    assert_eq!(
        at(12).unwrap_err().message,
        "Line: 8, Column: 13 is not a valid location"
    );
}

#[test]
fn characters_are_counted_in_utf16() {
    assert_eq!(character_to_line_offset(UNICODE, 0), Some(0));
    assert_eq!(character_to_line_offset(UNICODE, 1), Some(2));
    assert_eq!(character_to_line_offset(UNICODE, 4), Some(6));
    assert_eq!(character_to_line_offset(UNICODE, 5), None);
    assert_eq!(character_to_line_offset(UNICODE, 6), Some(10));
    assert_eq!(character_to_line_offset(UNICODE, 7), Some(11));
    assert_eq!(character_to_line_offset(UNICODE, 8), None);
    assert_eq!(character_to_line_offset("", 0), Some(0));
}

#[test]
fn byte_positions_lead_to_places_and_back() {
    let mut source = file("ab\nå𐐀\n\nx");
    for start in [1, 40] {
        source.start = start;
        let mut offset = 0;
        for c in source.source.chars().chain(Some('x')) {
            let pos = start + offset;
            let place = byte_pos_to_position(&source, pos).unwrap();
            assert_eq!(position_to_byte_pos(&source, &place), Ok(pos));
            offset += c.len_utf8() as u32;
        }
    }
    assert_eq!(
        byte_span_to_range(&source, Span { start: 43, end: 45 }),
        Ok(Range {
            start: Position {
                line: 1,
                character: 0
            },
            end: Position {
                line: 1,
                character: 1
            },
        })
    );
}

#[test]
fn ranges_cover_spans_in_either_direction() {
    let source = file("ab\ncd");
    let a = Position {
        line: 0,
        character: 1,
    };
    let b = Position {
        line: 1,
        character: 1,
    };
    let span = Span { start: 2, end: 5 };
    assert_eq!(
        range_to_byte_span(&source, &Range { start: a, end: b }),
        Ok(span)
    );
    assert_eq!(
        range_to_byte_span(&source, &Range { start: b, end: a }),
        Ok(span)
    );
    let missing = Position {
        line: 2,
        character: 0,
    };
    assert_eq!(
        range_to_byte_span(
            &source,
            &Range {
                start: a,
                end: missing
            }
        )
        .unwrap_err()
        .message,
        "Position (2, 0) is out of range"
    );
}
