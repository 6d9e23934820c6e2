use gluon_language_server::position::has_line;
use gluon_language_server::protocol::{Position, Range};
use gluon_language_server::source::{CodeMap, FileMap, Span};
use gluon_language_server::{byte_span_to_range, position_to_byte_index};

const TEXT: &str = "åä t𐐀b\n\nlast";

fn file(name: &str, source: &str, start: u32) -> FileMap {
    FileMap {
        name: name.to_string(),
        source: source.to_string(),
        start,
    }
}

fn position(line: u32, character: u32) -> Position {
    Position { line, character }
}

#[test]
fn positions_lead_to_byte_indices() {
    let files = file("a", TEXT, 20);
    let index = |line, character| position_to_byte_index(&files, &position(line, character));
    assert_eq!(index(0, 0), Ok(20));
    assert_eq!(index(0, 3), Ok(25));
    assert_eq!(index(0, 6), Ok(30));
    // Behind the line feed the next line begins.
    assert_eq!(index(0, 8), Ok(32));
    assert_eq!(index(1, 0), Ok(32));
    assert_eq!(index(2, 4), Ok(37));
}

#[test]
fn missing_columns_are_reported() {
    let files = file("a", TEXT, 1);
    let message = |line, character| {
        position_to_byte_index(&files, &position(line, character))
            .unwrap_err()
            .message
    };
    // Inside of a surrogate pair, and behind the end of a line.
    assert_eq!(message(0, 5), "invalid column 8, maximum column 12");
    assert_eq!(message(0, 9), "invalid column 8, maximum column 12");
    assert_eq!(message(1, 2), "invalid column 1, maximum column 1");
    assert_eq!(message(2, 5), "invalid column 4, maximum column 4");
}

#[test]
fn spans_lead_to_ranges() {
    let files = file("a", TEXT, 20);
    assert_eq!(
        byte_span_to_range(&files, Span::new(37, 25)),
        Ok(Range {
            start: position(0, 3),
            end: position(2, 4),
        })
    );
    assert_eq!(
        byte_span_to_range(&files, files.span()),
        Ok(Range {
            start: position(0, 0),
            end: position(2, 4),
        })
    );
    assert_eq!(
        byte_span_to_range(&files, Span { start: 21, end: 25 })
            .unwrap_err()
            .message,
        "index is not a code point boundary"
    );
    assert_eq!(
        byte_span_to_range(&files, Span { start: 20, end: 40 })
            .unwrap_err()
            .message,
        "invalid column 7, maximum column 4"
    );
}

#[test]
fn offsets_and_places_lead_to_each_other() {
    let files = file("a", TEXT, 1);
    let mut index = 1;
    for c in TEXT.chars().chain(Some('x')) {
        let range = byte_span_to_range(&files, Span::new(index, index)).unwrap();
        assert_eq!(position_to_byte_index(&files, &range.start), Ok(index));
        index += c.len_utf8() as u32;
    }
}

#[test]
fn lines_are_counted_by_line_feeds() {
    assert!(has_line("", 0));
    assert!(!has_line("", 1));
    assert!(has_line("a\n", 1));
    assert!(!has_line("a\n", 2));
    assert!(has_line(TEXT, 2));
    assert!(!has_line(TEXT, 3));
}

#[test]
fn positions_belong_to_files() {
    let map = CodeMap {
        files: vec![file("a", "abc", 1), file("b", "", 5), file("c", "xy", 9)],
    };
    assert!(map.is_well_formed());
    let name = |position: u32| map.get(position).map(|file| file.name.clone());
    assert_eq!(name(0), None);
    assert_eq!(name(1), Some("a".to_string()));
    assert_eq!(name(4), Some("a".to_string()));
    assert_eq!(name(5), Some("b".to_string()));
    assert_eq!(name(6), None);
    assert_eq!(name(9), Some("c".to_string()));
    assert_eq!(name(11), Some("c".to_string()));
    assert_eq!(name(12), None);
    let overlapping = CodeMap {
        files: vec![file("a", "abc", 1), file("b", "", 4)],
    };
    assert!(!overlapping.is_well_formed());
    let at_nothing = CodeMap {
        files: vec![file("a", "abc", 0)],
    };
    assert!(!at_nothing.is_well_formed());
}
