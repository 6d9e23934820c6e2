use gluon_language_server::protocol::{Position, Range, TextDocumentContentChangeEvent};
use gluon_language_server::text_edit::{
    apply_change, apply_changes, are_valid_changes, is_valid_change, replace_range, TextChanges,
    VersionedChange,
};

fn range(start: (u32, u32), end: (u32, u32)) -> Range {
    Range {
        start: Position {
            line: start.0,
            character: start.1,
        },
        end: Position {
            line: end.0,
            character: end.1,
        },
    }
}

fn edit(start: (u32, u32), end: (u32, u32), text: &str) -> TextDocumentContentChangeEvent {
    TextDocumentContentChangeEvent {
        range: Some(range(start, end)),
        range_length: None,
        text: text.to_string(),
    }
}

fn whole(text: &str) -> TextDocumentContentChangeEvent {
    TextDocumentContentChangeEvent {
        range: None,
        range_length: None,
        text: text.to_string(),
    }
}

#[test]
fn apply_changes_test() {
    let mut source = String::new();
    apply_changes(
        &mut source,
        &[TextDocumentContentChangeEvent {
            range: Some(Range {
                start: Position {
                    line: 0,
                    character: 0,
                },
                end: Position {
                    line: 0,
                    character: 0,
                },
            }),
            range_length: None,
            text: "test".to_string(),
        }],
    )
    .unwrap();

    assert_eq!(source, "test");

    apply_changes(
        &mut source,
        &[TextDocumentContentChangeEvent {
            range: Some(Range {
                start: Position {
                    line: 0,
                    character: 2,
                },
                end: Position {
                    line: 0,
                    character: 3,
                },
            }),
            range_length: Some(1),
            text: "".to_string(),
        }],
    )
    .unwrap();

    assert_eq!(source, "tet");

    apply_changes(
        &mut source,
        &[TextDocumentContentChangeEvent {
            range: Some(Range {
                start: Position {
                    line: 0,
                    character: 2,
                },
                end: Position {
                    line: 0,
                    character: 3,
                },
            }),
            range_length: Some(1),
            text: "ab".to_string(),
        }],
    )
    .unwrap();

    assert_eq!(source, "teab");
}

#[test]
fn edits_count_lines_and_utf16() {
    let mut source = "å𐐀b\nsecond\n".to_string();
    apply_change(&mut source, &edit((0, 1), (0, 3), "x")).unwrap();
    assert_eq!(source, "åxb\nsecond\n");
    apply_change(&mut source, &edit((0, 3), (1, 2), "")).unwrap();
    assert_eq!(source, "åxbcond\n");
    apply_change(&mut source, &edit((1, 0), (1, 0), "end")).unwrap();
    assert_eq!(source, "åxbcond\nend");
    apply_change(&mut source, &whole("new")).unwrap();
    assert_eq!(source, "new");
}

#[test]
fn edit_of_missing_columns_fails() {
    let mut source = "ab\ncd".to_string();
    let error = apply_change(&mut source, &edit((0, 4), (0, 5), "x")).unwrap_err();
    assert_eq!(error.message, "invalid column 3, maximum column 3");
    let error = apply_change(&mut source, &edit((0, 0), (1, 3), "x")).unwrap_err();
    assert_eq!(error.message, "invalid column 2, maximum column 2");
    assert_eq!(source, "ab\ncd");
    // What came before stays.
    let edits = [edit((0, 0), (0, 1), "x"), edit((0, 9), (0, 9), "y")];
    assert!(apply_changes(&mut source, &edits).is_err());
    assert_eq!(source, "xb\ncd");
}

#[test]
fn edits_compose() {
    let edits = [
        edit((0, 0), (0, 1), "x\ny"),
        edit((1, 1), (1, 2), ""),
        edit((0, 1), (1, 0), "z"),
    ];
    let mut at_once = "abc".to_string();
    assert!(are_valid_changes(&at_once, &edits));
    apply_changes(&mut at_once, &edits).unwrap();
    assert_eq!(at_once, "xzyc");
    for middle in 0..edits.len() {
        let mut in_parts = "abc".to_string();
        apply_changes(&mut in_parts, &edits[..middle]).unwrap();
        assert!(are_valid_changes(&in_parts, &edits[middle..]));
        apply_changes(&mut in_parts, &edits[middle..]).unwrap();
        assert_eq!(in_parts, at_once);
    }
}

#[test]
fn edits_have_to_make_sense() {
    assert!(is_valid_change("ab", &edit((0, 0), (0, 2), "")));
    assert!(is_valid_change("ab", &edit((0, 9), (5, 2), "")));
    assert!(!is_valid_change("ab", &edit((0, 0), (1, 0), "")));
    assert!(!is_valid_change("ab", &edit((1, 0), (1, 0), "")));
    assert!(!is_valid_change("ab", &edit((0, 2), (0, 1), "")));
    let mut length_only = whole("");
    length_only.range_length = Some(3);
    assert!(!is_valid_change("ab", &length_only));
    // Each edit has to make sense for what those in front of it leave.
    let edits = [whole("a\nb"), edit((1, 0), (1, 1), "")];
    assert!(are_valid_changes("", &edits));
    assert!(!are_valid_changes("", &edits[1..]));
}

#[test]
fn bytes_are_replaced() {
    let mut text = "åäö".to_string();
    replace_range(&mut text, 2, 4, "abc");
    assert_eq!(text, "åabcö");
    replace_range(&mut text, 0, 0, "x");
    assert_eq!(text, "xåabcö");
}

fn run(arrivals: Vec<(i64, Vec<TextDocumentContentChangeEvent>)>) -> (String, i64) {
    let mut changes = TextChanges::new();
    let mut source = "test2".to_string();
    let mut version = 1;
    for (arrived, edits) in arrivals {
        changes.add(arrived, edits);
        assert!(changes.can_apply(&source, version));
        version = changes.apply_changes(&mut source, version).unwrap();
    }
    (source, version)
}

#[test]
fn order_of_arrival_does_not_matter() {
    let two = || (2, vec![edit((0, 2), (0, 3), "s")]);
    let three = || (3, vec![edit((0, 3), (0, 5), "t1")]);
    let four = || (4, vec![edit((0, 0), (0, 0), "x")]);
    let expected = ("xtest1".to_string(), 4);
    assert_eq!(run(vec![two(), three(), four()]), expected);
    assert_eq!(run(vec![two(), four(), three()]), expected);
    assert_eq!(run(vec![three(), two(), four()]), expected);
    assert_eq!(run(vec![three(), four(), two()]), expected);
    assert_eq!(run(vec![four(), two(), three()]), expected);
    assert_eq!(run(vec![four(), three(), two()]), expected);
}

#[test]
fn edits_wait_for_missing_versions() {
    let mut changes = TextChanges::new();
    let mut source = "abc".to_string();
    changes.add(4, vec![whole("four")]);
    assert_eq!(changes.apply_changes(&mut source, 1), Ok(1));
    assert_eq!(source, "abc");
    changes.add(2, vec![whole("two")]);
    assert_eq!(changes.apply_changes(&mut source, 1), Ok(2));
    assert_eq!(source, "two");
    changes.add(3, vec![whole("three")]);
    assert_eq!(changes.apply_changes(&mut source, 2), Ok(4));
    assert_eq!(source, "four");
    assert_eq!(changes.apply_changes(&mut source, 4), Ok(4));
}

#[test]
fn failed_edit_is_dropped() {
    let mut changes = TextChanges::new();
    let mut source = "abc".to_string();
    changes.add(2, vec![edit((0, 7), (0, 8), "")]);
    changes.add(3, vec![whole("three")]);
    assert!(changes.can_apply(&source, 1));
    let error = changes.apply_changes(&mut source, 1).unwrap_err();
    assert_eq!(error.message, "invalid column 3, maximum column 3");
    assert_eq!(source, "abc");
    // The edit behind it still waits for a version that is missing.
    assert_eq!(changes.apply_changes(&mut source, 1), Ok(1));
    assert_eq!(changes.apply_changes(&mut source, 2), Ok(3));
    assert_eq!(source, "three");
}

#[test]
fn empty_edits_may_repeat_a_version() {
    let mut changes = TextChanges::new();
    let mut source = "abc".to_string();
    changes.add(2, vec![whole("two")]);
    assert!(changes.accepts(2, &vec![]));
    assert!(!changes.accepts(2, &vec![whole("again")]));
    assert!(changes.accepts(3, &vec![whole("three")]));
    changes.add(2, vec![]);
    assert_eq!(changes.apply_changes(&mut source, 1), Ok(2));
    assert_eq!(source, "two");
    changes.add(2, vec![]);
    assert_eq!(changes.apply_changes(&mut source, 2), Ok(2));
    assert_eq!(source, "two");
}

#[test]
fn old_or_senseless_edits_cannot_be_applied() {
    let mut changes = TextChanges::new();
    changes.add(2, vec![edit((3, 0), (3, 0), "x")]);
    assert!(changes.can_apply("abc", 0));
    assert!(!changes.can_apply("abc", 1));
    assert!(changes.can_apply("a\nb\nc\n", 1));
    assert!(!changes.can_apply("a\nb\nc\n", 3));
    let senseless = VersionedChange {
        version: 1,
        content_changes: vec![edit((9, 0), (9, 0), "x")],
    };
    let lines = VersionedChange {
        version: 1,
        content_changes: vec![whole("a\nb\nc\n")],
    };
    assert!(!changes.can_apply_with(&senseless, "abc", 0));
    assert!(changes.can_apply_with(&lines, "abc", 0));
    assert!(changes.can_apply_with(&lines, "abc", 1));
    assert!(!changes.can_apply_with(&lines, "abc", 2));
}

#[test]
fn applying_early_changes_nothing() {
    let edits = || {
        vec![
            (4, edit((0, 0), (0, 0), "d")),
            (2, edit((0, 0), (0, 0), "b")),
            (3, edit((0, 0), (0, 1), "c")),
        ]
    };
    let mut at_once = TextChanges::new();
    let mut source_at_once = "a".to_string();
    for (version, change) in edits() {
        at_once.add(version, vec![change]);
    }
    assert_eq!(at_once.apply_changes(&mut source_at_once, 1), Ok(4));

    let mut in_turn = TextChanges::new();
    let mut source = "a".to_string();
    let mut version = 1;
    for (arrived, change) in edits() {
        in_turn.add(arrived, vec![change]);
        version = in_turn.apply_changes(&mut source, version).unwrap();
    }
    assert_eq!(version, 4);
    assert_eq!(source, "dca");
    assert_eq!(source, source_at_once);
}
