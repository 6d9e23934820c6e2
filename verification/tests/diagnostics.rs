use gluon_language_server::check_importer::CheckImporter;
use gluon_language_server::diagnostics::report::{
    create_diagnostics, is_fitting_error, CompileError,
};
use gluon_language_server::diagnostics::worker::{
    accepts_change, did_change, did_open, run_diagnostics, Changed,
};
use gluon_language_server::diagnostics::{
    are_fitting_labels, make_lsp_diagnostic, make_lsp_severity, CodeDiagnostic, Diagnostic,
    DiagnosticSeverity, Label, LabelStyle, Severity,
};
use gluon_language_server::protocol::{Position, Range, TextDocumentContentChangeEvent, Uri};
use gluon_language_server::source::{CodeMap, FileMap};
use gluon_language_server::text_edit::VersionedChange;
use gluon_language_server::text_map::TextMap;

fn range(start: (u32, u32), end: (u32, u32)) -> Range {
    Range {
        start: Position {
            line: start.0,
            character: start.1,
        },
        end: Position {
            line: end.0,
            character: end.1,
        },
    }
}

fn code_map() -> CodeMap {
    CodeMap {
        files: vec![
            FileMap {
                name: "a".to_string(),
                source: "first\nsecond".to_string(),
                start: 1,
            },
            FileMap {
                name: "b".to_string(),
                source: "åäö".to_string(),
                start: 20,
            },
        ],
    }
}

fn label(style: LabelStyle, file_id: u32, start: usize, end: usize, message: &str) -> Label {
    Label {
        style,
        file_id,
        start,
        end,
        message: message.to_string(),
    }
}

fn error(labels: Vec<Label>) -> CodeDiagnostic {
    CodeDiagnostic {
        severity: Severity::Error,
        message: "message".to_string(),
        labels,
    }
}

fn url(name: &str) -> Result<String, ()> {
    if name == "b" {
        Err(())
    } else {
        Ok(format!("file:///{}.glu", name))
    }
}

fn translate(labels: Vec<Label>) -> Result<Diagnostic, String> {
    assert!(are_fitting_labels(&code_map(), &labels));
    make_lsp_diagnostic(&code_map(), error(labels), url).map_err(|error| {
        assert_eq!(error.data, None);
        error.message
    })
}

#[test]
fn severities() {
    assert_eq!(make_lsp_severity(Severity::Bug), DiagnosticSeverity::Error);
    assert_eq!(make_lsp_severity(Severity::Error), DiagnosticSeverity::Error);
    assert_eq!(
        make_lsp_severity(Severity::Warning),
        DiagnosticSeverity::Warning
    );
    assert_eq!(
        make_lsp_severity(Severity::Note),
        DiagnosticSeverity::Information
    );
    assert_eq!(make_lsp_severity(Severity::Help), DiagnosticSeverity::Hint);
}

#[test]
fn first_primary_label_gives_the_range() {
    let diagnostic = translate(vec![
        label(LabelStyle::Secondary, 3, 0, 5, "other"),
        label(LabelStyle::Primary, 1, 12, 6, "here"),
        label(LabelStyle::Primary, 1, 0, 1, "there"),
    ])
    .unwrap();
    assert_eq!(diagnostic.range, range((1, 0), (1, 6)));
    assert_eq!(diagnostic.severity, Some(DiagnosticSeverity::Error));
    assert_eq!(diagnostic.message, "message");
    assert_eq!(diagnostic.code, None);
    assert_eq!(diagnostic.source, None);
    let related = diagnostic.related_information.unwrap();
    assert_eq!(related.len(), 3);
    assert_eq!(related[0].message, "other");
    assert_eq!(related[0].location.uri, "file:///a.glu");
    assert_eq!(related[0].location.range, range((0, 0), (0, 5)));
    assert_eq!(related[1].location.range, range((1, 0), (1, 6)));
}

#[test]
fn labels_without_a_file_belong_to_the_primary_one() {
    let diagnostic = translate(vec![
        label(LabelStyle::Primary, 1, 0, 5, "here"),
        label(LabelStyle::Secondary, 0, 3, 4, "help"),
    ])
    .unwrap();
    let related = diagnostic.related_information.unwrap();
    assert_eq!(related[1].location.uri, "file:///a.glu");
    assert_eq!(related[1].location.range, range((0, 0), (0, 0)));
}

#[test]
fn message_without_labels() {
    let diagnostic = translate(vec![]).unwrap();
    assert_eq!(diagnostic.range, range((0, 0), (0, 0)));
    assert_eq!(diagnostic.related_information, None);
}

#[test]
fn labels_can_lead_nowhere() {
    let primary = |file_id, start, end| label(LabelStyle::Primary, file_id, start, end, "");
    assert_eq!(
        translate(vec![primary(19, 0, 1)]).unwrap_err(),
        "Span is outside codemap 19"
    );
    assert_eq!(
        translate(vec![primary(0, 0, 1)]).unwrap_err(),
        "Span is outside codemap 0"
    );
    assert_eq!(
        translate(vec![primary(20, 1, 2)]).unwrap_err(),
        "index is not a code point boundary"
    );
    assert_eq!(
        translate(vec![primary(1, 0, 13)]).unwrap_err(),
        "invalid column 7, maximum column 6"
    );
    assert_eq!(
        translate(vec![primary(20, 0, 2)]).unwrap_err(),
        "Unable to correlate filename: b"
    );
    // The first reason counts.
    let labels = vec![
        label(LabelStyle::Secondary, 20, 0, 2, ""),
        label(LabelStyle::Secondary, 19, 0, 2, ""),
    ];
    assert_eq!(
        translate(labels).unwrap_err(),
        "Unable to correlate filename: b"
    );
}

#[test]
fn labels_have_to_fit() {
    let labels = |start, end| vec![label(LabelStyle::Primary, 20, start, end, "")];
    let most = u32::MAX as usize - 20;
    assert!(are_fitting_labels(&code_map(), &labels(most, 0)));
    assert!(!are_fitting_labels(&code_map(), &labels(most + 1, 0)));
    assert!(!are_fitting_labels(&code_map(), &labels(0, most + 1)));
    // Without a file there is nothing to fit.
    let labels = vec![label(LabelStyle::Primary, 19, most + 1, 0, "")];
    assert!(are_fitting_labels(&code_map(), &labels));
}

fn in_file(uri: &str, errors: Vec<CodeDiagnostic>) -> CompileError {
    CompileError::InFile {
        uri: uri.to_string(),
        source: code_map(),
        errors,
    }
}

fn here() -> CodeDiagnostic {
    error(vec![label(LabelStyle::Primary, 1, 0, 5, "here")])
}

fn nowhere() -> CodeDiagnostic {
    error(vec![label(LabelStyle::Primary, 19, 0, 5, "nowhere")])
}

#[test]
fn messages_are_sorted_by_document() {
    let reason = CompileError::Multiple(vec![
        in_file("file:///b.glu", vec![here(), here()]),
        CompileError::Other("went wrong".to_string()),
        CompileError::Multiple(vec![in_file("file:///a.glu", vec![here()])]),
        in_file("file:///b.glu", vec![here()]),
    ]);
    assert!(is_fitting_error(&reason));
    let published = run_diagnostics("file:///main.glu", Some(4), Err(reason), &url).unwrap();
    let summary: Vec<(&str, usize)> = published
        .iter()
        .map(|params| (params.uri.as_str(), params.diagnostics.len()))
        .collect();
    assert_eq!(
        summary,
        vec![
            ("file:///a.glu", 1),
            ("file:///b.glu", 3),
            ("file:///main.glu", 1),
        ]
    );
    assert!(published.iter().all(|params| params.version == Some(4)));
    assert_eq!(
        published[0].diagnostics[0].source,
        Some("gluon".to_string())
    );
    assert_eq!(
        published[2].diagnostics[0],
        Diagnostic {
            range: range((0, 0), (0, 0)),
            severity: Some(DiagnosticSeverity::Error),
            code: None,
            source: Some("gluon".to_string()),
            message: "went wrong".to_string(),
            related_information: None,
        }
    );
}

#[test]
fn nothing_is_published_where_messages_cannot_be_made() {
    let reason = CompileError::Multiple(vec![
        in_file("file:///b.glu", vec![here(), nowhere(), here()]),
        in_file("file:///a.glu", vec![here()]),
    ]);
    let failure = run_diagnostics("file:///main.glu", None, Err(reason), &url).unwrap_err();
    assert_eq!(failure.message, "Span is outside codemap 19");
}

#[test]
fn reports_stop_at_the_first_failure() {
    let reason = CompileError::Multiple(vec![
        in_file("file:///b.glu", vec![here(), nowhere(), here()]),
        in_file("file:///a.glu", vec![here()]),
    ]);
    let mut messages = TextMap::new();
    messages.insert("file:///z.glu".to_string(), Vec::new());
    assert!(create_diagnostics(&mut messages, "file:///main.glu", &reason, &url).is_err());
    assert_eq!(messages.get("file:///b.glu").unwrap().len(), 1);
    assert!(messages.get("file:///a.glu").is_none());
    assert!(messages.get("file:///z.glu").is_some());
}

#[test]
fn errors_have_to_fit() {
    let most = u32::MAX as usize;
    let huge = error(vec![label(LabelStyle::Primary, 1, 0, most, "")]);
    assert!(!is_fitting_error(&in_file("", vec![here(), huge.clone()])));
    assert!(!is_fitting_error(&CompileError::Multiple(vec![in_file(
        "",
        vec![huge]
    )])));
    assert!(is_fitting_error(&CompileError::Other("".to_string())));
    let mut files = code_map();
    files.files[1].start = 5;
    assert!(!is_fitting_error(&CompileError::InFile {
        uri: "".to_string(),
        source: files,
        errors: vec![],
    }));
}

#[test]
fn checked_document_without_errors() {
    let published = run_diagnostics("file:///main.glu", None, Ok(()), &url).unwrap();
    assert_eq!(published.len(), 1);
    assert_eq!(published[0].uri, "file:///main.glu");
    assert!(published[0].diagnostics.is_empty());
    assert_eq!(published[0].version, None);
}

#[test]
fn opened_documents_are_queued() {
    let entry = did_open("file:///a".to_string(), "text".to_string(), 7);
    assert_eq!(
        entry.key,
        Uri {
            text: "file:///a".to_string()
        }
    );
    assert_eq!(entry.value, "text");
    assert_eq!(entry.version, 7);
}

fn change(version: i64, text: &str) -> VersionedChange {
    VersionedChange {
        version,
        content_changes: vec![TextDocumentContentChangeEvent {
            range: None,
            range_length: None,
            text: text.to_string(),
        }],
    }
}

fn changed(modules: &mut CheckImporter, change: VersionedChange, source: &str) -> Changed {
    assert!(accepts_change(modules, "a", &change, source));
    did_change(
        modules,
        "a".to_string(),
        "file:///editor/a.glu".to_string(),
        change,
        source.to_string(),
    )
}

#[test]
fn edits_wait_until_the_document_was_checked() {
    let mut modules = CheckImporter::new();
    assert_eq!(changed(&mut modules, change(2, "two"), ""), Changed::Nothing);
    assert_eq!(modules.get("a").unwrap().version, None);
    modules.checked("a".to_string(), "file:///a".to_string(), Some(1));
    assert_eq!(
        changed(&mut modules, change(3, "three"), "one"),
        Changed::Document {
            version: 3,
            source: "three".to_string(),
        }
    );
    assert_eq!(modules.get("a").unwrap().version, Some(3));
}

#[test]
fn editor_knows_the_uri() {
    let mut modules = CheckImporter::new();
    modules.import("a".to_string(), "file:///guessed".to_string());
    changed(&mut modules, change(2, "two"), "");
    assert_eq!(modules.get("a").unwrap().uri, "file:///editor/a.glu");
}

#[test]
fn failed_edit_keeps_the_version() {
    let mut modules = CheckImporter::new();
    modules.checked("a".to_string(), "file:///a".to_string(), Some(1));
    let mut wrong = change(2, "x");
    wrong.content_changes[0].range = Some(range((0, 7), (0, 8)));
    match changed(&mut modules, wrong, "one") {
        Changed::Failed(error) => assert_eq!(error.message, "invalid column 3, maximum column 3"),
        outcome => panic!("{:?}", outcome),
    }
    assert_eq!(modules.get("a").unwrap().version, Some(1));
}

#[test]
fn edits_can_be_refused() {
    let mut modules = CheckImporter::new();
    modules.checked("a".to_string(), "file:///a".to_string(), Some(2));
    assert!(!accepts_change(&modules, "a", &change(1, "old"), ""));
    assert!(accepts_change(&modules, "a", &change(4, "new"), ""));
    changed(&mut modules, change(4, "four"), "");
    assert!(!accepts_change(&modules, "a", &change(4, "again"), ""));
    assert!(accepts_change(&modules, "b", &change(1, "other"), ""));
}

#[test]
fn waiting_edits_change_nothing() {
    let mut modules = CheckImporter::new();
    modules.checked("a".to_string(), "file:///a".to_string(), Some(1));
    assert_eq!(changed(&mut modules, change(3, "three"), "one"), Changed::Nothing);
    assert_eq!(modules.get("a").unwrap().version, Some(1));
    assert_eq!(
        changed(&mut modules, change(2, "two"), "one"),
        Changed::Document {
            version: 3,
            source: "three".to_string(),
        }
    );
}
