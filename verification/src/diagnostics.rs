//! What the compiler has to say of a program, in the terms of an editor.

use vstd::prelude::*;

use crate::position::{offset_message, offset_position};
use crate::protocol::{no_range, zero_range, Location, Range};
use crate::rpc::ServerError;
use crate::source::{byte_span_to_range, CodeMap, FileMap, Span};
use crate::text::{decimal, decimal_string};

pub mod laws;
pub mod report;
pub mod worker;

verus! {

/// How the compiler rates what it reports.
#[derive(Clone, Copy, Debug, PartialEq, Eq, Structural)]
pub enum Severity {
    Bug,
    Error,
    Warning,
    Note,
    Help,
}

/// How an editor rates what is reported to it.
#[derive(Clone, Copy, Debug, PartialEq, Eq, Structural)]
pub enum DiagnosticSeverity {
    Error,
    Warning,
    Information,
    Hint,
}

#[derive(Clone, Copy, Debug, PartialEq, Eq, Structural)]
pub enum LabelStyle {
    Primary,
    Secondary,
}

/// A part of a source file that a message of the compiler refers to.
#[derive(Clone, Debug, PartialEq, Eq)]
pub struct Label {
    pub style: LabelStyle,
    /// A byte position of the file, or zero for no file.
    pub file_id: u32,
    /// The bytes of the file that are meant.
    pub start: usize,
    pub end: usize,
    pub message: String,
}

/// A message of the compiler.
#[derive(Clone, Debug, PartialEq, Eq)]
pub struct CodeDiagnostic {
    pub severity: Severity,
    pub message: String,
    pub labels: Vec<Label>,
}

#[derive(Clone, Debug, PartialEq, Eq)]
pub struct DiagnosticRelatedInformation {
    pub location: Location,
    pub message: String,
}

/// A message for an editor.
#[derive(Clone, Debug, PartialEq, Eq)]
pub struct Diagnostic {
    pub range: Range,
    pub severity: Option<DiagnosticSeverity>,
    pub code: Option<String>,
    pub source: Option<String>,
    pub message: String,
    pub related_information: Option<Vec<DiagnosticRelatedInformation>>,
}

pub open spec fn lsp_severity(severity: Severity) -> DiagnosticSeverity {
    match severity {
        Severity::Bug | Severity::Error => DiagnosticSeverity::Error,
        Severity::Warning => DiagnosticSeverity::Warning,
        Severity::Note => DiagnosticSeverity::Information,
        Severity::Help => DiagnosticSeverity::Hint,
    }
}

pub fn make_lsp_severity(severity: Severity) -> (result: DiagnosticSeverity)
    ensures
        result == lsp_severity(severity),
{
    match severity {
        Severity::Error | Severity::Bug => DiagnosticSeverity::Error,
        Severity::Warning => DiagnosticSeverity::Warning,
        Severity::Note => DiagnosticSeverity::Information,
        Severity::Help => DiagnosticSeverity::Hint,
    }
}

/// Where a label points to: a range of one of the files, or why there is none.
pub enum Place {
    At { file: int, range: Range },
    Nowhere(Seq<char>),
}

/// What is said of a label whose file is not there.
pub open spec fn outside_message(file_id: u32) -> Seq<char> {
    "Span is outside codemap "@ + decimal(file_id as nat)
}

/// What is said of a file that no url is known for.
pub open spec fn correlate_message(name: Seq<char>) -> Seq<char> {
    "Unable to correlate filename: "@ + name
}

/// Where a label points to in its own file. Its bytes may be given in either order.
pub open spec fn own_place(code_map: CodeMap, label: Label) -> Place {
    match code_map.file_index(label.file_id as int) {
        None => Place::Nowhere(outside_message(label.file_id)),
        Some(file) => {
            let text = code_map.files@[file].source@;
            let (start, end) = if label.start <= label.end {
                (label.start as nat, label.end as nat)
            } else {
                (label.end as nat, label.start as nat)
            };
            match (offset_position(text, start), offset_position(text, end)) {
                (Some(first), Some(last)) => Place::At {
                    file,
                    range: Range { start: first, end: last },
                },
                (None, _) => Place::Nowhere(offset_message(text, start)),
                (Some(_), None) => Place::Nowhere(offset_message(text, end)),
            }
        },
    }
}

/// Where a label points to. One without a file belongs to the file of the primary label, if there
/// is one.
pub open spec fn place(code_map: CodeMap, primary_file: Option<int>, label: Label) -> Place {
    if primary_file is Some && label.file_id == 0 {
        Place::At { file: primary_file.unwrap(), range: zero_range() }
    } else {
        own_place(code_map, label)
    }
}

/// The first primary label, or the number of labels.
pub open spec fn first_primary(labels: Seq<Label>) -> int
    decreases labels.len(),
{
    if labels.len() == 0 || labels[0].style == LabelStyle::Primary {
        0
    } else {
        1 + first_primary(labels.drop_first())
    }
}

/// Where the first primary label points to, if there is one.
pub open spec fn primary_place(code_map: CodeMap, labels: Seq<Label>) -> Option<Place> {
    if first_primary(labels) < labels.len() {
        Some(own_place(code_map, labels[first_primary(labels)]))
    } else {
        None
    }
}

pub open spec fn leads_nowhere(place: Option<Place>) -> bool {
    match place {
        Some(Place::Nowhere(_)) => true,
        _ => false,
    }
}

/// The file of the first primary label.
pub open spec fn primary_file(code_map: CodeMap, labels: Seq<Label>) -> Option<int> {
    match primary_place(code_map, labels) {
        Some(Place::At { file, .. }) => Some(file),
        _ => None,
    }
}

/// Whether the bytes of every label fit the positions of its file.
pub open spec fn labels_fit(code_map: CodeMap, labels: Seq<Label>) -> bool {
    forall|i: int|
        0 <= i < labels.len() ==> (code_map.file_index(
            (#[trigger] labels[i]).file_id as int,
        ) matches Some(file) ==> {
            &&& code_map.files@[file].start + labels[i].start <= u32::MAX
            &&& code_map.files@[file].start + labels[i].end <= u32::MAX
        })
}

/// Whether `url` may be what `f` answers when it is asked for the file named `name`.
pub open spec fn answers<F: Fn(&str) -> Result<String, ()>>(
    f: F,
    name: Seq<char>,
    url: Result<String, ()>,
) -> bool {
    exists|asked: &str| asked@ == name && #[trigger] call_ensures(f, (asked,), url)
}

/// Whether `info` is what becomes of a label.
pub open spec fn is_info<F: Fn(&str) -> Result<String, ()>>(
    code_map: CodeMap,
    primary_file: Option<int>,
    f: F,
    label: Label,
    info: DiagnosticRelatedInformation,
) -> bool {
    &&& place(code_map, primary_file, label) matches Place::At { file, range }
    &&& info.location.range == range
    &&& info.message == label.message
    &&& answers(f, code_map.files@[file].name@, Ok(info.location.uri))
}

/// Whether a label has nothing to become, and `message` says why.
pub open spec fn is_failure<F: Fn(&str) -> Result<String, ()>>(
    code_map: CodeMap,
    primary_file: Option<int>,
    f: F,
    label: Label,
    message: Seq<char>,
) -> bool {
    match place(code_map, primary_file, label) {
        Place::Nowhere(reason) => message == reason,
        Place::At { file, .. } => {
            let name = code_map.files@[file].name@;
            answers(f, name, Err(())) && message == correlate_message(name)
        },
    }
}

/// Whether `infos` are what becomes of the labels.
pub open spec fn are_infos<F: Fn(&str) -> Result<String, ()>>(
    code_map: CodeMap,
    primary_file: Option<int>,
    f: F,
    labels: Seq<Label>,
    infos: Seq<DiagnosticRelatedInformation>,
) -> bool {
    &&& infos.len() == labels.len()
    &&& forall|i: int|
        0 <= i < labels.len() ==> is_info(code_map, primary_file, f, labels[i], #[trigger] infos[i])
}

/// What a translation of a message of the compiler may give: a message for an editor, or an error
/// of which the first label that has nothing to become is the reason.
pub open spec fn is_translation<F: Fn(&str) -> Result<String, ()>>(
    code_map: CodeMap,
    diagnostic: CodeDiagnostic,
    f: F,
    result: Result<Diagnostic, ServerError<()>>,
) -> bool {
    let labels = diagnostic.labels@;
    let file = primary_file(code_map, labels);
    match result {
        Ok(result) => {
            &&& !leads_nowhere(primary_place(code_map, labels))
            &&& result.range == (match primary_place(code_map, labels) {
                Some(Place::At { range, .. }) => range,
                _ => zero_range(),
            })
            &&& result.message == diagnostic.message
            &&& result.severity == Some(lsp_severity(diagnostic.severity))
            &&& result.code is None
            &&& match result.related_information {
                None => labels.len() == 0,
                Some(infos) => labels.len() > 0 && are_infos(code_map, file, f, labels, infos@),
            }
        },
        Err(error) => {
            &&& error.data is None
            &&& match primary_place(code_map, labels) {
                Some(Place::Nowhere(reason)) => error.message@ == reason,
                _ => exists|infos: Seq<DiagnosticRelatedInformation>|
                    infos.len() < labels.len() && #[trigger] are_infos(
                        code_map,
                        file,
                        f,
                        labels.take(infos.len() as int),
                        infos,
                    ) && is_failure(
                        code_map,
                        file,
                        f,
                        labels[infos.len() as int],
                        error.message@,
                    ),
            }
        },
    }
}

/// Whether the bytes of every label fit the positions of its file.
pub fn are_fitting_labels(code_map: &CodeMap, labels: &Vec<Label>) -> (fitting: bool)
    requires
        code_map.well_formed(),
    ensures
        fitting == labels_fit(*code_map, labels@),
{
    let mut i: usize = 0;
    while i < labels.len()
        invariant
            code_map.well_formed(),
            i <= labels@.len(),
            labels_fit(*code_map, labels@.take(i as int)),
        decreases labels@.len() - i,
    {
        let label: &Label = &labels[i];
        if let Some(file) = code_map.get(label.file_id) {
            let room: u64 = (u32::MAX - file.start) as u64;
            if label.start as u64 > room || label.end as u64 > room {
                assert(labels@[i as int] == *label);
                return false;
            }
        }
        assert forall|j: int| 0 <= j < i + 1 implies (code_map.file_index(
            (#[trigger] labels@.take(i + 1)[j]).file_id as int,
        ) matches Some(file) ==> {
            &&& code_map.files@[file].start + labels@.take(i + 1)[j].start <= u32::MAX
            &&& code_map.files@[file].start + labels@.take(i + 1)[j].end <= u32::MAX
        }) by {
            if j < i {
                assert(labels@.take(i + 1)[j] == labels@.take(i as int)[j]);
            }
        }
        i += 1;
    }
    assert(labels@.take(labels@.len() as int) =~= labels@);
    true
}

fn find_file(code_map: &CodeMap, file_id: u32) -> (file: Result<&FileMap, ServerError<()>>)
    requires
        code_map.well_formed(),
    ensures
        match code_map.file_index(file_id as int) {
            Some(i) => file matches Ok(file) && *file == code_map.files@[i] && 0 <= i
                < code_map.files@.len(),
            None => file matches Err(error) && error.message@ == outside_message(file_id)
                && error.data is None,
        },
{
    match code_map.get(file_id) {
        Some(file) => Ok(file),
        None => {
            let mut message = "Span is outside codemap ".to_owned();
            message.append(decimal_string(file_id as u64).as_str());
            Err(ServerError::from(message))
        },
    }
}

fn find_place<'a>(code_map: &'a CodeMap, label: &Label) -> (found: Result<
    (&'a FileMap, Range),
    ServerError<()>,
>)
    requires
        code_map.well_formed(),
        code_map.file_index(label.file_id as int) matches Some(file) ==> {
            &&& code_map.files@[file].start + label.start <= u32::MAX
            &&& code_map.files@[file].start + label.end <= u32::MAX
        },
    ensures
        match own_place(*code_map, *label) {
            Place::At { file, range } => {
                &&& 0 <= file < code_map.files@.len()
                &&& found matches Ok((found_file, found_range))
                &&& *found_file == code_map.files@[file]
                &&& found_range == range
            },
            Place::Nowhere(reason) => found matches Err(error) && error.message@ == reason
                && error.data is None,
        },
{
    let file = match find_file(code_map, label.file_id) {
        Ok(file) => file,
        Err(error) => {
            return Err(error);
        },
    };
    assert(file.well_formed());
    let span = Span::new(file.start + label.start as u32, file.start + label.end as u32);
    match byte_span_to_range(file, span) {
        Ok(range) => Ok((file, range)),
        Err(error) => Err(error),
    }
}

/// Translates a message of the compiler into one for an editor.
///
/// Since editors know documents by their urls, `codespan_name_to_file` is needed to find the url of
/// a source file by its name.
///
/// `code` and `source` are left empty by this function.
pub fn make_lsp_diagnostic<F: Fn(&str) -> Result<String, ()>>(
    code_map: &CodeMap,
    diagnostic: CodeDiagnostic,
    codespan_name_to_file: F,
) -> (result: Result<Diagnostic, ServerError<()>>)
    requires
        code_map.well_formed(),
        labels_fit(*code_map, diagnostic.labels@),
        forall|name: &str| call_requires(codespan_name_to_file, (name,)),
    ensures
        is_translation(*code_map, diagnostic, codespan_name_to_file, result),
        result matches Ok(result) ==> result.source is None,
{
    translate(code_map, &diagnostic, &codespan_name_to_file)
}

/// Translates a message of the compiler into one for an editor, without a source.
pub(crate) fn translate<F: Fn(&str) -> Result<String, ()>>(
    code_map: &CodeMap,
    diagnostic: &CodeDiagnostic,
    codespan_name_to_file: &F,
) -> (result: Result<Diagnostic, ServerError<()>>)
    requires
        code_map.well_formed(),
        labels_fit(*code_map, diagnostic.labels@),
        forall|name: &str| call_requires(*codespan_name_to_file, (name,)),
    ensures
        is_translation(*code_map, *diagnostic, *codespan_name_to_file, result),
        result matches Ok(result) ==> result.source is None,
{
    let ghost labels = diagnostic.labels@;
    let ghost file = primary_file(*code_map, labels);
    let (primary_file_map, primary_range): (Option<&FileMap>, Range) = match primary_label(
        &diagnostic.labels,
    ) {
        Some(label) => match find_place(code_map, label) {
            Ok((file_map, range)) => (Some(file_map), range),
            Err(error) => {
                return Err(error);
            },
        },
        None => (None, no_range()),
    };
    let mut infos: Vec<DiagnosticRelatedInformation> = Vec::new();
    let mut i: usize = 0;
    while i < diagnostic.labels.len()
        invariant
            code_map.well_formed(),
            labels == diagnostic.labels@,
            labels_fit(*code_map, labels),
            forall|name: &str| call_requires(*codespan_name_to_file, (name,)),
            file == primary_file(*code_map, labels),
            !leads_nowhere(primary_place(*code_map, labels)),
            match file {
                Some(file) => 0 <= file < code_map.files@.len() && primary_file_map == Some(
                    &code_map.files@[file],
                ),
                None => primary_file_map is None,
            },
            i <= labels.len(),
            infos@.len() == i,
            forall|j: int|
                0 <= j < i ==> is_info(
                    *code_map,
                    file,
                    *codespan_name_to_file,
                    labels[j],
                    #[trigger] infos@[j],
                ),
        decreases labels.len() - i,
    {
        let label: &Label = &diagnostic.labels[i];
        assert(are_infos(
            *code_map,
            file,
            *codespan_name_to_file,
            labels.take(infos@.len() as int),
            infos@,
        ));
        let (file_map, range): (&FileMap, Range) = match primary_file_map {
            Some(file_map) if label.file_id == 0 => (file_map, no_range()),
            _ => match find_place(code_map, label) {
                Ok(found) => found,
                Err(error) => {
                    assert(is_failure(
                        *code_map,
                        file,
                        *codespan_name_to_file,
                        labels[infos@.len() as int],
                        error.message@,
                    ));
                    return Err(error);
                },
            },
        };
        let name = file_map.name.as_str();
        let answer = codespan_name_to_file(name);
        assert(answers(*codespan_name_to_file, file_map.name@, answer));
        match answer {
            Ok(uri) => {
                infos.push(
                    DiagnosticRelatedInformation {
                        location: Location { uri, range },
                        message: label.message.clone(),
                    },
                );
            },
            Err(reason) => {
                assert(reason == ());
                let mut message = "Unable to correlate filename: ".to_owned();
                message.append(name);
                assert(is_failure(
                    *code_map,
                    file,
                    *codespan_name_to_file,
                    labels[infos@.len() as int],
                    message@,
                ));
                return Err(ServerError::from(message));
            },
        }
        i += 1;
    }
    Ok(
        Diagnostic {
            range: primary_range,
            severity: Some(make_lsp_severity(diagnostic.severity)),
            code: None,
            source: None,
            message: diagnostic.message.clone(),
            related_information: if infos.len() == 0 {
                None
            } else {
                Some(infos)
            },
        },
    )
}

fn primary_label(labels: &Vec<Label>) -> (label: Option<&Label>)
    ensures
        match label {
            Some(label) => first_primary(labels@) < labels@.len() && 0 <= first_primary(labels@)
                && *label == labels@[first_primary(labels@)],
            None => first_primary(labels@) == labels@.len(),
        },
{
    let mut i: usize = 0;
    assert(labels@.skip(0) =~= labels@);
    while i < labels.len()
        invariant
            i <= labels@.len(),
            first_primary(labels@) == i + first_primary(labels@.skip(i as int)),
        decreases labels@.len() - i,
    {
        let ghost rest = labels@.skip(i as int);
        assert(rest[0] == labels@[i as int]);
        assert(rest.drop_first() =~= labels@.skip(i + 1));
        if labels[i].style == LabelStyle::Primary {
            return Some(&labels[i]);
        }
        i += 1;
    }
    None
}

} // verus!
