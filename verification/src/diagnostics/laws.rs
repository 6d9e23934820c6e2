//! What an editor is told of a program: everything that the compiler has to say, and where.

use vstd::prelude::*;

use crate::diagnostics::report::{
    are_messages, are_reports, create_diagnostics, ends_if_stopped, error_fits, failure_of,
    is_fitting_error, is_message, is_plain_message, is_report, messages, messages_for, CompileError,
    Messages,
};
use crate::diagnostics::worker::{are_published, run_diagnostics, PublishDiagnosticsParams};
use crate::diagnostics::{
    are_fitting_labels, are_infos, first_primary, is_failure, is_info, is_translation, labels_fit,
    make_lsp_diagnostic, make_lsp_severity, own_place, primary_file, CodeDiagnostic, Diagnostic,
    DiagnosticSeverity, Label, LabelStyle, Place, Severity,
};
use crate::order::{law_text_order_is_total, text_before};
use crate::position::offset_position;
use crate::protocol::{Position, Range};
use crate::rpc::ServerError;
use crate::source::CodeMap;
use crate::text::decimal_string;
use crate::text_edit::Version;
use crate::text_map::TextMap;

verus! {

/// Law: errors and bugs are errors, warnings are warnings, notes are information and help is a hint.
pub proof fn law_severities(severity: Severity, result: DiagnosticSeverity)
    requires
        call_ensures(make_lsp_severity, (severity,), result),
    ensures
        result is Error <==> severity is Error || severity is Bug,
        result is Warning <==> severity is Warning,
        result is Information <==> severity is Note,
        result is Hint <==> severity is Help,
{
}

/// Whether `range` is what the bytes of a label cover in the file at place `i`.
pub open spec fn covers(code_map: CodeMap, label: Label, i: int, range: Range) -> bool {
    let text = code_map.files@[i].source@;
    let (first, last) = if label.start <= label.end {
        (label.start, label.end)
    } else {
        (label.end, label.start)
    };
    &&& offset_position(text, first as nat) == Some(range.start)
    &&& offset_position(text, last as nat) == Some(range.end)
}

/// Whether the file at place `i` is the one that a label is in.
pub open spec fn is_in(code_map: CodeMap, label: Label, i: int) -> bool {
    &&& 0 <= i < code_map.files@.len()
    &&& code_map.files@[i].start <= label.file_id <= code_map.files@[i].start
        + crate::text::utf8_len(code_map.files@[i].source@)
}

/// Whether the label at place `p` is the first primary one.
pub open spec fn is_first_primary(labels: Seq<Label>, p: int) -> bool {
    &&& 0 <= p < labels.len()
    &&& labels[p].style == LabelStyle::Primary
    &&& forall|k: int| 0 <= k < p ==> (#[trigger] labels[k]).style != LabelStyle::Primary
}

pub open spec fn has_no_primary(labels: Seq<Label>) -> bool {
    forall|k: int| 0 <= k < labels.len() ==> (#[trigger] labels[k]).style != LabelStyle::Primary
}

/// Whether a label leads to a place: it is in a file, and its bytes stand between characters.
pub open spec fn leads_somewhere(code_map: CodeMap, label: Label) -> bool {
    exists|i: int, range: Range| is_in(code_map, label, i) && #[trigger] covers(
        code_map,
        label,
        i,
        range,
    )
}

proof fn lemma_first_primary(labels: Seq<Label>)
    ensures
        0 <= first_primary(labels) <= labels.len(),
        first_primary(labels) < labels.len() ==> is_first_primary(labels, first_primary(labels)),
        first_primary(labels) == labels.len() ==> has_no_primary(labels),
    decreases labels.len(),
{
    if labels.len() > 0 && labels[0].style != LabelStyle::Primary {
        let rest = labels.drop_first();
        lemma_first_primary(rest);
        assert forall|k: int| 0 <= k < first_primary(labels) implies (#[trigger] labels[k]).style
            != LabelStyle::Primary by {
            if k > 0 {
                assert(labels[k] == rest[k - 1]);
            }
        }
    }
}

proof fn lemma_first_primary_is(labels: Seq<Label>, p: int)
    requires
        is_first_primary(labels, p),
    ensures
        first_primary(labels) == p,
{
    lemma_first_primary(labels);
    let found = first_primary(labels);
    if found < p {
        assert(labels[found].style != LabelStyle::Primary);
    } else if p < found {
        assert(labels[p].style != LabelStyle::Primary);
    }
}

proof fn lemma_own_place(code_map: CodeMap, label: Label, i: int)
    requires
        code_map.well_formed(),
        is_in(code_map, label, i),
    ensures
        own_place(code_map, label) matches Place::At { file, range } ==> file == i && covers(
            code_map,
            label,
            i,
            range,
        ),
        forall|range: Range| #[trigger]
            covers(code_map, label, i, range) ==> own_place(code_map, label) == (Place::At {
                file: i,
                range,
            }),
{
    code_map.law_position_belongs_to_one_file(label.file_id as int, i, i);
}

/// Law: what the compiler says is passed on word for word, with the severity that it has, and every
/// label of it with its own words, in their order. Where the compiler points is told in the labels'
/// files, and the whole message stands where its first primary label points.
pub proof fn law_messages_are_passed_on<F: Fn(&str) -> Result<String, ()>>(
    code_map: &CodeMap,
    diagnostic: CodeDiagnostic,
    f: F,
    message: Diagnostic,
    severity: DiagnosticSeverity,
)
    requires
        call_ensures(
            make_lsp_diagnostic::<F>,
            (code_map, diagnostic, f),
            Ok::<Diagnostic, ServerError<()>>(message),
        ),
        call_ensures(make_lsp_severity, (diagnostic.severity,), severity),
    ensures
        message.message == diagnostic.message,
        message.severity == Some(severity),
        message.code is None,
        message.source is None,
        message.related_information is None <==> diagnostic.labels@.len() == 0,
        message.related_information matches Some(infos) ==> {
            &&& infos@.len() == diagnostic.labels@.len()
            &&& forall|k: int|
                0 <= k < infos@.len() ==> (#[trigger] infos@[k]).message
                    == diagnostic.labels@[k].message
        },
        has_no_primary(diagnostic.labels@) ==> {
            &&& message.range.start == (Position { line: 0, character: 0 })
            &&& message.range.end == (Position { line: 0, character: 0 })
        },
{
    let labels = diagnostic.labels@;
    lemma_first_primary(labels);
    if let Some(infos) = message.related_information {
        let file = primary_file(*code_map, labels);
        assert forall|k: int| 0 <= k < infos@.len() implies (#[trigger] infos@[k]).message
            == labels[k].message by {
            assert(is_info(*code_map, file, f, labels[k], infos@[k]));
        }
    }
}

/// Law: a message stands where its first primary label points.
pub proof fn law_messages_stand_at_the_first_primary_label<F: Fn(&str) -> Result<String, ()>>(
    code_map: &CodeMap,
    diagnostic: CodeDiagnostic,
    f: F,
    message: Diagnostic,
    p: int,
    i: int,
)
    requires
        code_map.well_formed(),
        call_ensures(
            make_lsp_diagnostic::<F>,
            (code_map, diagnostic, f),
            Ok::<Diagnostic, ServerError<()>>(message),
        ),
        is_first_primary(diagnostic.labels@, p),
        is_in(*code_map, diagnostic.labels@[p], i),
    ensures
        covers(*code_map, diagnostic.labels@[p], i, message.range),
{
    let labels = diagnostic.labels@;
    lemma_first_primary_is(labels, p);
    lemma_own_place(*code_map, labels[p], i);
}

/// Law: each label is told at the place where it points, in the document that its file is known as.
/// A label without a file stands at the begin of the file of the first primary label.
pub proof fn law_labels_are_told_where_they_point<F: Fn(&str) -> Result<String, ()>>(
    code_map: &CodeMap,
    diagnostic: CodeDiagnostic,
    f: F,
    message: Diagnostic,
    k: int,
    i: int,
)
    requires
        code_map.well_formed(),
        call_ensures(
            make_lsp_diagnostic::<F>,
            (code_map, diagnostic, f),
            Ok::<Diagnostic, ServerError<()>>(message),
        ),
        0 <= k < diagnostic.labels@.len(),
        diagnostic.labels@[k].file_id != 0 ==> is_in(*code_map, diagnostic.labels@[k], i),
        diagnostic.labels@[k].file_id == 0 ==> exists|p: int|
            #[trigger] is_first_primary(diagnostic.labels@, p) && is_in(
                *code_map,
                diagnostic.labels@[p],
                i,
            ),
    ensures
        message.related_information is Some,
        ({
            let location = message.related_information.unwrap()@[k].location;
            &&& exists|asked: &str|
                asked@ == code_map.files@[i].name@ && #[trigger] call_ensures(
                    f,
                    (asked,),
                    Ok(location.uri),
                )
            &&& diagnostic.labels@[k].file_id != 0 ==> covers(
                *code_map,
                diagnostic.labels@[k],
                i,
                location.range,
            )
            &&& diagnostic.labels@[k].file_id == 0 ==> location.range == (Range {
                start: Position { line: 0, character: 0 },
                end: Position { line: 0, character: 0 },
            })
        }),
{
    let labels = diagnostic.labels@;
    let file = primary_file(*code_map, labels);
    let infos = message.related_information.unwrap()@;
    assert(is_info(*code_map, file, f, labels[k], infos[k]));
    if labels[k].file_id != 0 {
        lemma_own_place(*code_map, labels[k], i);
    } else {
        let p = choose|p: int| #[trigger]
            is_first_primary(labels, p) && is_in(*code_map, labels[p], i);
        lemma_first_primary_is(labels, p);
        lemma_own_place(*code_map, labels[p], i);
    }
}

/// Law: a message can be passed on if every file has a url and every label leads somewhere, be it
/// to the file of the first primary label.
pub proof fn law_messages_can_be_passed_on<F: Fn(&str) -> Result<String, ()>>(
    code_map: &CodeMap,
    diagnostic: CodeDiagnostic,
    f: F,
    result: Result<Diagnostic, ServerError<()>>,
)
    requires
        code_map.well_formed(),
        call_ensures(make_lsp_diagnostic::<F>, (code_map, diagnostic, f), result),
        forall|asked: &str, url: Result<String, ()>| #[trigger]
            call_ensures(f, (asked,), url) ==> url is Ok,
        forall|k: int|
            0 <= k < diagnostic.labels@.len() ==> leads_somewhere(
                *code_map,
                #[trigger] diagnostic.labels@[k],
            ) || diagnostic.labels@[k].file_id == 0 && diagnostic.labels@[k].style
                != LabelStyle::Primary && !has_no_primary(diagnostic.labels@),
    ensures
        result is Ok,
{
    lemma_translation_succeeds(*code_map, diagnostic, f, result);
}

proof fn lemma_leads_somewhere(code_map: CodeMap, label: Label)
    requires
        code_map.well_formed(),
        leads_somewhere(code_map, label),
    ensures
        own_place(code_map, label) is At,
{
    let (i, range) = choose|i: int, range: Range|
        is_in(code_map, label, i) && #[trigger] covers(code_map, label, i, range);
    lemma_own_place(code_map, label, i);
}

proof fn lemma_translation_succeeds<F: Fn(&str) -> Result<String, ()>>(
    code_map: CodeMap,
    diagnostic: CodeDiagnostic,
    f: F,
    result: Result<Diagnostic, ServerError<()>>,
)
    requires
        code_map.well_formed(),
        is_translation(code_map, diagnostic, f, result),
        forall|asked: &str, url: Result<String, ()>| #[trigger]
            call_ensures(f, (asked,), url) ==> url is Ok,
        forall|k: int|
            0 <= k < diagnostic.labels@.len() ==> leads_somewhere(
                code_map,
                #[trigger] diagnostic.labels@[k],
            ) || diagnostic.labels@[k].file_id == 0 && diagnostic.labels@[k].style
                != LabelStyle::Primary && !has_no_primary(diagnostic.labels@),
    ensures
        result is Ok,
{
    let labels = diagnostic.labels@;
    lemma_first_primary(labels);
    let p = first_primary(labels);
    if p < labels.len() {
        lemma_leads_somewhere(code_map, labels[p]);
    }
    if let Err(error) = result {
        let file = primary_file(code_map, labels);
        let infos = choose|infos: Seq<crate::diagnostics::DiagnosticRelatedInformation>|
            infos.len() < labels.len() && #[trigger] are_infos(
                code_map,
                file,
                f,
                labels.take(infos.len() as int),
                infos,
            ) && is_failure(code_map, file, f, labels[infos.len() as int], error.message@);
        let label = labels[infos.len() as int];
        if leads_somewhere(code_map, label) {
            lemma_leads_somewhere(code_map, label);
        }
        assert(false);
    }
}

/// Something that a message says: an error of the compiler, among the files that it refers to, or a
/// reason that belongs to no place.
pub enum Reason {
    Error { source: CodeMap, error: CodeDiagnostic },
    Plain(Seq<char>),
}

/// What there is to say of the document `uri`, in its order. What belongs to no place is said of
/// the document `filename`.
pub open spec fn reasons(error: CompileError, filename: Seq<char>, uri: Seq<char>) -> Seq<Reason>
    decreases error,
{
    match error {
        CompileError::InFile { uri: file, source, errors } => if file@ == uri {
            Seq::new(errors@.len(), |i: int| Reason::Error { source, error: errors@[i] })
        } else {
            Seq::empty()
        },
        CompileError::Multiple(errors) => all_reasons(errors@, filename, uri),
        CompileError::Other(reason) => if filename == uri {
            seq![Reason::Plain(reason@)]
        } else {
            Seq::empty()
        },
    }
}

pub open spec fn all_reasons(
    errors: Seq<CompileError>,
    filename: Seq<char>,
    uri: Seq<char>,
) -> Seq<Reason>
    decreases errors,
{
    if errors.len() == 0 {
        Seq::empty()
    } else {
        reasons(errors[0], filename, uri) + all_reasons(errors.drop_first(), filename, uri)
    }
}

/// Whether a message says something, in the name of the compiler: the words and the severity of an
/// error, where it belongs; or another reason, as an error at the begin of the document.
pub open spec fn says<F: Fn(&str) -> Result<String, ()>>(
    message: Diagnostic,
    reason: Reason,
    f: F,
) -> bool {
    &&& message.source is Some && message.source.unwrap()@ == "gluon"@
    &&& message.code is None
    &&& match reason {
        Reason::Error { source, error } => {
            &&& is_translation(source, error, f, Ok(message))
            &&& message.message == error.message
            &&& message.severity == Some(
                match error.severity {
                    Severity::Bug | Severity::Error => DiagnosticSeverity::Error,
                    Severity::Warning => DiagnosticSeverity::Warning,
                    Severity::Note => DiagnosticSeverity::Information,
                    Severity::Help => DiagnosticSeverity::Hint,
                },
            )
            &&& forall|p: int, i: int|
                source.well_formed() && #[trigger] is_first_primary(error.labels@, p)
                    && #[trigger] is_in(source, error.labels@[p], i) ==> covers(
                    source,
                    error.labels@[p],
                    i,
                    message.range,
                )
        },
        Reason::Plain(words) => {
            &&& message.message@ == words
            &&& message.severity == Some(DiagnosticSeverity::Error)
            &&& message.range.start == (Position { line: 0, character: 0 })
            &&& message.range.end == (Position { line: 0, character: 0 })
            &&& message.related_information is None
        },
    }
}

/// The messages for a document.
pub open spec fn listed(map: Map<Seq<char>, Vec<Diagnostic>>, uri: Seq<char>) -> Seq<Diagnostic> {
    if map.dom().contains(uri) {
        map[uri]@
    } else {
        Seq::empty()
    }
}

/// Whether something is wrong with the document `uri`, or could be.
pub open spec fn mentions(error: CompileError, filename: Seq<char>, uri: Seq<char>) -> bool
    decreases error,
{
    match error {
        CompileError::InFile { uri: file, .. } => file@ == uri,
        CompileError::Multiple(errors) => any_mentions(errors@, filename, uri),
        CompileError::Other(_) => filename == uri,
    }
}

pub open spec fn any_mentions(
    errors: Seq<CompileError>,
    filename: Seq<char>,
    uri: Seq<char>,
) -> bool
    decreases errors,
{
    errors.len() > 0 && (mentions(errors[0], filename, uri) || any_mentions(
        errors.drop_first(),
        filename,
        uri,
    ))
}

/// Whether one message has been added for each of several reasons, behind those that were there.
pub open spec fn are_told<F: Fn(&str) -> Result<String, ()>>(
    before: Seq<Diagnostic>,
    after: Seq<Diagnostic>,
    reasons: Seq<Reason>,
    f: F,
) -> bool {
    &&& after.len() == before.len() + reasons.len()
    &&& forall|i: int| 0 <= i < before.len() ==> #[trigger] after[i] == before[i]
    &&& forall|i: int|
        0 <= i < reasons.len() ==> says(after[before.len() + i], #[trigger] reasons[i], f)
}

proof fn lemma_told_in_parts<F: Fn(&str) -> Result<String, ()>>(
    before: Seq<Diagnostic>,
    between: Seq<Diagnostic>,
    after: Seq<Diagnostic>,
    first: Seq<Reason>,
    second: Seq<Reason>,
    f: F,
)
    requires
        are_told(before, between, first, f),
        are_told(between, after, second, f),
    ensures
        are_told(before, after, first + second, f),
{
    let all = first + second;
    assert forall|i: int| 0 <= i < before.len() implies #[trigger] after[i] == before[i] by {
        assert(after[i] == between[i]);
    }
    assert forall|i: int| 0 <= i < all.len() implies says(
        after[before.len() + i],
        #[trigger] all[i],
        f,
    ) by {
        if i < first.len() {
            assert(all[i] == first[i]);
            assert(after[before.len() + i] == between[before.len() + i]);
        } else {
            assert(all[i] == second[i - first.len()]);
            assert(before.len() + i == between.len() + (i - first.len()));
        }
    }
}

proof fn lemma_message_says<F: Fn(&str) -> Result<String, ()>>(
    source: CodeMap,
    error: CodeDiagnostic,
    f: F,
    message: Diagnostic,
)
    requires
        is_message(source, error, f, Ok(message)),
    ensures
        says(message, Reason::Error { source, error }, f),
{
    assert forall|p: int, i: int|
        source.well_formed() && #[trigger] is_first_primary(error.labels@, p) && #[trigger] is_in(
            source,
            error.labels@[p],
            i,
        ) implies covers(source, error.labels@[p], i, message.range) by {
        lemma_first_primary_is(error.labels@, p);
        lemma_own_place(source, error.labels@[p], i);
    }
}

proof fn lemma_report<F: Fn(&str) -> Result<String, ()>>(
    before: Messages,
    filename: Seq<char>,
    error: CompileError,
    f: F,
    after: Messages,
    uri: Seq<char>,
)
    requires
        is_report(before, filename, error, f, after, None),
    ensures
        are_told(
            messages_for(before, uri),
            messages_for(after, uri),
            reasons(error, filename, uri),
            f,
        ),
        after.dom().contains(uri) <==> before.dom().contains(uri) || mentions(error, filename, uri),
    decreases error,
{
    match error {
        CompileError::InFile { uri: file, source, errors } => {
            let added = choose|added: Seq<Diagnostic>| #[trigger]
                are_messages(source, errors@, f, added, None) && after == before.insert(
                    file@,
                    messages_for(before, file@) + added,
                );
            if file@ == uri {
                assert forall|i: int| 0 <= i < errors@.len() implies says(
                    messages_for(after, uri)[messages_for(before, uri).len() + i],
                    #[trigger] reasons(error, filename, uri)[i],
                    f,
                ) by {
                    assert(is_message(source, errors@[i], f, Ok(added[i])));
                    lemma_message_says(source, errors@[i], f, added[i]);
                }
            }
        },
        CompileError::Multiple(errors) => {
            lemma_reports(before, filename, errors@, f, after, uri);
        },
        CompileError::Other(reason) => {
            let message = choose|message: Diagnostic| #[trigger]
                is_plain_message(message, reason@) && after == before.insert(
                    filename,
                    messages_for(before, filename).push(message),
                );
        },
    }
}

proof fn lemma_reports<F: Fn(&str) -> Result<String, ()>>(
    before: Messages,
    filename: Seq<char>,
    errors: Seq<CompileError>,
    f: F,
    after: Messages,
    uri: Seq<char>,
)
    requires
        are_reports(before, filename, errors, f, after, None),
    ensures
        are_told(
            messages_for(before, uri),
            messages_for(after, uri),
            all_reasons(errors, filename, uri),
            f,
        ),
        after.dom().contains(uri) <==> before.dom().contains(uri) || any_mentions(
            errors,
            filename,
            uri,
        ),
    decreases errors,
{
    if errors.len() > 0 {
        let (between, stopped) = choose|between: Messages, stopped: Option<Seq<char>>| #[trigger]
            ends_if_stopped(between, stopped, after, None) && is_report(
                before,
                filename,
                errors[0],
                f,
                between,
                stopped,
            ) && (stopped is None ==> are_reports(
                between,
                filename,
                errors.drop_first(),
                f,
                after,
                None,
            ));
        lemma_report(before, filename, errors[0], f, between, uri);
        lemma_reports(between, filename, errors.drop_first(), f, after, uri);
        lemma_told_in_parts(
            messages_for(before, uri),
            messages_for(between, uri),
            messages_for(after, uri),
            reasons(errors[0], filename, uri),
            all_reasons(errors.drop_first(), filename, uri),
            f,
        );
    }
}

/// Law: when a report succeeds, each document has one more message for each error of the compiler in
/// it, in their order: no error is left out, however many there are, and none is reported twice or
/// of another document. The messages that were there before stay.
pub proof fn law_every_error_is_reported<F: Fn(&str) -> Result<String, ()>>(
    diagnostics: &mut TextMap<Vec<Diagnostic>>,
    filename: &str,
    err: &CompileError,
    f: &F,
    uri: Seq<char>,
)
    requires
        call_ensures(
            create_diagnostics::<F>,
            (diagnostics, filename, err, f),
            Ok::<(), ServerError<()>>(()),
        ),
    ensures
        are_told(
            listed(old(diagnostics)@, uri),
            listed(final(diagnostics)@, uri),
            reasons(*err, filename@, uri),
            *f,
        ),
        final(diagnostics)@.dom().contains(uri) <==> old(diagnostics)@.dom().contains(uri)
            || mentions(*err, filename@, uri),
{
    lemma_report(
        messages(old(diagnostics)@),
        filename@,
        *err,
        *f,
        messages(final(diagnostics)@),
        uri,
    );
}

/// Law: the errors of one file are reported of its document, all of them and in their order.
pub proof fn law_errors_of_a_file_are_reported<F: Fn(&str) -> Result<String, ()>>(
    diagnostics: &mut TextMap<Vec<Diagnostic>>,
    filename: &str,
    uri: String,
    source: CodeMap,
    errors: Vec<CodeDiagnostic>,
    f: &F,
    i: int,
)
    requires
        call_ensures(
            create_diagnostics::<F>,
            (diagnostics, filename, &CompileError::InFile { uri, source, errors }, f),
            Ok::<(), ServerError<()>>(()),
        ),
        0 <= i < errors@.len(),
    ensures
        listed(final(diagnostics)@, uri@).len() == listed(old(diagnostics)@, uri@).len()
            + errors@.len(),
        ({
            let message = listed(final(diagnostics)@, uri@)[listed(
                old(diagnostics)@,
                uri@,
            ).len() + i];
            &&& message.message == errors@[i].message
            &&& is_translation(source, errors@[i], *f, Ok(message))
        }),
{
    let err = CompileError::InFile { uri, source, errors };
    law_every_error_is_reported(diagnostics, filename, &err, f, uri@);
    let all = reasons(err, filename@, uri@);
    assert(says(
        listed(final(diagnostics)@, uri@)[listed(old(diagnostics)@, uri@).len() + i],
        all[i],
        *f,
    ));
}

/// Law: what is published once a document has been checked is, for each document with errors, one
/// list of all of them in their order; for the document that is all right, an empty list. Each list
/// carries the version that was checked.
pub proof fn law_all_errors_are_published<F: Fn(&str) -> Result<String, ()>>(
    uri: &str,
    version: Option<Version>,
    error: CompileError,
    f: &F,
    published: Vec<PublishDiagnosticsParams>,
)
    requires
        call_ensures(
            run_diagnostics::<F>,
            (uri, version, Err::<(), CompileError>(error), f),
            Ok::<Vec<PublishDiagnosticsParams>, ServerError<()>>(published),
        ),
    ensures
        forall|i: int|
            0 <= i < published@.len() ==> {
                &&& mentions(error, uri@, (#[trigger] published@[i]).uri@)
                &&& are_told(
                    Seq::empty(),
                    published@[i].diagnostics@,
                    reasons(error, uri@, published@[i].uri@),
                    *f,
                )
                &&& published@[i].version == version
            },
        forall|document: Seq<char>| #[trigger]
            mentions(error, uri@, document) ==> exists|i: int|
                0 <= i < published@.len() && (#[trigger] published@[i]).uri@ == document,
        forall|i: int, j: int|
            0 <= i < j < published@.len() ==> (#[trigger] published@[i]).uri@ != (
            #[trigger] published@[j]).uri@,
{
    let none = Map::<Seq<char>, Seq<Diagnostic>>::empty();
    let all = choose|all: Messages| #[trigger]
        is_report(none, uri@, error, *f, all, None) && are_published(all, version, published@);
    assert forall|i: int| 0 <= i < published@.len() implies {
        &&& mentions(error, uri@, (#[trigger] published@[i]).uri@)
        &&& are_told(
            Seq::empty(),
            published@[i].diagnostics@,
            reasons(error, uri@, published@[i].uri@),
            *f,
        )
        &&& published@[i].version == version
    } by {
        lemma_report(none, uri@, error, *f, all, published@[i].uri@);
    }
    assert forall|document: Seq<char>| #[trigger] mentions(error, uri@, document) implies exists|
        i: int,
    |
        0 <= i < published@.len() && (#[trigger] published@[i]).uri@ == document by {
        lemma_report(none, uri@, error, *f, all, document);
    }
    assert forall|i: int, j: int| 0 <= i < j < published@.len() implies (
    #[trigger] published@[i]).uri@ != (#[trigger] published@[j]).uri@ by {
        assert(text_before(published@[i].uri@, published@[j].uri@));
        law_text_order_is_total(published@[i].uri@, published@[i].uri@);
    }
}

/// Law: where nothing is wrong with a document, what was said of it before is taken back.
pub proof fn law_success_takes_back_errors<F: Fn(&str) -> Result<String, ()>>(
    uri: &str,
    version: Option<Version>,
    f: &F,
    published: Result<Vec<PublishDiagnosticsParams>, ServerError<()>>,
)
    requires
        call_ensures(
            run_diagnostics::<F>,
            (uri, version, Ok::<(), CompileError>(()), f),
            published,
        ),
    ensures
        published is Ok,
        published->Ok_0@.len() == 1,
        published->Ok_0@[0].uri@ == uri@,
        published->Ok_0@[0].diagnostics@.len() == 0,
        published->Ok_0@[0].version == version,
{
}

/// Whether all labels of an error lead somewhere.
pub open spec fn can_be_told(source: CodeMap, error: CodeDiagnostic) -> bool {
    &&& source.well_formed()
    &&& forall|k: int|
        0 <= k < error.labels@.len() ==> leads_somewhere(source, #[trigger] error.labels@[k])
            || error.labels@[k].file_id == 0 && error.labels@[k].style != LabelStyle::Primary
            && !has_no_primary(error.labels@)
}

/// Whether all labels of all errors lead somewhere.
pub open spec fn all_can_be_told(error: CompileError) -> bool
    decreases error,
{
    match error {
        CompileError::InFile { source, errors, .. } => forall|i: int|
            0 <= i < errors@.len() ==> can_be_told(source, #[trigger] errors@[i]),
        CompileError::Multiple(errors) => forall|i: int|
            0 <= i < errors@.len() ==> all_can_be_told(#[trigger] errors@[i]),
        CompileError::Other(_) => true,
    }
}

proof fn lemma_report_succeeds<F: Fn(&str) -> Result<String, ()>>(
    before: Messages,
    filename: Seq<char>,
    error: CompileError,
    f: F,
    after: Messages,
    failure: Option<Seq<char>>,
)
    requires
        is_report(before, filename, error, f, after, failure),
        all_can_be_told(error),
        forall|asked: &str, url: Result<String, ()>| #[trigger]
            call_ensures(f, (asked,), url) ==> url is Ok,
    ensures
        failure is None,
    decreases error,
{
    match error {
        CompileError::InFile { source, errors, .. } => {
            let added = choose|added: Seq<Diagnostic>| #[trigger]
                are_messages(source, errors@, f, added, failure);
            if let Some(reason) = failure {
                let last = errors@[added.len() as int];
                let err = choose|err: ServerError<()>|
                    err.message@ == reason && #[trigger] is_message(source, last, f, Err(err));
                assert(can_be_told(source, last));
                lemma_translation_succeeds(source, last, f, Err(err));
            }
        },
        CompileError::Multiple(errors) => {
            lemma_reports_succeed(before, filename, errors@, f, after, failure);
        },
        CompileError::Other(_) => {},
    }
}

proof fn lemma_reports_succeed<F: Fn(&str) -> Result<String, ()>>(
    before: Messages,
    filename: Seq<char>,
    errors: Seq<CompileError>,
    f: F,
    after: Messages,
    failure: Option<Seq<char>>,
)
    requires
        are_reports(before, filename, errors, f, after, failure),
        forall|i: int| 0 <= i < errors.len() ==> all_can_be_told(#[trigger] errors[i]),
        forall|asked: &str, url: Result<String, ()>| #[trigger]
            call_ensures(f, (asked,), url) ==> url is Ok,
    ensures
        failure is None,
    decreases errors,
{
    if errors.len() > 0 {
        let (between, stopped) = choose|between: Messages, stopped: Option<Seq<char>>| #[trigger]
            ends_if_stopped(between, stopped, after, failure) && is_report(
                before,
                filename,
                errors[0],
                f,
                between,
                stopped,
            ) && (stopped is None ==> are_reports(
                between,
                filename,
                errors.drop_first(),
                f,
                after,
                failure,
            ));
        lemma_report_succeeds(before, filename, errors[0], f, between, stopped);
        let rest = errors.drop_first();
        assert forall|i: int| 0 <= i < rest.len() implies all_can_be_told(#[trigger] rest[i]) by {
            assert(rest[i] == errors[i + 1]);
        }
        lemma_reports_succeed(between, filename, rest, f, after, failure);
    }
}

/// Law: if every file has a url and every label leads somewhere, errors are reported.
pub proof fn law_reports_succeed<F: Fn(&str) -> Result<String, ()>>(
    diagnostics: &mut TextMap<Vec<Diagnostic>>,
    filename: &str,
    err: &CompileError,
    f: &F,
    result: Result<(), ServerError<()>>,
    version: Option<Version>,
    published: Result<Vec<PublishDiagnosticsParams>, ServerError<()>>,
)
    requires
        call_ensures(create_diagnostics::<F>, (diagnostics, filename, err, f), result),
        call_ensures(
            run_diagnostics::<F>,
            (filename, version, Err::<(), CompileError>(*err), f),
            published,
        ),
        all_can_be_told(*err),
        forall|asked: &str, url: Result<String, ()>| #[trigger]
            call_ensures(*f, (asked,), url) ==> url is Ok,
    ensures
        result is Ok,
        published is Ok,
{
    lemma_report_succeeds(
        messages(old(diagnostics)@),
        filename@,
        *err,
        *f,
        messages(final(diagnostics)@),
        failure_of(result),
    );
    if let Err(error) = published {
        let none = Map::<Seq<char>, Seq<Diagnostic>>::empty();
        let all = choose|all: Messages| #[trigger]
            is_report(none, filename@, *err, *f, all, Some(error.message@));
        lemma_report_succeeds(none, filename@, *err, *f, all, Some(error.message@));
    }
}

/// Law: a message whose first primary label is in no file is told so, and one whose first label is
/// in a file without a url is told the name of that file.
pub proof fn law_failures_are_told<F: Fn(&str) -> Result<String, ()>>(
    code_map: &CodeMap,
    diagnostic: CodeDiagnostic,
    f: F,
    result: Result<Diagnostic, ServerError<()>>,
    p: int,
    number: String,
    i: int,
)
    requires
        code_map.well_formed(),
        call_ensures(make_lsp_diagnostic::<F>, (code_map, diagnostic, f), result),
        is_first_primary(diagnostic.labels@, p),
        call_ensures(decimal_string, (diagnostic.labels@[p].file_id as u64,), number),
    ensures
        (forall|j: int| !is_in(*code_map, diagnostic.labels@[p], j)) ==> result is Err
            && result->Err_0.message@ == "Span is outside codemap "@ + number@,
        p == 0 && is_in(*code_map, diagnostic.labels@[0], i) && leads_somewhere(
            *code_map,
            diagnostic.labels@[0],
        ) && diagnostic.labels@[0].file_id != 0 && (forall|asked: &str, url: Result<String, ()>|
            asked@ == code_map.files@[i].name@ && #[trigger] call_ensures(f, (asked,), url)
                ==> url is Err) ==> result is Err && result->Err_0.message@
            == "Unable to correlate filename: "@ + code_map.files@[i].name@,
{
    let labels = diagnostic.labels@;
    lemma_first_primary_is(labels, p);
    if forall|j: int| !is_in(*code_map, labels[p], j) {
        if exists|j: int|
            0 <= j < code_map.files@.len() && code_map.files@[j].holds(labels[p].file_id as int) {
            let j = choose|j: int|
                0 <= j < code_map.files@.len() && code_map.files@[j].holds(
                    labels[p].file_id as int,
                );
            assert(is_in(*code_map, labels[p], j));
        }
        assert(own_place(*code_map, labels[p]) is Nowhere);
    }
    if p == 0 && is_in(*code_map, labels[0], i) && leads_somewhere(*code_map, labels[0])
        && labels[0].file_id != 0 && (forall|asked: &str, url: Result<String, ()>|
        asked@ == code_map.files@[i].name@ && #[trigger] call_ensures(f, (asked,), url)
            ==> url is Err) {
        lemma_leads_somewhere(*code_map, labels[0]);
        lemma_own_place(*code_map, labels[0], i);
        let file = primary_file(*code_map, labels);
        if let Ok(message) = result {
            let infos = message.related_information.unwrap()@;
            assert(is_info(*code_map, file, f, labels[0], infos[0]));
        }
        if let Err(error) = result {
            let infos = choose|infos: Seq<crate::diagnostics::DiagnosticRelatedInformation>|
                infos.len() < labels.len() && #[trigger] are_infos(
                    *code_map,
                    file,
                    f,
                    labels.take(infos.len() as int),
                    infos,
                ) && is_failure(
                    *code_map,
                    file,
                    f,
                    labels[infos.len() as int],
                    error.message@,
                );
            if infos.len() > 0 {
                assert(is_info(
                    *code_map,
                    file,
                    f,
                    labels.take(infos.len() as int)[0],
                    infos[0],
                ));
            }
        }
    }
}

/// Law: labels fit if their bytes, counted from the first position of their file, fit 32 bits.
pub proof fn law_fitting_labels(
    code_map: &CodeMap,
    labels: &Vec<Label>,
    fitting: bool,
)
    requires
        code_map.well_formed(),
        call_ensures(are_fitting_labels, (code_map, labels), fitting),
    ensures
        fitting <==> forall|k: int, i: int|
            0 <= k < labels@.len() && #[trigger] is_in(*code_map, labels@[k], i) ==> {
                &&& code_map.files@[i].start + labels@[k].start <= u32::MAX
                &&& code_map.files@[i].start + labels@[k].end <= u32::MAX
            },
{
    if fitting {
        assert forall|k: int, i: int|
            0 <= k < labels@.len() && #[trigger] is_in(*code_map, labels@[k], i) implies {
            &&& code_map.files@[i].start + labels@[k].start <= u32::MAX
            &&& code_map.files@[i].start + labels@[k].end <= u32::MAX
        } by {
            code_map.law_position_belongs_to_one_file(labels@[k].file_id as int, i, i);
        }
    }
    if forall|k: int, i: int|
        0 <= k < labels@.len() && #[trigger] is_in(*code_map, labels@[k], i) ==> {
            &&& code_map.files@[i].start + labels@[k].start <= u32::MAX
            &&& code_map.files@[i].start + labels@[k].end <= u32::MAX
        } {
        assert forall|k: int| 0 <= k < labels@.len() implies (code_map.file_index(
            (#[trigger] labels@[k]).file_id as int,
        ) matches Some(file) ==> {
            &&& code_map.files@[file].start + labels@[k].start <= u32::MAX
            &&& code_map.files@[file].start + labels@[k].end <= u32::MAX
        }) by {
            if let Some(file) = code_map.file_index(labels@[k].file_id as int) {
                assert(is_in(*code_map, labels@[k], file));
            }
        }
    }
}

/// Law: an error fits if its files are in order and all of its labels fit. Several errors fit if
/// each of them does, and what belongs to no place always fits.
pub proof fn law_fitting_errors(
    uri: String,
    source: CodeMap,
    errors: Vec<CodeDiagnostic>,
    fitting: bool,
    in_order: bool,
    several: Vec<CompileError>,
    all_fitting: bool,
    reason: String,
    other: bool,
)
    requires
        call_ensures(is_fitting_error, (&CompileError::InFile { uri, source, errors },), fitting),
        call_ensures(CodeMap::is_well_formed, (&source,), in_order),
        call_ensures(is_fitting_error, (&CompileError::Multiple(several),), all_fitting),
        call_ensures(is_fitting_error, (&CompileError::Other(reason),), other),
    ensures
        fitting <==> in_order && forall|i: int|
            0 <= i < errors@.len() ==> labels_fit(source, (#[trigger] errors@[i]).labels@),
        all_fitting <==> forall|i: int|
            0 <= i < several@.len() ==> error_fits(#[trigger] several@[i]),
        other,
{
    reveal_with_fuel(error_fits, 2);
    assert(error_fits(CompileError::Multiple(several)) <==> forall|i: int|
        0 <= i < several@.len() ==> error_fits(#[trigger] several@[i]));
}

/// Law: what is published is in the order of the documents' urls.
pub proof fn law_publications_are_in_order<F: Fn(&str) -> Result<String, ()>>(
    uri: &str,
    version: Option<Version>,
    error: CompileError,
    f: &F,
    published: Vec<PublishDiagnosticsParams>,
)
    requires
        call_ensures(
            run_diagnostics::<F>,
            (uri, version, Err::<(), CompileError>(error), f),
            Ok::<Vec<PublishDiagnosticsParams>, ServerError<()>>(published),
        ),
    ensures
        forall|i: int, j: int|
            0 <= i < j < published@.len() ==> text_before(
                (#[trigger] published@[i]).uri@,
                (#[trigger] published@[j]).uri@,
            ),
{
}

/// Law: a message is passed on only if all of its labels lead somewhere, be it to the file of the
/// first primary label.
pub proof fn law_messages_without_place_are_not_passed_on<F: Fn(&str) -> Result<String, ()>>(
    code_map: &CodeMap,
    diagnostic: CodeDiagnostic,
    f: F,
    message: Diagnostic,
    k: int,
)
    requires
        code_map.well_formed(),
        call_ensures(
            make_lsp_diagnostic::<F>,
            (code_map, diagnostic, f),
            Ok::<Diagnostic, ServerError<()>>(message),
        ),
        0 <= k < diagnostic.labels@.len(),
    ensures
        leads_somewhere(*code_map, diagnostic.labels@[k]) || diagnostic.labels@[k].file_id == 0
            && !has_no_primary(diagnostic.labels@),
        is_first_primary(diagnostic.labels@, k) ==> leads_somewhere(
            *code_map,
            diagnostic.labels@[k],
        ),
{
    let labels = diagnostic.labels@;
    let file = primary_file(*code_map, labels);
    let infos = message.related_information.unwrap()@;
    lemma_first_primary(labels);
    assert(is_info(*code_map, file, f, labels[k], infos[k]));
    if is_first_primary(labels, k) {
        lemma_first_primary_is(labels, k);
    }
    if let Place::At { file: i, range } = own_place(*code_map, labels[k]) {
        let position = labels[k].file_id as int;
        assert(code_map.files@[i].holds(position) && 0 <= i < code_map.files@.len());
        assert(is_in(*code_map, labels[k], i));
        assert(covers(*code_map, labels[k], i, range));
    }
}

/// Law: a report of a file fails for the first of its errors that cannot be passed on, and says why;
/// those in front of it have been reported.
pub proof fn law_first_failure_is_told<F: Fn(&str) -> Result<String, ()>>(
    diagnostics: &mut TextMap<Vec<Diagnostic>>,
    filename: &str,
    uri: String,
    source: CodeMap,
    errors: Vec<CodeDiagnostic>,
    f: &F,
    failure: ServerError<()>,
)
    requires
        call_ensures(
            create_diagnostics::<F>,
            (diagnostics, filename, &CompileError::InFile { uri, source, errors }, f),
            Err::<(), ServerError<()>>(failure),
        ),
    ensures
        ({
            let before = listed(old(diagnostics)@, uri@);
            let after = listed(final(diagnostics)@, uri@);
            let i = after.len() - before.len();
            &&& 0 <= i < errors@.len()
            &&& forall|k: int| 0 <= k < before.len() ==> #[trigger] after[k] == before[k]
            &&& forall|k: int|
                0 <= k < i ==> says(
                    after[before.len() + k],
                    Reason::Error { source, error: #[trigger] errors@[k] },
                    *f,
                )
            &&& exists|error: ServerError<()>|
                error.message@ == failure.message@ && #[trigger] is_translation(
                    source,
                    errors@[i],
                    *f,
                    Err(error),
                )
        }),
{
    let before = messages(old(diagnostics)@);
    let after = messages(final(diagnostics)@);
    let added = choose|added: Seq<Diagnostic>| #[trigger]
        are_messages(source, errors@, *f, added, Some(failure.message@)) && after == before.insert(
            uri@,
            messages_for(before, uri@) + added,
        );
    assert(listed(final(diagnostics)@, uri@) == messages_for(after, uri@)) by {
        assert(after.dom().contains(uri@));
    }
    assert forall|k: int| 0 <= k < added.len() implies says(
        messages_for(after, uri@)[messages_for(before, uri@).len() + k],
        Reason::Error { source, error: #[trigger] errors@[k] },
        *f,
    ) by {
        assert(is_message(source, errors@[k], *f, Ok(added[k])));
        lemma_message_says(source, errors@[k], *f, added[k]);
    }
    let error = choose|error: ServerError<()>|
        error.message@ == failure.message@ && #[trigger] is_message(
            source,
            errors@[added.len() as int],
            *f,
            Err(error),
        );
    assert(is_translation(source, errors@[added.len() as int], *f, Err(error)));
}

} // verus!
