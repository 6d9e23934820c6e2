//! The messages of a failed compilation, sorted by the documents that they belong to.

use vstd::prelude::*;

use crate::diagnostics::{
    are_fitting_labels, is_translation, labels_fit, translate, CodeDiagnostic, Diagnostic,
    DiagnosticSeverity,
};
use crate::protocol::{no_range, zero_range};
use crate::rpc::ServerError;
use crate::source::CodeMap;
use crate::text_map::TextMap;

verus! {

/// Why a program could not be compiled.
pub enum CompileError {
    /// Errors in one source file: the url of its document, the files that the errors refer to, and
    /// the errors.
    InFile { uri: String, source: CodeMap, errors: Vec<CodeDiagnostic> },
    /// Several reasons.
    Multiple(Vec<CompileError>),
    /// Another reason, which belongs to no place in a file.
    Other(String),
}

/// Messages by the urls of their documents.
pub type Messages = Map<Seq<char>, Seq<Diagnostic>>;

/// The messages that a map holds.
pub open spec fn messages(map: Map<Seq<char>, Vec<Diagnostic>>) -> Messages {
    map.map_values(|list: Vec<Diagnostic>| list@)
}

/// The messages for one document.
pub open spec fn messages_for(messages: Messages, uri: Seq<char>) -> Seq<Diagnostic> {
    if messages.dom().contains(uri) {
        messages[uri]
    } else {
        Seq::empty()
    }
}

/// Whether all that is to be translated fits the numbers that there are for it.
pub open spec fn error_fits(error: CompileError) -> bool
    decreases error,
{
    match error {
        CompileError::InFile { uri, source, errors } => {
            &&& source.well_formed()
            &&& forall|i: int|
                0 <= i < errors@.len() ==> labels_fit(source, (#[trigger] errors@[i]).labels@)
        },
        CompileError::Multiple(errors) => forall|i: int|
            0 <= i < errors@.len() ==> error_fits(#[trigger] errors@[i]),
        CompileError::Other(_) => true,
    }
}

/// Whether `result` may become of one error: a message that names the compiler as its source.
pub open spec fn is_message<F: Fn(&str) -> Result<String, ()>>(
    source: CodeMap,
    error: CodeDiagnostic,
    f: F,
    result: Result<Diagnostic, ServerError<()>>,
) -> bool {
    &&& is_translation(source, error, f, result)
    &&& result matches Ok(message) ==> {
        &&& message.source is Some
        &&& message.source.unwrap()@ == "gluon"@
    }
}

/// Whether `added` may become of several errors: one message for each, up to the first that has
/// nothing to become, of which `failure` says why.
pub open spec fn are_messages<F: Fn(&str) -> Result<String, ()>>(
    source: CodeMap,
    errors: Seq<CodeDiagnostic>,
    f: F,
    added: Seq<Diagnostic>,
    failure: Option<Seq<char>>,
) -> bool {
    &&& added.len() <= errors.len()
    &&& forall|i: int|
        0 <= i < added.len() ==> is_message(source, errors[i], f, Ok(#[trigger] added[i]))
    &&& match failure {
        None => added.len() == errors.len(),
        Some(reason) => added.len() < errors.len() && exists|error: ServerError<()>|
            error.message@ == reason && #[trigger] is_message(
                source,
                errors[added.len() as int],
                f,
                Err(error),
            ),
    }
}

/// Whether `message` is the message for a reason that belongs to no place.
pub open spec fn is_plain_message(message: Diagnostic, reason: Seq<char>) -> bool {
    &&& message.message@ == reason
    &&& message.severity == Some(DiagnosticSeverity::Error)
    &&& message.source is Some
    &&& message.source.unwrap()@ == "gluon"@
    &&& message.range == zero_range()
    &&& message.code is None
    &&& message.related_information is None
}

/// Whether the messages `before` may become `after` when `error` is added to them. What belongs to
/// no place goes to the document `filename`.
pub open spec fn is_report<F: Fn(&str) -> Result<String, ()>>(
    before: Messages,
    filename: Seq<char>,
    error: CompileError,
    f: F,
    after: Messages,
    failure: Option<Seq<char>>,
) -> bool
    decreases error,
{
    match error {
        CompileError::InFile { uri, source, errors } => exists|added: Seq<Diagnostic>|
            #[trigger] are_messages(source, errors@, f, added, failure) && after == before.insert(
                uri@,
                messages_for(before, uri@) + added,
            ),
        CompileError::Multiple(errors) => are_reports(
            before,
            filename,
            errors@,
            f,
            after,
            failure,
        ),
        CompileError::Other(reason) => failure is None && exists|message: Diagnostic|
            #[trigger] is_plain_message(message, reason@) && after == before.insert(
                filename,
                messages_for(before, filename).push(message),
            ),
    }
}

/// Whether the messages `before` may become `after` when several errors are added to them, one
/// after the other, up to the first that cannot be.
pub open spec fn are_reports<F: Fn(&str) -> Result<String, ()>>(
    before: Messages,
    filename: Seq<char>,
    errors: Seq<CompileError>,
    f: F,
    after: Messages,
    failure: Option<Seq<char>>,
) -> bool
    decreases errors,
{
    if errors.len() == 0 {
        after == before && failure is None
    } else {
        exists|between: Messages, stopped: Option<Seq<char>>| #[trigger]
            ends_if_stopped(between, stopped, after, failure) && is_report(
                before,
                filename,
                errors[0],
                f,
                between,
                stopped,
            ) && (stopped is None ==> are_reports(
                between,
                filename,
                errors.drop_first(),
                f,
                after,
                failure,
            ))
    }
}

/// Where an error that cannot be added leads to: the messages stay as it left them, and it is the
/// reason why no others are added.
pub open spec fn ends_if_stopped(
    between: Messages,
    stopped: Option<Seq<char>>,
    after: Messages,
    failure: Option<Seq<char>>,
) -> bool {
    stopped is Some ==> after == between && failure == stopped
}

/// The last of several errors comes after all others.
proof fn lemma_reports_push<F: Fn(&str) -> Result<String, ()>>(
    before: Messages,
    filename: Seq<char>,
    errors: Seq<CompileError>,
    f: F,
    between: Messages,
    last: CompileError,
    after: Messages,
    failure: Option<Seq<char>>,
)
    requires
        are_reports(before, filename, errors, f, between, None),
        is_report(between, filename, last, f, after, failure),
    ensures
        are_reports(before, filename, errors.push(last), f, after, failure),
    decreases errors.len(),
{
    let more = errors.push(last);
    if errors.len() == 0 {
        assert(more[0] == last);
        assert(more.drop_first() =~= errors);
        assert(ends_if_stopped(after, failure, after, failure));
        if failure is None {
            assert(are_reports(after, filename, more.drop_first(), f, after, failure));
        }
    } else {
        assert(more[0] == errors[0]);
        assert(more.drop_first() =~= errors.drop_first().push(last));
        let (middle, stopped) = choose|middle: Messages, stopped: Option<Seq<char>>| #[trigger]
            ends_if_stopped(middle, stopped, between, None) && is_report(
                before,
                filename,
                errors[0],
                f,
                middle,
                stopped,
            ) && (stopped is None ==> are_reports(
                middle,
                filename,
                errors.drop_first(),
                f,
                between,
                None,
            ));
        lemma_reports_push(
            middle,
            filename,
            errors.drop_first(),
            f,
            between,
            last,
            after,
            failure,
        );
        assert(ends_if_stopped(middle, stopped, after, failure));
    }
}

/// What follows an error that stopped the report does not matter.
proof fn lemma_reports_stop<F: Fn(&str) -> Result<String, ()>>(
    before: Messages,
    filename: Seq<char>,
    errors: Seq<CompileError>,
    rest: Seq<CompileError>,
    f: F,
    after: Messages,
    failure: Option<Seq<char>>,
)
    requires
        failure is Some,
        are_reports(before, filename, errors, f, after, failure),
    ensures
        are_reports(before, filename, errors + rest, f, after, failure),
    decreases errors.len(),
{
    let more = errors + rest;
    assert(more[0] == errors[0]);
    assert(more.drop_first() =~= errors.drop_first() + rest);
    let (middle, stopped) = choose|middle: Messages, stopped: Option<Seq<char>>| #[trigger]
        ends_if_stopped(middle, stopped, after, failure) && is_report(
            before,
            filename,
            errors[0],
            f,
            middle,
            stopped,
        ) && (stopped is None ==> are_reports(
            middle,
            filename,
            errors.drop_first(),
            f,
            after,
            failure,
        ));
    if stopped is None {
        lemma_reports_stop(middle, filename, errors.drop_first(), rest, f, after, failure);
    }
    assert(ends_if_stopped(middle, stopped, after, failure));
}

/// The message for one error of a file.
fn into_diagnostic<F: Fn(&str) -> Result<String, ()>>(
    source: &CodeMap,
    error: &CodeDiagnostic,
    codespan_name_to_file: &F,
) -> (result: Result<Diagnostic, ServerError<()>>)
    requires
        source.well_formed(),
        labels_fit(*source, error.labels@),
        forall|name: &str| call_requires(*codespan_name_to_file, (name,)),
    ensures
        is_message(*source, *error, *codespan_name_to_file, result),
{
    match translate(source, error, codespan_name_to_file) {
        Ok(message) => Ok(Diagnostic { source: Some("gluon".to_owned()), ..message }),
        Err(error) => Err(error),
    }
}

/// Adds the messages for the errors of one file.
fn insert_in_file_error<F: Fn(&str) -> Result<String, ()>>(
    diagnostics: &mut TextMap<Vec<Diagnostic>>,
    uri: &String,
    source: &CodeMap,
    errors: &Vec<CodeDiagnostic>,
    codespan_name_to_file: &F,
) -> (result: Result<(), ServerError<()>>)
    requires
        old(diagnostics).well_formed(),
        source.well_formed(),
        forall|i: int|
            0 <= i < errors@.len() ==> labels_fit(*source, (#[trigger] errors@[i]).labels@),
        forall|name: &str| call_requires(*codespan_name_to_file, (name,)),
    ensures
        final(diagnostics).well_formed(),
        exists|added: Seq<Diagnostic>| #[trigger]
            are_messages(
                *source,
                errors@,
                *codespan_name_to_file,
                added,
                failure_of(result),
            ) && messages(final(diagnostics)@) == messages(old(diagnostics)@).insert(
                uri@,
                messages_for(messages(old(diagnostics)@), uri@) + added,
            ),
        result matches Err(error) ==> error.data is None,
{
    let list = diagnostics.entry(uri.clone(), Vec::new());
    let ghost before = list@;
    let mut i: usize = 0;
    let mut result: Result<(), ServerError<()>> = Ok(());
    let ghost mut added: Seq<Diagnostic> = Seq::empty();
    assert(before + added =~= before);
    while i < errors.len() && result.is_ok()
        invariant
            i <= errors@.len(),
            source.well_formed(),
            forall|j: int|
                0 <= j < errors@.len() ==> labels_fit(*source, (#[trigger] errors@[j]).labels@),
            forall|name: &str| call_requires(*codespan_name_to_file, (name,)),
            list@ == before + added,
            result is Ok ==> added.len() == i,
            result is Ok ==> are_messages(
                *source,
                errors@.take(i as int),
                *codespan_name_to_file,
                added,
                None,
            ),
            result is Err ==> are_messages(
                *source,
                errors@,
                *codespan_name_to_file,
                added,
                failure_of(result),
            ),
            result matches Err(error) ==> error.data is None,
        decreases errors@.len() - i,
    {
        match into_diagnostic(source, &errors[i], codespan_name_to_file) {
            Ok(message) => {
                list.push(message);
                proof {
                    let taken = errors@.take(i + 1);
                    let more = added.push(message);
                    assert forall|j: int| 0 <= j < more.len() implies is_message(
                        *source,
                        taken[j],
                        *codespan_name_to_file,
                        Ok(#[trigger] more[j]),
                    ) by {
                        if j < added.len() {
                            assert(is_message(
                                *source,
                                errors@.take(i as int)[j],
                                *codespan_name_to_file,
                                Ok(added[j]),
                            ));
                        }
                    }
                    added = more;
                    assert(list@ =~= before + added);
                }
            },
            Err(error) => {
                proof {
                    assert forall|j: int| 0 <= j < added.len() implies is_message(
                        *source,
                        errors@[j],
                        *codespan_name_to_file,
                        Ok(#[trigger] added[j]),
                    ) by {
                        assert(is_message(
                            *source,
                            errors@.take(i as int)[j],
                            *codespan_name_to_file,
                            Ok(added[j]),
                        ));
                    }
                    assert(is_message(*source, errors@[i as int], *codespan_name_to_file, Err(error)));
                }
                result = Err(error);
            },
        }
        i += 1;
    }
    proof {
        if result is Ok {
            assert(errors@.take(errors@.len() as int) =~= errors@);
        }
        assert(are_messages(
            *source,
            errors@,
            *codespan_name_to_file,
            added,
            failure_of(result),
        ));
        let uri_ = uri@;
        let old_messages = messages(old(diagnostics)@);
        assert(messages_for(old_messages, uri_) =~= before);
        assert(messages(old(diagnostics)@.insert(uri_, *list)) =~= old_messages.insert(
            uri_,
            before + added,
        ));
    }
    result
}

/// Why something failed, if it did.
pub open spec fn failure_of(result: Result<(), ServerError<()>>) -> Option<Seq<char>> {
    match result {
        Ok(()) => None,
        Err(error) => Some(error.message@),
    }
}

/// Adds the messages for `err` to those that there are already, each to the document that it
/// belongs to, which is `filename` for what belongs to no place.
pub fn create_diagnostics<F: Fn(&str) -> Result<String, ()>>(
    diagnostics: &mut TextMap<Vec<Diagnostic>>,
    filename: &str,
    err: &CompileError,
    codespan_name_to_file: &F,
) -> (result: Result<(), ServerError<()>>)
    requires
        old(diagnostics).well_formed(),
        error_fits(*err),
        forall|name: &str| call_requires(*codespan_name_to_file, (name,)),
    ensures
        final(diagnostics).well_formed(),
        is_report(
            messages(old(diagnostics)@),
            filename@,
            *err,
            *codespan_name_to_file,
            messages(final(diagnostics)@),
            failure_of(result),
        ),
        result matches Err(error) ==> error.data is None,
    decreases *err,
{
    match err {
        CompileError::InFile { uri, source, errors } => insert_in_file_error(
            diagnostics,
            uri,
            source,
            errors,
            codespan_name_to_file,
        ),
        CompileError::Multiple(errors) => create_all_diagnostics(
            diagnostics,
            filename,
            errors,
            codespan_name_to_file,
        ),
        CompileError::Other(reason) => {
            let message = Diagnostic {
                range: no_range(),
                severity: Some(DiagnosticSeverity::Error),
                code: None,
                source: Some("gluon".to_owned()),
                message: reason.clone(),
                related_information: None,
            };
            let list = diagnostics.entry(filename.to_owned(), Vec::new());
            let ghost before = list@;
            list.push(message);
            proof {
                let old_messages = messages(old(diagnostics)@);
                assert(messages_for(old_messages, filename@) =~= before);
                assert(messages(old(diagnostics)@.insert(filename@, *list)) =~= old_messages.insert(
                    filename@,
                    before.push(message),
                ));
                assert(is_plain_message(message, reason@));
            }
            Ok(())
        },
    }
}

/// Adds the messages for several errors, one after the other.
fn create_all_diagnostics<F: Fn(&str) -> Result<String, ()>>(
    diagnostics: &mut TextMap<Vec<Diagnostic>>,
    filename: &str,
    errors: &Vec<CompileError>,
    codespan_name_to_file: &F,
) -> (result: Result<(), ServerError<()>>)
    requires
        old(diagnostics).well_formed(),
        forall|i: int| 0 <= i < errors@.len() ==> error_fits(#[trigger] errors@[i]),
        forall|name: &str| call_requires(*codespan_name_to_file, (name,)),
    ensures
        final(diagnostics).well_formed(),
        are_reports(
            messages(old(diagnostics)@),
            filename@,
            errors@,
            *codespan_name_to_file,
            messages(final(diagnostics)@),
            failure_of(result),
        ),
        result matches Err(error) ==> error.data is None,
    decreases errors@,
{
    let ghost before = messages(diagnostics@);
    let mut i: usize = 0;
    while i < errors.len()
        invariant
            i <= errors@.len(),
            diagnostics.well_formed(),
            before == messages(old(diagnostics)@),
            forall|j: int| 0 <= j < errors@.len() ==> error_fits(#[trigger] errors@[j]),
            forall|name: &str| call_requires(*codespan_name_to_file, (name,)),
            are_reports(
                before,
                filename@,
                errors@.take(i as int),
                *codespan_name_to_file,
                messages(diagnostics@),
                None,
            ),
        decreases errors@.len() - i,
    {
        let ghost between = messages(diagnostics@);
        let result = create_diagnostics(
            diagnostics,
            filename,
            &errors[i],
            codespan_name_to_file,
        );
        proof {
            lemma_reports_push(
                before,
                filename@,
                errors@.take(i as int),
                *codespan_name_to_file,
                between,
                errors@[i as int],
                messages(diagnostics@),
                failure_of(result),
            );
            assert(errors@.take(i as int).push(errors@[i as int]) =~= errors@.take(i + 1));
        }
        match result {
            Ok(()) => {},
            Err(error) => {
                proof {
                    lemma_reports_stop(
                        before,
                        filename@,
                        errors@.take(i + 1),
                        errors@.skip(i + 1),
                        *codespan_name_to_file,
                        messages(diagnostics@),
                        failure_of(result),
                    );
                    assert(errors@.take(i + 1) + errors@.skip(i + 1) =~= errors@);
                }
                return Err(error);
            },
        }
        i += 1;
    }
    assert(errors@.take(errors@.len() as int) =~= errors@);
    Ok(())
}

/// Whether `create_diagnostics` can be called with this error.
pub fn is_fitting_error(error: &CompileError) -> (fitting: bool)
    ensures
        fitting == error_fits(*error),
    decreases *error,
{
    match error {
        CompileError::InFile { uri, source, errors } => {
            if !source.is_well_formed() {
                return false;
            }
            let mut i: usize = 0;
            while i < errors.len()
                invariant
                    *error == (CompileError::InFile {
                        uri: *uri,
                        source: *source,
                        errors: *errors,
                    }),
                    source.well_formed(),
                    i <= errors@.len(),
                    forall|j: int|
                        0 <= j < i ==> labels_fit(*source, (#[trigger] errors@[j]).labels@),
                decreases errors@.len() - i,
            {
                if !are_fitting_labels(source, &errors[i].labels) {
                    assert(!labels_fit(*source, errors@[i as int].labels@));
                    return false;
                }
                i += 1;
            }
            true
        },
        CompileError::Multiple(errors) => are_fitting_errors(errors),
        CompileError::Other(_) => true,
    }
}

fn are_fitting_errors(errors: &Vec<CompileError>) -> (fitting: bool)
    ensures
        fitting == (forall|i: int| 0 <= i < errors@.len() ==> error_fits(#[trigger] errors@[i])),
    decreases errors@,
{
    let mut i: usize = 0;
    while i < errors.len()
        invariant
            i <= errors@.len(),
            forall|j: int| 0 <= j < i ==> error_fits(#[trigger] errors@[j]),
        decreases errors@.len() - i,
    {
        if !is_fitting_error(&errors[i]) {
            assert(!error_fits(errors@[i as int]));
            return false;
        }
        i += 1;
    }
    true
}

/// Whether all messages of `before` are among those of `after`, in front of any others.
pub open spec fn only_adds(before: Messages, after: Messages) -> bool {
    forall|uri: Seq<char>| #[trigger]
        before.dom().contains(uri) ==> after.dom().contains(uri) && before[uri].is_prefix_of(
            after[uri],
        )
}

/// Law: a report takes nothing away. Whatever becomes of an error, the messages that were there
/// before stay, in their order and in front of the new ones.
pub proof fn law_reports_only_add<F: Fn(&str) -> Result<String, ()>>(
    before: Messages,
    filename: Seq<char>,
    error: CompileError,
    f: F,
    after: Messages,
    failure: Option<Seq<char>>,
)
    requires
        is_report(before, filename, error, f, after, failure),
    ensures
        only_adds(before, after),
    decreases error,
{
    match error {
        CompileError::InFile { uri, source, errors } => {
            let added = choose|added: Seq<Diagnostic>| #[trigger]
                are_messages(source, errors@, f, added, failure) && after == before.insert(
                    uri@,
                    messages_for(before, uri@) + added,
                );
            assert(messages_for(before, uri@).is_prefix_of(messages_for(before, uri@) + added));
        },
        CompileError::Multiple(errors) => {
            lemma_reports_only_add(before, filename, errors@, f, after, failure);
        },
        CompileError::Other(reason) => {
            let message = choose|message: Diagnostic| #[trigger]
                is_plain_message(message, reason@) && after == before.insert(
                    filename,
                    messages_for(before, filename).push(message),
                );
            assert(messages_for(before, filename).is_prefix_of(
                messages_for(before, filename).push(message),
            ));
        },
    }
}

proof fn lemma_reports_only_add<F: Fn(&str) -> Result<String, ()>>(
    before: Messages,
    filename: Seq<char>,
    errors: Seq<CompileError>,
    f: F,
    after: Messages,
    failure: Option<Seq<char>>,
)
    requires
        are_reports(before, filename, errors, f, after, failure),
    ensures
        only_adds(before, after),
    decreases errors,
{
    if errors.len() > 0 {
        let (between, stopped) = choose|between: Messages, stopped: Option<Seq<char>>| #[trigger]
            ends_if_stopped(between, stopped, after, failure) && is_report(
                before,
                filename,
                errors[0],
                f,
                between,
                stopped,
            ) && (stopped is None ==> are_reports(
                between,
                filename,
                errors.drop_first(),
                f,
                after,
                failure,
            ));
        law_reports_only_add(before, filename, errors[0], f, between, stopped);
        if stopped is None {
            lemma_reports_only_add(between, filename, errors.drop_first(), f, after, failure);
            assert forall|uri: Seq<char>| #[trigger] before.dom().contains(uri) implies {
                &&& after.dom().contains(uri)
                &&& before[uri].is_prefix_of(after[uri])
            } by {
                assert(between.dom().contains(uri));
                assert(before[uri] =~= after[uri].subrange(0, before[uri].len() as int));
            }
        }
    }
}

} // verus!
