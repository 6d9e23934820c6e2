//! What the server does when a document is opened, changed or checked.

use vstd::laws_eq::obeys_eq_spec_properties;
use vstd::prelude::*;

use crate::check_importer::{checked_state, fresh_state, CheckImporter, StateView};
use crate::diagnostics::report::{
    create_diagnostics, error_fits, is_report, messages, CompileError, Messages,
};
use crate::diagnostics::Diagnostic;
use crate::protocol::Uri;
use crate::rpc::queue::{comparable, is_older, Entry};
use crate::rpc::queue_laws::well_ordered;
use crate::rpc::ServerError;
use crate::text_edit::{applicable, applied, may_add, with_change, Version, VersionedChange};
use crate::text_map::{is_at, lemma_one_place, TextMap};

verus! {

/// The messages for one document, as they are published.
#[derive(Debug, PartialEq, Eq)]
pub struct PublishDiagnosticsParams {
    pub uri: String,
    pub diagnostics: Vec<Diagnostic>,
    pub version: Option<Version>,
}

/// A document that was opened is to be checked.
pub fn did_open(uri: String, text: String, version: Version) -> (entry: Entry<Uri, String, Version>)
    ensures
        entry == (Entry { key: (Uri { text: uri }), value: text, version }),
{
    Entry { key: Uri { text: uri }, value: text, version }
}

/// Law: documents can be queued by their uris. What the queue promises holds of them: uris are the
/// same if their texts are, and versions are in order.
pub proof fn law_documents_can_be_queued()
    ensures
        comparable::<Uri, Version>(),
        well_ordered::<Uri, Version>(),
        forall|a: Version, b: Version| #[trigger] is_older(a, b) <==> a < b,
{
    reveal(obeys_eq_spec_properties);
    broadcast use vstd::laws_cmp::group_laws_cmp;

    assert(vstd::laws_cmp::obeys_cmp::<Version>());
}

/// What came of an edit.
#[derive(Debug, PartialEq)]
pub enum Changed {
    /// The document is as it was: the edit waits for others, or said nothing new.
    Nothing,
    /// The document has a new text in a new version, which is to be checked.
    Document { version: Version, source: String },
    /// An edit failed, and why.
    Failed(ServerError<()>),
}

/// What is known of a module before an edit of it.
pub open spec fn known_state(
    known: Map<Seq<char>, StateView>,
    name: Seq<char>,
    uri: Seq<char>,
) -> StateView {
    if known.dom().contains(name) {
        known[name]
    } else {
        fresh_state(uri, None)
    }
}

/// Whether an edit can be taken: it may join those that wait, and those that can then be applied
/// make sense for the document.
pub open spec fn can_change(state: StateView, change: VersionedChange, source: Seq<char>) -> bool {
    &&& may_add(state.waiting, change.version, change.content_changes@)
    &&& state.version matches Some(version) ==> applicable(
        with_change(state.waiting, change),
        source,
        version,
    )
}

/// What is known of a module after an edit of it. Edits wait as long as the document's version is
/// not known. The version stays where an edit fails.
pub open spec fn changed_state(
    state: StateView,
    uri: Seq<char>,
    change: VersionedChange,
    source: Seq<char>,
) -> StateView {
    let waiting = with_change(state.waiting, change);
    match state.version {
        None => StateView { uri, version: None, waiting },
        Some(version) => {
            let result = applied(waiting, source, version);
            StateView {
                uri,
                version: Some(
                    if result.error is None {
                        result.version
                    } else {
                        version
                    },
                ),
                waiting: result.waiting,
            }
        },
    }
}

/// Whether `outcome` is what comes of an edit.
pub open spec fn is_outcome(
    state: StateView,
    change: VersionedChange,
    source: Seq<char>,
    outcome: Changed,
) -> bool {
    match state.version {
        None => outcome is Nothing,
        Some(version) => {
            let result = applied(with_change(state.waiting, change), source, version);
            match outcome {
                Changed::Failed(error) => result.error == Some(error.message@) && error.data is None,
                Changed::Nothing => result.error is None && result.version == version,
                Changed::Document { version: reached, source: text } => {
                    &&& result.error is None
                    &&& result.version != version
                    &&& reached == result.version
                    &&& text@ == result.text
                },
            }
        },
    }
}

/// Whether `did_change` can be called.
pub fn accepts_change(
    modules: &CheckImporter,
    name: &str,
    change: &VersionedChange,
    source: &str,
) -> (accepted: bool)
    requires
        modules.well_formed(),
    ensures
        forall|uri: Seq<char>| #[trigger]
            can_change(known_state(modules@, name@, uri), *change, source@) == accepted,
        accepted == (modules@.dom().contains(name@) ==> can_change(
            modules@[name@],
            *change,
            source@,
        )),
{
    match modules.get(name) {
        None => {
            true
        },
        Some(state) => {
            if !state.text_changes.accepts(change.version, &change.content_changes) {
                return false;
            }
            match state.version {
                None => true,
                Some(version) => state.text_changes.can_apply_with(change, source, version),
            }
        },
    }
}

/// Takes note of an edit of the module `name`, which is the document at `uri` and has the text
/// `source`, and says what came of it.
///
/// If the module was loaded before it was opened in the editor, its uri has been guessed from the
/// current directory; the editor knows better.
pub fn did_change(
    modules: &mut CheckImporter,
    name: String,
    uri: String,
    change: VersionedChange,
    source: String,
) -> (outcome: Changed)
    requires
        old(modules).well_formed(),
        can_change(known_state(old(modules)@, name@, uri@), change, source@),
    ensures
        final(modules).well_formed(),
        final(modules)@ == old(modules)@.insert(
            name@,
            changed_state(known_state(old(modules)@, name@, uri@), uri@, change, source@),
        ),
        final(modules).names() == old(modules).names_with(name@),
        is_outcome(known_state(old(modules)@, name@, uri@), change, source@, outcome),
{
    let mut source: String = source;
    let state = modules.entry(name, uri.clone());
    state.text_changes.add(change.version, change.content_changes);
    state.uri = uri;
    match state.version {
        None => Changed::Nothing,
        Some(current) => match state.text_changes.apply_changes(&mut source, current) {
            Ok(version) => {
                if version == current {
                    Changed::Nothing
                } else {
                    state.version = Some(version);
                    Changed::Document { version, source }
                }
            },
            Err(error) => Changed::Failed(error),
        },
    }
}

/// Law: no edit is lost. Those that arrive before the document has been checked wait until it has
/// been, and the next edit finds them.
pub proof fn law_early_edits_are_kept(
    known: Map<Seq<char>, StateView>,
    name: Seq<char>,
    uri: Seq<char>,
    change: VersionedChange,
    source: Seq<char>,
    version: Version,
)
    requires
        known_state(known, name, uri).version is None,
    ensures
        ({
            let state = known_state(known, name, uri);
            let changed = known.insert(name, changed_state(state, uri, change, source));
            let checked = changed.insert(name, checked_state(changed, name, uri, Some(version)));
            known_state(checked, name, uri) == (StateView {
                uri,
                version: Some(version),
                waiting: with_change(state.waiting, change),
            })
        }),
{
}

/// Law: an edit that the document is not ready for changes nothing but the list of those that wait.
pub proof fn law_waiting_edits_change_nothing(
    state: StateView,
    uri: Seq<char>,
    change: VersionedChange,
    source: Seq<char>,
    outcome: Changed,
)
    requires
        state.version matches Some(version) ==> {
            &&& with_change(state.waiting, change).len() > 0
            &&& with_change(state.waiting, change)[0].version > version + 1
        },
        is_outcome(state, change, source, outcome),
    ensures
        outcome is Nothing,
        changed_state(state, uri, change, source) == (StateView {
            uri,
            version: state.version,
            waiting: with_change(state.waiting, change),
        }),
{
}

/// Whether `published` are the messages `all`, in the order of the documents' urls, for a document
/// of version `version`.
pub open spec fn are_published(
    all: Messages,
    version: Option<Version>,
    published: Seq<PublishDiagnosticsParams>,
) -> bool {
    &&& forall|i: int, j: int|
        0 <= i < j < published.len() ==> crate::order::text_before(
            (#[trigger] published[i]).uri@,
            (#[trigger] published[j]).uri@,
        )
    &&& forall|i: int|
        0 <= i < published.len() ==> {
            &&& all.dom().contains((#[trigger] published[i]).uri@)
            &&& all[published[i].uri@] == published[i].diagnostics@
            &&& published[i].version == version
        }
    &&& forall|uri: Seq<char>| #[trigger]
        all.dom().contains(uri) ==> exists|i: int|
            0 <= i < published.len() && (#[trigger] published[i]).uri@ == uri
}

/// What is published once the document at `uri` has been checked. Where nothing is wrong, an empty
/// list for the document takes away what was reported of it before. Where something is, each
/// document gets the messages that belong to it; nothing is published where these cannot be made.
pub fn run_diagnostics<F: Fn(&str) -> Result<String, ()>>(
    uri: &str,
    version: Option<Version>,
    checked: Result<(), CompileError>,
    codespan_name_to_file: &F,
) -> (published: Result<Vec<PublishDiagnosticsParams>, ServerError<()>>)
    requires
        checked matches Err(error) ==> error_fits(error),
        forall|name: &str| call_requires(*codespan_name_to_file, (name,)),
    ensures
        match checked {
            Ok(()) => {
                &&& published matches Ok(published)
                &&& published@.len() == 1
                &&& published@[0].uri@ == uri@
                &&& published@[0].diagnostics@.len() == 0
                &&& published@[0].version == version
            },
            Err(error) => exists|all: Messages| #[trigger]
                is_report(
                    Map::empty(),
                    uri@,
                    error,
                    *codespan_name_to_file,
                    all,
                    publication_failure(published),
                ) && (published matches Ok(published) ==> are_published(
                    all,
                    version,
                    published@,
                )),
        },
        published matches Err(error) ==> error.data is None,
{
    match checked {
        Ok(()) => {
            let mut published: Vec<PublishDiagnosticsParams> = Vec::new();
            published.push(
                PublishDiagnosticsParams { uri: uri.to_owned(), diagnostics: Vec::new(), version },
            );
            Ok(published)
        },
        Err(error) => {
            let mut diagnostics: TextMap<Vec<Diagnostic>> = TextMap::new();
            assert(messages(diagnostics@) =~= Map::empty());
            match create_diagnostics(&mut diagnostics, uri, &error, codespan_name_to_file) {
                Ok(()) => Ok(publish(diagnostics, version)),
                Err(reason) => Err(reason),
            }
        },
    }
}

/// Why nothing is published, if nothing is.
pub open spec fn publication_failure(
    published: Result<Vec<PublishDiagnosticsParams>, ServerError<()>>,
) -> Option<Seq<char>> {
    match published {
        Ok(_) => None,
        Err(error) => Some(error.message@),
    }
}

fn publish(diagnostics: TextMap<Vec<Diagnostic>>, version: Option<Version>) -> (published: Vec<
    PublishDiagnosticsParams,
>)
    requires
        diagnostics.well_formed(),
    ensures
        are_published(messages(diagnostics@), version, published@),
{
    let ghost all = messages(diagnostics@);
    let items = diagnostics.into_items();
    let ghost listed = items@;
    let mut published: Vec<PublishDiagnosticsParams> = Vec::new();
    for item in iter: items.into_iter()
        invariant
            iter.seq() == listed,
            published@.len() == iter.index(),
            forall|i: int|
                0 <= i < published@.len() ==> {
                    &&& (#[trigger] published@[i]).uri == listed[i].0
                    &&& published@[i].diagnostics == listed[i].1
                    &&& published@[i].version == version
                },
    {
        let (uri, diagnostics) = item;
        published.push(PublishDiagnosticsParams { uri, diagnostics, version });
    }
    proof {
        assert forall|i: int| 0 <= i < published@.len() implies {
            &&& all.dom().contains((#[trigger] published@[i]).uri@)
            &&& all[published@[i].uri@] == published@[i].diagnostics@
        } by {
            assert(is_at(listed, listed[i].0@, i));
            lemma_one_place(listed, listed[i].0@, i);
        }
        assert forall|uri: Seq<char>| #[trigger] all.dom().contains(uri) implies exists|i: int|
            0 <= i < published@.len() && (#[trigger] published@[i]).uri@ == uri by {
            let i = choose|i: int| is_at(listed, uri, i);
            assert(published@[i].uri@ == uri);
        }
        assert forall|i: int, j: int|
            0 <= i < j < published@.len() implies crate::order::text_before(
            (#[trigger] published@[i]).uri@,
            (#[trigger] published@[j]).uri@,
        ) by {
            assert(crate::order::text_before(listed[i].0@, listed[j].0@));
        }
    }
    published
}

} // verus!
