//! What is remembered of modules, and what becomes of their documents.

use vstd::prelude::*;

use crate::check_importer::{
    is_plain_text, loaded, loaded_modules, quoted, CheckImporter, Module, State,
};
use crate::diagnostics::worker::{accepts_change, did_change, did_open, Changed};
use crate::protocol::Uri;
use crate::rpc::queue::Entry;
use crate::rpc::ServerError;
use crate::text_edit::{TextChanges, Version, VersionedChange};

verus! {

/// Law: at first no module is known. What is said of a module is what is known of it then, and it
/// does not change what is known of others.
pub proof fn law_modules_are_remembered(
    fresh: CheckImporter,
    any: &str,
    at_first: Option<&State>,
    modules: &mut CheckImporter,
    name: String,
    state: State,
    before: &CheckImporter,
    after: &CheckImporter,
    asked: &str,
    was: Option<&State>,
    is: Option<&State>,
)
    requires
        call_ensures(CheckImporter::new, (), fresh),
        call_ensures(CheckImporter::get, (&fresh, any), at_first),
        call_ensures(CheckImporter::insert, (modules, name, state), ()),
        before@ == old(modules)@,
        after@ == final(modules)@,
        call_ensures(CheckImporter::get, (before, asked), was),
        call_ensures(CheckImporter::get, (after, asked), is),
    ensures
        at_first is None,
        asked@ == name@ ==> is is Some && is.unwrap()@ == state@,
        asked@ != name@ ==> (is is Some <==> was is Some),
        asked@ != name@ && is is Some ==> is.unwrap()@ == was.unwrap()@,
{
}

/// Law: a module that was loaded for an import is known by its uri; its version is not known, and no
/// edits wait for it. Other modules stay as they are.
pub proof fn law_imported_modules_are_fresh(
    modules: &mut CheckImporter,
    name: String,
    uri: String,
    before: &CheckImporter,
    after: &CheckImporter,
    asked: &str,
    was: Option<&State>,
    is: Option<&State>,
)
    requires
        call_ensures(CheckImporter::import, (modules, name, uri), ()),
        before@ == old(modules)@,
        after@ == final(modules)@,
        call_ensures(CheckImporter::get, (before, asked), was),
        call_ensures(CheckImporter::get, (after, asked), is),
    ensures
        asked@ == name@ ==> {
            &&& is is Some
            &&& is.unwrap().uri@ == uri@
            &&& is.unwrap().version is None
            &&& is.unwrap().text_changes@.len() == 0
        },
        asked@ != name@ ==> (is is Some <==> was is Some),
        asked@ != name@ && is is Some ==> is.unwrap()@ == was.unwrap()@,
{
}

/// Law: a module that was checked is known by the uri that it was checked as, in the version that was
/// checked, or in the one that was known before where none was given. Edits that wait for it go on
/// waiting, and other modules stay as they are.
pub proof fn law_checked_modules_keep_their_edits(
    modules: &mut CheckImporter,
    name: String,
    uri: String,
    version: Option<Version>,
    before: &CheckImporter,
    after: &CheckImporter,
    asked: &str,
    was: Option<&State>,
    is: Option<&State>,
)
    requires
        call_ensures(CheckImporter::checked, (modules, name, uri, version), ()),
        before@ == old(modules)@,
        after@ == final(modules)@,
        call_ensures(CheckImporter::get, (before, asked), was),
        call_ensures(CheckImporter::get, (after, asked), is),
    ensures
        asked@ == name@ ==> {
            &&& is is Some
            &&& is.unwrap().uri@ == uri@
            &&& version is Some ==> is.unwrap().version == version
            &&& version is None ==> is.unwrap().version == (if was is Some {
                was.unwrap().version
            } else {
                None
            })
            &&& was is Some ==> is.unwrap().text_changes@ == was.unwrap().text_changes@
            &&& was is None ==> is.unwrap().text_changes@.len() == 0
        },
        asked@ != name@ ==> (is is Some <==> was is Some),
        asked@ != name@ && is is Some ==> is.unwrap()@ == was.unwrap()@,
{
}

/// Law: a module is found exactly if it could be loaded and is known, and it is found at its uri.
pub proof fn law_modules_are_found<S>(
    modules: &CheckImporter,
    name: &str,
    loaded: Option<S>,
    module: Option<Module<S>>,
    known: Option<&State>,
)
    requires
        call_ensures(CheckImporter::module::<S>, (modules, name, loaded), module),
        call_ensures(CheckImporter::get, (modules, name), known),
    ensures
        module is Some <==> loaded is Some && known is Some,
        module matches Some(module) ==> loaded == Some(module.source) && module.uri@
            == known.unwrap().uri@,
{
}

/// Law: the modules that are listed are those that are known, each of them once and with its uri.
pub proof fn law_known_modules_are_listed(
    modules: &CheckImporter,
    uris: Vec<(String, String)>,
    name: &str,
    known: Option<&State>,
)
    requires
        modules.well_formed(),
        call_ensures(CheckImporter::uris, (modules,), uris),
        call_ensures(CheckImporter::get, (modules, name), known),
    ensures
        known is Some <==> exists|i: int|
            0 <= i < uris@.len() && (#[trigger] uris@[i]).0@ == name@,
        forall|i: int|
            0 <= i < uris@.len() && (#[trigger] uris@[i]).0@ == name@ ==> uris@[i].1@
                == known.unwrap().uri@,
        forall|i: int, j: int|
            0 <= i < j < uris@.len() ==> (#[trigger] uris@[i]).0@ != (#[trigger] uris@[j]).0@,
{
    modules.law_names_are_the_known_modules();
    let names = modules.names();
    if known is Some {
        let i = choose|i: int| 0 <= i < names.len() && names[i] == name@;
        assert(uris@[i].0@ == name@);
    }
    if exists|i: int| 0 <= i < uris@.len() && (#[trigger] uris@[i]).0@ == name@ {
        let i = choose|i: int| 0 <= i < uris@.len() && (#[trigger] uris@[i]).0@ == name@;
        assert(names[i] == name@);
    }
    assert forall|i: int, j: int| 0 <= i < j < uris@.len() implies (#[trigger] uris@[i]).0@ != (
    #[trigger] uris@[j]).0@ by {
        assert(names[i] != names[j]);
    }
}

/// Law: a module that was asked for is handed out if there is one, and else its name is told.
pub proof fn law_missing_modules_are_named<S>(
    modules: &CheckImporter,
    name: &str,
    module: Option<Module<S>>,
    result: Result<Module<S>, ServerError<()>>,
)
    requires
        call_ensures(CheckImporter::require::<S>, (modules, name, module), result),
    ensures
        module matches Some(module) ==> result == Ok::<Module<S>, ServerError<()>>(module),
        module is None ==> result is Err,
        result matches Err(error) ==> ("Module `"@ + name@ + "` is not defined\n"@).is_prefix_of(
            error.message@,
        ),
{
}

/// Law: of several modules those are kept that could be loaded, in their order.
pub proof fn law_loaded_modules_are_kept<S>(
    candidates: Vec<(String, Option<S>)>,
    modules: Vec<Module<S>>,
    front: Seq<(String, Option<S>)>,
    uri: String,
    source: Option<S>,
    back: Seq<(String, Option<S>)>,
)
    requires
        call_ensures(loaded_modules::<S>, (candidates,), modules),
        candidates@ == front + seq![(uri, source)] + back,
    ensures
        modules@ == loaded(front) + (match source {
            Some(source) => seq![Module { source, uri }],
            None => Seq::empty(),
        }) + loaded(back),
{
    let one = seq![(uri, source)];
    lemma_loaded_in_parts(front, one);
    lemma_loaded_in_parts(front + one, back);
    assert(one.drop_last() =~= Seq::<(String, Option<S>)>::empty());
    reveal_with_fuel(loaded, 2);
    assert(loaded(one) =~= (match source {
        Some(source) => seq![Module { source, uri }],
        None => Seq::empty(),
    }));
}

proof fn lemma_loaded_in_parts<S>(
    a: Seq<(String, Option<S>)>,
    b: Seq<(String, Option<S>)>,
)
    ensures
        loaded(a + b) == loaded(a) + loaded(b),
    decreases b.len(),
{
    if b.len() == 0 {
        assert(a + b =~= a);
        assert(loaded(a) + loaded(b) =~= loaded(a));
    } else {
        assert((a + b).drop_last() =~= a + b.drop_last());
        lemma_loaded_in_parts(a, b.drop_last());
        assert(loaded(a + b) =~= loaded(a) + loaded(b));
    }
}

/// Law: a document that was opened is to be checked with its text, in its version.
pub proof fn law_opened_documents_are_checked(
    uri: String,
    text: String,
    version: Version,
    entry: Entry<Uri, String, Version>,
)
    requires
        call_ensures(did_open, (uri, text, version), entry),
    ensures
        entry.key.text == uri,
        entry.value == text,
        entry.version == version,
{
}

/// Law: an edit of a document whose version is known joins those that wait, and what can be applied
/// then is. The document is checked anew exactly if it has reached another version; it is what the
/// edits have made of it. An edit that fails is told, and leaves the version.
pub proof fn law_edits_reach_their_document(
    modules: &mut CheckImporter,
    name: String,
    uri: String,
    change: VersionedChange,
    source: String,
    outcome: Changed,
    before: &CheckImporter,
    after: &CheckImporter,
    asked: &str,
    was: Option<&State>,
    is: Option<&State>,
    version: Version,
    added: &mut TextChanges,
    applied: &mut TextChanges,
    text: &mut String,
    reached: Result<Version, ServerError<()>>,
)
    requires
        call_ensures(did_change, (modules, name, uri, change, source), outcome),
        before@ == old(modules)@,
        after@ == final(modules)@,
        asked@ == name@,
        call_ensures(CheckImporter::get, (before, asked), was),
        call_ensures(CheckImporter::get, (after, asked), is),
        was is Some,
        was.unwrap().version == Some(version),
        old(added)@ == was.unwrap().text_changes@,
        call_ensures(TextChanges::add, (added, change.version, change.content_changes), ()),
        old(applied)@ == final(added)@,
        old(text)@ == source@,
        call_ensures(TextChanges::apply_changes, (applied, text, version), reached),
    ensures
        is is Some,
        is.unwrap().uri@ == uri@,
        is.unwrap().text_changes@ == final(applied)@,
        match reached {
            Ok(reached) => {
                &&& is.unwrap().version == Some(reached)
                &&& outcome is Nothing <==> reached == version
                &&& reached != version ==> {
                    &&& outcome is Document
                    &&& outcome->version == reached
                    &&& outcome->source@ == final(text)@
                }
            },
            Err(error) => {
                &&& is.unwrap().version == Some(version)
                &&& outcome is Failed
                &&& outcome->Failed_0.message@ == error.message@
            },
        },
{
}

/// Law: an edit of a document whose version is not known waits, and changes nothing else.
pub proof fn law_edits_wait_for_the_first_version(
    modules: &mut CheckImporter,
    name: String,
    uri: String,
    change: VersionedChange,
    source: String,
    outcome: Changed,
    before: &CheckImporter,
    after: &CheckImporter,
    asked: &str,
    was: Option<&State>,
    is: Option<&State>,
    added: &mut TextChanges,
)
    requires
        call_ensures(did_change, (modules, name, uri, change, source), outcome),
        before@ == old(modules)@,
        after@ == final(modules)@,
        asked@ == name@,
        call_ensures(CheckImporter::get, (before, asked), was),
        call_ensures(CheckImporter::get, (after, asked), is),
        was is Some ==> was.unwrap().version is None,
        old(added)@ == (if was is Some {
            was.unwrap().text_changes@
        } else {
            Seq::empty()
        }),
        call_ensures(TextChanges::add, (added, change.version, change.content_changes), ()),
    ensures
        outcome is Nothing,
        is is Some,
        is.unwrap().uri@ == uri@,
        is.unwrap().version is None,
        is.unwrap().text_changes@ == final(added)@,
{
}

/// Law: an edit of one document leaves all others as they are.
pub proof fn law_edits_leave_other_documents(
    modules: &mut CheckImporter,
    name: String,
    uri: String,
    change: VersionedChange,
    source: String,
    outcome: Changed,
    before: &CheckImporter,
    after: &CheckImporter,
    asked: &str,
    was: Option<&State>,
    is: Option<&State>,
)
    requires
        call_ensures(did_change, (modules, name, uri, change, source), outcome),
        before@ == old(modules)@,
        after@ == final(modules)@,
        asked@ != name@,
        call_ensures(CheckImporter::get, (before, asked), was),
        call_ensures(CheckImporter::get, (after, asked), is),
    ensures
        is is Some <==> was is Some,
        is is Some ==> is.unwrap()@ == was.unwrap()@,
{
}

/// Law: an edit is taken if it may join those that wait for its document and what would be applied
/// then makes sense. The first edit of a document that is not known is always taken.
pub proof fn law_edits_that_make_sense_are_taken(
    modules: &CheckImporter,
    name: &str,
    change: &VersionedChange,
    source: &str,
    accepted: bool,
    was: Option<&State>,
    joins: bool,
    added: &mut TextChanges,
    waiting: &TextChanges,
    version: Version,
    possible: bool,
)
    requires
        call_ensures(accepts_change, (modules, name, change, source), accepted),
        call_ensures(CheckImporter::get, (modules, name), was),
        was is Some ==> call_ensures(
            TextChanges::accepts,
            (&was.unwrap().text_changes, change.version, &change.content_changes),
            joins,
        ),
        was is Some ==> old(added)@ == was.unwrap().text_changes@,
        call_ensures(TextChanges::add, (added, change.version, change.content_changes), ()),
        waiting@ == final(added)@,
        was is Some && was.unwrap().version is Some ==> was.unwrap().version == Some(version),
        call_ensures(TextChanges::can_apply, (waiting, source, version), possible),
    ensures
        was is None ==> accepted,
        was is Some ==> accepted == (joins && (was.unwrap().version is Some ==> possible)),
{
}

/// Law: where a module is missing, all modules that are known are named, if their names can be
/// quoted as they are.
pub proof fn law_known_modules_are_named<S>(
    modules: &CheckImporter,
    name: &str,
    error: ServerError<()>,
    known: Seq<char>,
)
    requires
        modules.well_formed(),
        call_ensures(
            CheckImporter::require::<S>,
            (modules, name, None::<Module<S>>),
            Err::<Module<S>, ServerError<()>>(error),
        ),
        forall|other: Seq<char>| #[trigger] modules@.dom().contains(other) ==> is_plain_text(other),
        modules@.dom().contains(known),
    ensures
        exists|a: Seq<char>, b: Seq<char>|
            error.message@ == #[trigger] (a + ("\""@ + known + "\""@) + b),
{
    modules.law_names_are_the_known_modules();
    let names = modules.names();
    assert forall|i: int| 0 <= i < names.len() implies is_plain_text(#[trigger] names[i]) by {
        assert(names.contains(names[i]));
        assert(modules@.dom().contains(names[i]));
    }
    let i = choose|i: int| 0 <= i < names.len() && names[i] == known;
    let (a, b) = lemma_quoted(names, i);
    let quote = "\""@ + known + "\""@;
    let front = "Module `"@ + name@ + "` is not defined\n"@;
    assert(error.message@ =~= (front + "["@ + a) + quote + (b + "]"@));
}

proof fn lemma_quoted(texts: Seq<Seq<char>>, i: int) -> (parts: (Seq<char>, Seq<char>))
    requires
        0 <= i < texts.len(),
    ensures
        quoted(texts) == parts.0 + ("\""@ + texts[i] + "\""@) + parts.1,
    decreases texts.len(),
{
    let empty = Seq::<char>::empty();
    if texts.len() == 1 {
        assert(quoted(texts) =~= empty + ("\""@ + texts[i] + "\""@) + empty);
        (empty, empty)
    } else if i == texts.len() - 1 {
        reveal_strlit(", \"");
        reveal_strlit("\"");
        let front = quoted(texts.drop_last()) + seq![',', ' '];
        assert(", \""@ =~= seq![',', ' '] + "\""@);
        assert(quoted(texts) =~= front + ("\""@ + texts[i] + "\""@) + empty);
        (front, empty)
    } else {
        let (a, b) = lemma_quoted(texts.drop_last(), i);
        assert(texts.drop_last()[i] == texts[i]);
        let back = b + ", \""@ + texts.last() + "\""@;
        assert(quoted(texts) =~= a + ("\""@ + texts[i] + "\""@) + back);
        (a, back)
    }
}

} // verus!
