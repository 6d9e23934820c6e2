//! Which names are suggested, in which order, and how they are shown.

use std::path::PathBuf;

use vstd::prelude::*;
use vstd::utf8::encode_utf8;

use crate::command::completion::{
    are_items, colon_index, completions, is_hidden, is_item, label_of, labels, resolve, visible,
    CompletionItem, Suggestion,
};
use crate::command::initialize::{
    initialize, invalid_params, root_path, InitializeError, InitializeResult, TextDocumentSyncKind,
};
use crate::command::{ident_kind, ident_to_completion_item_kind, CompletionItemKind, Meaning};
use crate::name::file_path;
use crate::order::{
    bytes_before, comes_first, is_before, is_stable_order, law_text_order_is_total, text_before,
};
use crate::path::path_bytes;
use crate::protocol::Position;
use crate::rpc::ServerError;

verus! {

/// Whether two sequences of bytes are the same up to place `p`, and the first ends there or goes on
/// with a smaller byte.
pub open spec fn falls_behind_at(a: Seq<u8>, b: Seq<u8>, p: int) -> bool {
    &&& 0 <= p <= a.len() && p < b.len()
    &&& a.take(p) == b.take(p)
    &&& p == a.len() || a[p] < b[p]
}

proof fn lemma_bytes_before(a: Seq<u8>, b: Seq<u8>)
    ensures
        bytes_before(a, b) <==> exists|p: int| falls_behind_at(a, b, p),
    decreases a.len(),
{
    if a.len() > 0 && b.len() > 0 && a[0] == b[0] {
        let x = a.drop_first();
        let y = b.drop_first();
        lemma_bytes_before(x, y);
        if bytes_before(a, b) {
            let p = choose|p: int| falls_behind_at(x, y, p);
            assert(a.take(p + 1) =~= seq![a[0]] + x.take(p));
            assert(b.take(p + 1) =~= seq![b[0]] + y.take(p));
            assert(falls_behind_at(a, b, p + 1));
        }
        if exists|p: int| falls_behind_at(a, b, p) {
            let p = choose|p: int| falls_behind_at(a, b, p);
            assert(x.take(p - 1) =~= a.take(p).drop_first());
            assert(y.take(p - 1) =~= b.take(p).drop_first());
            assert(falls_behind_at(x, y, p - 1));
        }
    } else {
        assert(a.take(0) =~= b.take(0));
        if bytes_before(a, b) {
            assert(falls_behind_at(a, b, 0));
        }
        if exists|p: int| falls_behind_at(a, b, p) {
            let p = choose|p: int| falls_behind_at(a, b, p);
            if p > 0 {
                assert(a.take(p)[0] == a[0]);
                assert(b.take(p)[0] == b[0]);
            }
        }
    }
}

/// Law: a text comes before another if it has a smaller byte at the first place where they differ,
/// or ends there.
pub proof fn law_texts_are_ordered_by_their_bytes(a: &str, b: &str, before: bool)
    requires
        call_ensures(is_before, (a, b), before),
    ensures
        before <==> exists|p: int| falls_behind_at(encode_utf8(a@), encode_utf8(b@), p),
{
    lemma_bytes_before(encode_utf8(a@), encode_utf8(b@));
}

/// The suggestions whose names do not start with two underscores.
pub open spec fn shown(suggestions: Seq<Suggestion>) -> Seq<Suggestion> {
    suggestions.filter(
        |suggestion: Suggestion|
            !(suggestion.name@.len() >= 2 && suggestion.name@[0] == '_' && suggestion.name@[1]
                == '_'),
    )
}

proof fn lemma_shown(suggestions: Seq<Suggestion>)
    ensures
        visible(suggestions) == shown(suggestions),
    decreases suggestions.len(),
{
    reveal(Seq::filter);
    if suggestions.len() > 0 {
        lemma_shown(suggestions.drop_last());
        let name = suggestions.last().name@;
        reveal_strlit("__");
        if name.len() >= 2 && name[0] == '_' && name[1] == '_' {
            assert("__"@ =~= name.subrange(0, 2));
        }
        if is_hidden(name) {
            assert(name.subrange(0, 2)[0] == name[0]);
            assert(name.subrange(0, 2)[1] == name[1]);
        }
    }
    assert(visible(suggestions) =~= shown(suggestions));
}

/// Whether `label` is what stands in front of the first colon of a name, or the name itself.
pub open spec fn is_label(name: Seq<char>, label: Seq<char>) -> bool {
    &&& forall|i: int| 0 <= i < label.len() ==> #[trigger] label[i] != ':'
    &&& name == label || exists|rest: Seq<char>| name == #[trigger] (label + seq![':'] + rest)
}

proof fn lemma_label(name: Seq<char>)
    ensures
        is_label(name, label_of(name)),
{
    lemma_colon(name);
    let k = colon_index(name);
    let label = label_of(name);
    if k == name.len() {
        assert(label =~= name);
    } else {
        assert(name =~= label + seq![':'] + name.skip(k + 1));
    }
}

proof fn lemma_colon(name: Seq<char>)
    ensures
        0 <= colon_index(name) <= name.len(),
        colon_index(name) < name.len() ==> name[colon_index(name)] == ':',
        forall|i: int| 0 <= i < colon_index(name) ==> #[trigger] name[i] != ':',
    decreases name.len(),
{
    if name.len() > 0 && name[0] != ':' {
        let rest = name.drop_first();
        lemma_colon(rest);
        assert forall|i: int| 0 <= i < colon_index(name) implies #[trigger] name[i] != ':' by {
            if i > 0 {
                assert(name[i] == rest[i - 1]);
            }
        }
    }
}

/// Whether `item` shows a suggestion: under its label, with its type where it is known, and with
/// where it was asked for. What does not start with a letter is written in parentheses.
pub open spec fn is_shown(
    suggestion: Suggestion,
    uri: Seq<char>,
    position: Position,
    item: CompletionItem,
) -> bool {
    &&& is_label(suggestion.name@, item.label@)
    &&& item.label@.len() > 0 && (item.label@[0] as u32) < 128 ==> (item.insert_text is None <==> (
    'a' <= item.label@[0] <= 'z' || 'A' <= item.label@[0] <= 'Z'))
    &&& item.label@.len() == 0 ==> item.insert_text is Some
    &&& item.insert_text matches Some(text) ==> text@ == seq!['('] + item.label@ + seq![')']
    &&& item.kind == Some(ident_kind(item.label@, suggestion.meaning))
    &&& suggestion.meaning is Type ==> item.detail is Some
    &&& suggestion.meaning matches Meaning::Value(typ) ==> (item.detail is None
        <==> typ.shape is Hole)
    &&& item.detail matches Some(detail) ==> detail@ == suggestion.printed@
    &&& item.documentation is None
    &&& item.data is Some
    &&& item.data.unwrap().text_document_uri@ == uri
    &&& item.data.unwrap().position == position
}

proof fn lemma_item(
    suggestion: Suggestion,
    uri: Seq<char>,
    position: Position,
    item: CompletionItem,
)
    requires
        is_item(suggestion, uri, position, item),
    ensures
        is_shown(suggestion, uri, position, item),
{
    lemma_label(suggestion.name@);
    reveal_strlit("(");
    reveal_strlit(")");
    assert("("@ =~= seq!['(']);
    assert(")"@ =~= seq![')']);
}

/// Law: every name that is not hidden is suggested, once, and no other is. They are in the order of
/// their labels, and those with the same label in the order in which they were found.
pub proof fn law_all_names_are_suggested_in_order(
    suggestions: &Vec<Suggestion>,
    uri: &String,
    position: Position,
    items: Vec<CompletionItem>,
)
    requires
        call_ensures(completions, (suggestions, uri, position), items),
    ensures
        items@.len() == shown(suggestions@).len(),
        exists|order: Seq<int>|
            {
                &&& order.len() == items@.len()
                &&& #[trigger] order.no_duplicates()
                &&& forall|i: int|
                    0 <= i < order.len() ==> 0 <= #[trigger] order[i] < shown(suggestions@).len()
                        && is_shown(shown(suggestions@)[order[i]], uri@, position, items@[i])
                &&& forall|i: int, j: int|
                    0 <= i < j < order.len() && items@[i].label@ == items@[j].label@
                        ==> #[trigger] order[i] < #[trigger] order[j]
            },
        forall|i: int, j: int|
            0 <= i < j < items@.len() ==> !text_before(
                (#[trigger] items@[j]).label@,
                (#[trigger] items@[i]).label@,
            ),
{
    lemma_shown(suggestions@);
    let names = visible(suggestions@);
    let texts = labels(names);
    let order = choose|order: Seq<int>| #[trigger]
        is_stable_order(texts, order) && are_items(names, uri@, position, order, items@);
    assert forall|i: int| 0 <= i < order.len() implies 0 <= #[trigger] order[i] < names.len()
        && is_shown(names[order[i]], uri@, position, items@[i]) && texts[order[i]]
        == items@[i].label@ by {
        assert(is_item(names[order[i]], uri@, position, items@[i]));
        lemma_item(names[order[i]], uri@, position, items@[i]);
    }
    assert forall|i: int, j: int| 0 <= i < j < order.len() implies !text_before(
        (#[trigger] items@[j]).label@,
        (#[trigger] items@[i]).label@,
    ) && order[i] != order[j] && (items@[i].label@ == items@[j].label@ ==> order[i] < order[j]) by {
        assert(comes_first(texts, order[i], order[j]));
        assert(texts[order[i]] == items@[i].label@ && texts[order[j]] == items@[j].label@);
        law_text_order_is_total(items@[i].label@, items@[j].label@);
        law_text_order_is_total(items@[i].label@, items@[i].label@);
    }
    assert forall|i: int, j: int|
        0 <= i < j < order.len() && items@[i].label@ == items@[j].label@ implies #[trigger] order[i]
        < #[trigger] order[j] by {
        assert(items@[i] == items@[i] && items@[j] == items@[j]);
        assert(!text_before(items@[j].label@, items@[i].label@));
    }
    assert(order.no_duplicates()) by {
        assert forall|i: int, j: int|
            0 <= i < order.len() && 0 <= j < order.len() && i != j implies order[i] != order[j] by {
            if i < j {
                assert(!text_before(items@[j].label@, items@[i].label@));
            } else {
                assert(!text_before(items@[i].label@, items@[j].label@));
            }
        }
    }
}

/// Law: a completion is shown as what its label and its meaning say.
pub proof fn law_completions_have_the_kind_of_their_name(
    item: CompletionItem,
    suggestion: Suggestion,
    uri: Seq<char>,
    position: Position,
    label: &str,
    kind: CompletionItemKind,
)
    requires
        is_shown(suggestion, uri, position, item),
        label@ == item.label@,
        call_ensures(ident_to_completion_item_kind, (label, &suggestion.meaning), kind),
    ensures
        item.kind == Some(kind),
{
}

/// Law: to resolve a completion is to add the comment that was written for it, or nothing if none
/// was, and to change nothing else.
pub proof fn law_resolving_adds_the_comment(
    item: CompletionItem,
    comment: Option<&str>,
    resolved: CompletionItem,
)
    requires
        call_ensures(resolve, (item, comment), resolved),
    ensures
        resolved.documentation is Some,
        comment matches Some(comment) ==> resolved.documentation.unwrap()@ == comment@,
        comment is None ==> resolved.documentation.unwrap()@.len() == 0,
        resolved.label == item.label,
        resolved.kind == item.kind,
        resolved.detail == item.detail,
        resolved.insert_text == item.insert_text,
        resolved.data == item.data,
{
}

/// Law: the server tells its name, its version with the commit that it was built from, and that it
/// can do all that it can: an editor is to send edits one by one and to complete after dots.
pub proof fn law_server_tells_what_it_can_do(
    package_version: &str,
    commit: &str,
    built: InitializeResult,
    released: InitializeResult,
)
    requires
        call_ensures(initialize, (package_version, Some(commit)), built),
        call_ensures(initialize, (package_version, None::<&str>), released),
    ensures
        released.version@ == package_version@,
        built.version@ == package_version@ + seq!['-'] + commit@,
        built.name@ == "Gluon language server"@,
        released.name@ == built.name@,
        ({
            let able = built.capabilities;
            &&& able.text_document_sync == TextDocumentSyncKind::Incremental
            &&& able.completion_resolve && able.signature_help && able.hover
            &&& able.document_formatting && able.document_highlight && able.document_symbol
            &&& able.workspace_symbol && able.definition
            &&& able.completion_triggers@.len() == 1
            &&& able.completion_triggers@[0]@ == seq!['.']
        }),
{
    reveal_strlit("-");
    reveal_strlit(".");
    assert("-"@ =~= seq!['-']);
    assert("."@ =~= seq!['.']);
}

/// Law: an editor without a root has no directory for sources. One with a root has the directory
/// that its url stands for, and is told if it stands for none; it may not try again.
pub proof fn law_roots_are_directories(
    uri: &str,
    nothing: Result<Option<PathBuf>, ServerError<InitializeError>>,
    path: Result<Option<PathBuf>, ServerError<InitializeError>>,
    same: Result<PathBuf, ServerError<()>>,
    refused: Option<InitializeError>,
)
    requires
        call_ensures(root_path, (None::<&str>,), nothing),
        call_ensures(root_path, (Some(uri),), path),
        call_ensures(file_path, (uri,), same),
        call_ensures(invalid_params, (), refused),
    ensures
        nothing matches Ok(None),
        path is Ok <==> same is Ok,
        path matches Ok(path) ==> path is Some && path_bytes(path.unwrap()) == path_bytes(
            same->Ok_0,
        ),
        path matches Err(error) ==> error.message@ == "Unable to convert root_uri to file path"@,
        refused is Some && !refused.unwrap().retry,
{
}

} // verus!
