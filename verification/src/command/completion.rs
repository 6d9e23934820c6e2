//! Completion of what is being written.

use vstd::prelude::*;

use crate::command::{
    documentation, ident_kind, ident_to_completion_item_kind, make_documentation,
    starts_alphabetic, starts_with_alphabetic, CompletionItemKind, Meaning, TypeShape,
};
use crate::order::{is_before, is_stable_order, lemma_stable_insert, text_before};
use crate::protocol::Position;
use crate::text::{push_char, to_chars};

verus! {

/// What has to be known in order to say more of a completion: where it was asked for.
#[derive(Debug, PartialEq, Eq)]
pub struct CompletionData {
    pub text_document_uri: String,
    pub position: Position,
}

/// A name that may be meant, as the compiler knows it.
pub struct Suggestion {
    /// The name, behind which a colon and the place of its declaration may stand.
    pub name: String,
    pub meaning: Meaning,
    /// Its type, or the kind of the type that it stands for.
    pub printed: String,
}

/// A name that may be meant, as it is shown.
#[derive(Debug, PartialEq, Eq)]
pub struct CompletionItem {
    pub label: String,
    pub kind: Option<CompletionItemKind>,
    pub detail: Option<String>,
    /// What is written in place of the label.
    pub insert_text: Option<String>,
    /// A text in markdown.
    pub documentation: Option<String>,
    pub data: Option<CompletionData>,
}

/// Whether a name is one that programs are not meant to use.
pub open spec fn is_hidden(name: Seq<char>) -> bool {
    "__"@.is_prefix_of(name)
}

/// The names that are not hidden.
pub open spec fn visible(suggestions: Seq<Suggestion>) -> Seq<Suggestion>
    decreases suggestions.len(),
{
    if suggestions.len() == 0 {
        Seq::empty()
    } else {
        let front = visible(suggestions.drop_last());
        if is_hidden(suggestions.last().name@) {
            front
        } else {
            front.push(suggestions.last())
        }
    }
}

/// The number of characters in front of the first colon.
pub open spec fn colon_index(name: Seq<char>) -> int
    decreases name.len(),
{
    if name.len() == 0 || name[0] == ':' {
        0
    } else {
        1 + colon_index(name.drop_first())
    }
}

/// A name without the place of its declaration.
pub open spec fn label_of(name: Seq<char>) -> Seq<char> {
    name.take(colon_index(name))
}

/// The labels of several names.
pub open spec fn labels(suggestions: Seq<Suggestion>) -> Seq<Seq<char>> {
    suggestions.map_values(|suggestion: Suggestion| label_of(suggestion.name@))
}

/// Whether `item` shows a name, which was asked for at a place of the document at `uri`. What does
/// not start with a letter is an operator, and is written in parentheses.
pub open spec fn is_item(
    suggestion: Suggestion,
    uri: Seq<char>,
    position: Position,
    item: CompletionItem,
) -> bool {
    let label = label_of(suggestion.name@);
    &&& item.label@ == label
    &&& item.kind == Some(ident_kind(label, suggestion.meaning))
    &&& match item.insert_text {
        None => starts_alphabetic(label),
        Some(text) => !starts_alphabetic(label) && text@ == "("@ + label + ")"@,
    }
    &&& match item.detail {
        None => suggestion.meaning matches Meaning::Value(typ) && typ.shape is Hole,
        Some(detail) => !(suggestion.meaning matches Meaning::Value(typ) && typ.shape is Hole)
            && detail@ == suggestion.printed@,
    }
    &&& item.documentation is None
    &&& item.data matches Some(data) && data.text_document_uri@ == uri && data.position == position
}

/// A name without the place of its declaration.
fn label(name: &str) -> (label: String)
    ensures
        label@ == label_of(name@),
{
    let chars = to_chars(name);
    let mut label = String::new();
    let mut i: usize = 0;
    assert(name@.skip(0) =~= name@);
    while i < chars.len() && chars[i] != ':'
        invariant
            chars@ == name@,
            i <= chars@.len(),
            label@ =~= name@.take(i as int),
            colon_index(name@) == i + colon_index(name@.skip(i as int)),
        decreases chars@.len() - i,
    {
        assert(name@.skip(i as int).drop_first() =~= name@.skip(i + 1));
        push_char(&mut label, chars[i]);
        i += 1;
    }
    label
}

fn has_hidden_name(name: &str) -> (hidden: bool)
    ensures
        hidden == is_hidden(name@),
{
    let chars = to_chars(name);
    proof {
        reveal_strlit("__");
    }
    let hidden = chars.len() >= 2 && chars[0] == '_' && chars[1] == '_';
    proof {
        if chars@.len() >= 2 {
            assert(name@.subrange(0, 2)[0] == name@[0]);
            assert(name@.subrange(0, 2)[1] == name@[1]);
        }
        if hidden {
            assert("__"@ =~= name@.subrange(0, 2));
        }
    }
    hidden
}

fn item(suggestion: &Suggestion, uri: &String, position: Position) -> (item: CompletionItem)
    ensures
        is_item(*suggestion, uri@, position, item),
{
    let label = label(suggestion.name.as_str());
    let insert_text = if starts_with_alphabetic(label.as_str()) {
        None
    } else {
        let mut text = "(".to_owned();
        text.append(label.as_str());
        text.append(")");
        Some(text)
    };
    let kind = ident_to_completion_item_kind(label.as_str(), &suggestion.meaning);
    let unknown = match &suggestion.meaning {
        Meaning::Value(typ) => match &typ.shape {
            TypeShape::Hole => true,
            _ => false,
        },
        Meaning::Type => false,
    };
    CompletionItem {
        label,
        kind: Some(kind),
        detail: if unknown {
            None
        } else {
            Some(suggestion.printed.clone())
        },
        insert_text,
        documentation: None,
        data: Some(CompletionData { text_document_uri: uri.clone(), position }),
    }
}

/// Whether `items` show several names in the order `order`.
pub open spec fn are_items(
    suggestions: Seq<Suggestion>,
    uri: Seq<char>,
    position: Position,
    order: Seq<int>,
    items: Seq<CompletionItem>,
) -> bool {
    &&& items.len() == order.len()
    &&& forall|i: int|
        0 <= i < items.len() ==> is_item(
            suggestions[order[i]],
            uri,
            position,
            #[trigger] items[i],
        )
}

/// What is shown for the names that may be meant at a place of the document at `uri`: those that
/// are not hidden, in the order of their labels. Names with the same label keep their order.
pub fn completions(suggestions: &Vec<Suggestion>, uri: &String, position: Position) -> (items: Vec<
    CompletionItem,
>)
    ensures
        exists|order: Seq<int>| #[trigger]
            is_stable_order(labels(visible(suggestions@)), order) && are_items(
                visible(suggestions@),
                uri@,
                position,
                order,
                items@,
            ),
{
    let mut items: Vec<CompletionItem> = Vec::new();
    let ghost mut order: Seq<int> = Seq::empty();
    let mut i: usize = 0;
    assert(suggestions@.take(0) =~= Seq::<Suggestion>::empty());
    assert(labels(Seq::<Suggestion>::empty()) =~= Seq::<Seq<char>>::empty());
    while i < suggestions.len()
        invariant
            i <= suggestions@.len(),
            is_stable_order(labels(visible(suggestions@.take(i as int))), order),
            are_items(visible(suggestions@.take(i as int)), uri@, position, order, items@),
        decreases suggestions@.len() - i,
    {
        let suggestion: &Suggestion = &suggestions[i];
        let ghost front = visible(suggestions@.take(i as int));
        assert(suggestions@.take(i + 1).drop_last() =~= suggestions@.take(i as int));
        if !has_hidden_name(suggestion.name.as_str()) {
            let item = item(suggestion, uri, position);
            let ghost texts = labels(front);
            let place = place_of(&items, item.label.as_str());
            proof {
                assert forall|j: int| 0 <= j < order.len() implies texts[#[trigger] order[j]]
                    == items@[j].label@ by {
                    assert(is_item(front[order[j]], uri@, position, items@[j]));
                }
                lemma_labels_ascend(texts, order, items@);
                lemma_place(items@, item.label@, place as int);
                lemma_stable_insert(texts, order, item.label@, place as int);
                let more = front.push(*suggestion);
                assert(labels(more) =~= texts.push(item.label@));
                let new_order = order.insert(place as int, texts.len() as int);
                let new_items = items@.insert(place as int, item);
                assert forall|j: int| 0 <= j < new_items.len() implies is_item(
                    more[new_order[j]],
                    uri@,
                    position,
                    #[trigger] new_items[j],
                ) by {
                    let j0 = if j < place {
                        j
                    } else {
                        j - 1
                    };
                    if j != place {
                        assert(is_item(front[order[j0]], uri@, position, items@[j0]));
                        assert(0 <= order[j0] < front.len());
                    }
                }
                order = new_order;
            }
            items.insert(place, item);
        }
        i += 1;
    }
    assert(suggestions@.take(suggestions@.len() as int) =~= suggestions@);
    items
}

/// The labels of items do not descend.
pub open spec fn labels_ascend(items: Seq<CompletionItem>) -> bool {
    forall|i: int, j: int|
        0 <= i < j < items.len() ==> !text_before(
            (#[trigger] items[j]).label@,
            (#[trigger] items[i]).label@,
        )
}

proof fn lemma_labels_ascend(texts: Seq<Seq<char>>, order: Seq<int>, items: Seq<CompletionItem>)
    requires
        is_stable_order(texts, order),
        items.len() == order.len(),
        forall|j: int| 0 <= j < order.len() ==> texts[#[trigger] order[j]] == items[j].label@,
    ensures
        labels_ascend(items),
{
    assert forall|i: int, j: int| 0 <= i < j < items.len() implies !text_before(
        (#[trigger] items[j]).label@,
        (#[trigger] items[i]).label@,
    ) by {
        assert(crate::order::comes_first(texts, order[i], order[j]));
        crate::order::law_text_order_is_total(items[i].label@, items[j].label@);
    }
}

/// The place of a label behind all those that do not come after it, from the begin on.
fn place_of(items: &Vec<CompletionItem>, label: &str) -> (place: usize)
    ensures
        place <= items@.len(),
        forall|j: int| 0 <= j < place ==> !text_before(label@, (#[trigger] items@[j]).label@),
        place < items@.len() ==> text_before(label@, items@[place as int].label@),
{
    let mut i: usize = 0;
    while i < items.len() && !is_before(label, items[i].label.as_str())
        invariant
            i <= items@.len(),
            forall|j: int| 0 <= j < i ==> !text_before(label@, (#[trigger] items@[j]).label@),
        decreases items@.len() - i,
    {
        i += 1;
    }
    i
}

proof fn lemma_place(items: Seq<CompletionItem>, label: Seq<char>, place: int)
    requires
        labels_ascend(items),
        0 <= place <= items.len(),
        place < items.len() ==> text_before(label, items[place].label@),
    ensures
        forall|j: int| place <= j < items.len() ==> text_before(label, (#[trigger] items[j]).label@),
{
    assert forall|j: int| place <= j < items.len() implies text_before(
        label,
        (#[trigger] items[j]).label@,
    ) by {
        if place < j {
            let first = items[place].label@;
            let other = items[j].label@;
            assert(!text_before(other, first));
            crate::order::law_text_order_is_total(first, other);
            if text_before(first, other) {
                crate::order::law_text_order_is_transitive(label, first, other);
            }
        }
    }
}

/// A completion with its documentation, which is the comment that was written for it.
pub fn resolve(item: CompletionItem, comment: Option<&str>) -> (resolved: CompletionItem)
    ensures
        resolved.documentation matches Some(text) && text@ == documentation(
            None,
            match comment {
                Some(comment) => comment@,
                None => Seq::empty(),
            },
        ),
        resolved == (CompletionItem { documentation: resolved.documentation, ..item }),
{
    let empty = String::new();
    let text = match comment {
        Some(comment) => make_documentation(None, comment),
        None => make_documentation(None, empty.as_str()),
    };
    CompletionItem { documentation: Some(text), ..item }
}

/// Law: hidden names are not shown, and all others are.
pub proof fn law_visible_suggestions(suggestions: Seq<Suggestion>, suggestion: Suggestion)
    ensures
        visible(suggestions).contains(suggestion) <==> suggestions.contains(suggestion)
            && !is_hidden(suggestion.name@),
    decreases suggestions.len(),
{
    if suggestions.len() > 0 {
        let front = suggestions.drop_last();
        let last = suggestions.last();
        law_visible_suggestions(front, suggestion);
        let shown = visible(suggestions);
        let shown_in_front = visible(front);
        if shown_in_front.contains(suggestion) {
            let i = choose|i: int| 0 <= i < shown_in_front.len() && shown_in_front[i] == suggestion;
            assert(shown[i] == suggestion);
        }
        if front.contains(suggestion) {
            let i = choose|i: int| 0 <= i < front.len() && front[i] == suggestion;
            assert(suggestions[i] == suggestion);
        }
        if suggestions.contains(suggestion) && !front.contains(suggestion) {
            let i = choose|i: int| 0 <= i < suggestions.len() && suggestions[i] == suggestion;
            if i < front.len() {
                assert(front[i] == suggestion);
            }
            assert(suggestion == last);
            if !is_hidden(suggestion.name@) {
                assert(shown[shown.len() - 1] == suggestion);
            }
        }
        if shown.contains(suggestion) && !shown_in_front.contains(suggestion) {
            let i = choose|i: int| 0 <= i < shown.len() && shown[i] == suggestion;
            if i < shown_in_front.len() {
                assert(shown_in_front[i] == suggestion);
            }
            assert(suggestion == last);
            assert(suggestions[suggestions.len() - 1] == suggestion);
        }
    }
}

} // verus!
