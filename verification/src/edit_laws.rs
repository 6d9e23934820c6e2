//! What edits do to a document.

use vstd::prelude::*;
use vstd::utf8::encode_utf8;

use crate::position::{
    fits, has_line, lemma_position_offset_bound, position_index, position_message,
};
use crate::protocol::{Range, TextDocumentContentChangeEvent};
use crate::rpc::ServerError;
use crate::text::{lemma_encode_utf8_concat, lemma_encode_utf8_injective, utf8_len};
use crate::text_edit::{
    applied, apply_change, apply_changes, are_valid_changes, edited_all, in_order, is_valid_change,
    lemma_rank, rank, replace_range, TextChanges, Version, VersionedChange,
};
use crate::text_edit_laws::{law_edits_compose, law_insertion_keeps_order};

verus! {

/// Law: an edit puts its own text in the place of the selection and leaves everything else as it
/// was, on whatever lines the selection starts and ends. In particular the document is then as long
/// as what is in front of the selection, the new text and what is behind the selection together.
pub proof fn law_edit_replaces_the_selection(
    source: &mut String,
    change: &TextDocumentContentChangeEvent,
    result: Result<(), ServerError<()>>,
    range: Range,
    before: Seq<char>,
    selected: Seq<char>,
    after: Seq<char>,
)
    requires
        call_ensures(apply_change, (source, change), result),
        change.range == Some(range),
        old(source)@ == before + selected + after,
        position_index(old(source)@, range.start) == Some(before.len() as int),
        position_index(old(source)@, range.end) == Some((before.len() + selected.len()) as int),
    ensures
        result is Ok,
        final(source)@ == before + change.text@ + after,
        final(source)@.len() == old(source)@.len() - selected.len() + change.text@.len(),
{
    let text = old(source)@;
    assert(text.take(before.len() as int) =~= before);
    assert(text.skip((before.len() + selected.len()) as int) =~= after);
}

/// Law: an edit without a selection replaces the whole document.
pub proof fn law_edit_without_selection_replaces_everything(
    source: &mut String,
    change: &TextDocumentContentChangeEvent,
    result: Result<(), ServerError<()>>,
)
    requires
        call_ensures(apply_change, (source, change), result),
        change.range is None,
    ensures
        result is Ok,
        final(source)@ == change.text@,
{
}

/// Law: an edit fails exactly if its selection starts or ends at a place that the document does not
/// have, and says which columns there are instead. An edit that fails changes nothing.
pub proof fn law_edit_fails_where_there_is_no_such_place(
    source: &mut String,
    change: &TextDocumentContentChangeEvent,
    result: Result<(), ServerError<()>>,
)
    requires
        call_ensures(apply_change, (source, change), result),
    ensures
        result is Err <==> (change.range matches Some(range) && (position_index(
            old(source)@,
            range.start,
        ) is None || position_index(old(source)@, range.end) is None)),
        result is Err ==> final(source)@ == old(source)@,
        result matches Err(error) ==> error.data is None && error.message@ == position_message(
            old(source)@,
            if position_index(old(source)@, change.range.unwrap().start) is None {
                change.range.unwrap().start
            } else {
                change.range.unwrap().end
            },
        ),
{
}

/// Law: to undo an edit is to select the text that it has put in and to put back what it replaced.
pub proof fn law_edits_can_be_undone(
    source: &mut String,
    change: &TextDocumentContentChangeEvent,
    result: Result<(), ServerError<()>>,
    edited: &mut String,
    undo: &TextDocumentContentChangeEvent,
    undone: Result<(), ServerError<()>>,
    range: Range,
    back: Range,
    i: int,
    j: int,
)
    requires
        call_ensures(apply_change, (source, change), result),
        call_ensures(apply_change, (edited, undo), undone),
        old(edited)@ == final(source)@,
        change.range == Some(range),
        undo.range == Some(back),
        0 <= i <= j <= old(source)@.len(),
        position_index(old(source)@, range.start) == Some(i),
        position_index(old(source)@, range.end) == Some(j),
        undo.text@ == old(source)@.subrange(i, j),
        position_index(old(edited)@, back.start) == Some(i),
        position_index(old(edited)@, back.end) == Some(i + change.text@.len()),
    ensures
        final(edited)@ == old(source)@,
{
    let text = old(source)@;
    let new = change.text@;
    assert(final(source)@ =~= text.take(i) + new + text.skip(j));
    assert(old(edited)@.take(i) =~= text.take(i));
    assert(old(edited)@.skip(i + new.len()) =~= text.skip(j));
    assert(final(edited)@ =~= text);
}

/// Law: an edit makes sense for a document if it replaces everything and gives no length, or if its
/// selection starts and ends at places that the document has, in this order.
pub proof fn law_valid_selections_make_sense(
    source: &str,
    change: &TextDocumentContentChangeEvent,
    valid: bool,
)
    requires
        call_ensures(is_valid_change, (source, change), valid),
    ensures
        change.range is None ==> valid == change.range_length is None,
        change.range matches Some(range) ==> position_index(
            source@,
            range.start,
        ) matches Some(i) ==> position_index(
            source@,
            range.end,
        ) matches Some(j) ==> fits(source@) ==> valid == (i <= j),
{
    if let Some(range) = change.range {
        lemma_position_offset_bound(source@, range.start);
        lemma_position_offset_bound(source@, range.end);
    }
}

/// Law: no edits leave a document as it is.
pub proof fn law_no_edits_change_nothing(
    source: &mut String,
    changes: &[TextDocumentContentChangeEvent],
    result: Result<(), ServerError<()>>,
)
    requires
        call_ensures(apply_changes, (source, changes), result),
        changes@.len() == 0,
    ensures
        result is Ok,
        final(source)@ == old(source)@,
{
}

/// Law: a list of one edit does what the edit does.
pub proof fn law_one_edit_of_a_list(
    source: &mut String,
    changes: &[TextDocumentContentChangeEvent],
    result: Result<(), ServerError<()>>,
    alone: &mut String,
    change: &TextDocumentContentChangeEvent,
    same: Result<(), ServerError<()>>,
)
    requires
        call_ensures(apply_changes, (source, changes), result),
        call_ensures(apply_change, (alone, change), same),
        changes@ == seq![*change],
        old(source)@ == old(alone)@,
    ensures
        final(source)@ == final(alone)@,
        result is Ok <==> same is Ok,
        result matches Err(error) ==> error.message@ == same->Err_0.message@,
{
    assert(changes@.drop_first() =~= Seq::<TextDocumentContentChangeEvent>::empty());
    reveal_with_fuel(edited_all, 2);
}

/// Law: a list of edits may be cut in two. Those behind the cut see what those in front of it leave,
/// and are not made where one of the latter fails.
pub proof fn law_lists_of_edits_may_be_cut(
    source: &mut String,
    changes: &[TextDocumentContentChangeEvent],
    result: Result<(), ServerError<()>>,
    first: &mut String,
    front: &[TextDocumentContentChangeEvent],
    halfway: Result<(), ServerError<()>>,
    second: &mut String,
    back: &[TextDocumentContentChangeEvent],
    end: Result<(), ServerError<()>>,
)
    requires
        call_ensures(apply_changes, (source, changes), result),
        call_ensures(apply_changes, (first, front), halfway),
        call_ensures(apply_changes, (second, back), end),
        changes@ == front@ + back@,
        old(source)@ == old(first)@,
        final(first)@ == old(second)@,
    ensures
        halfway is Err ==> final(source)@ == final(first)@ && result is Err,
        halfway is Ok ==> final(source)@ == final(second)@ && (result is Ok <==> end is Ok),
{
    law_edits_compose(old(source)@, front@, back@);
}

/// Law: a list of edits makes sense if its first edit does, and the others do for what that leaves.
pub proof fn law_each_edit_has_to_make_sense(
    source: &str,
    changes: &[TextDocumentContentChangeEvent],
    valid: bool,
    first: bool,
    edited: &mut String,
    result: Result<(), ServerError<()>>,
    left: &str,
    rest: &[TextDocumentContentChangeEvent],
    others: bool,
)
    requires
        changes@.len() > 0,
        call_ensures(are_valid_changes, (source, changes), valid),
        call_ensures(is_valid_change, (source, &changes@[0]), first),
        call_ensures(apply_change, (edited, &changes@[0]), result),
        call_ensures(are_valid_changes, (left, rest), others),
        old(edited)@ == source@,
        left@ == final(edited)@,
        changes@ == seq![changes@[0]] + rest@,
    ensures
        valid == (first && (result is Ok ==> others)),
{
    assert(changes@.drop_first() =~= rest@);
}

/// Law: bytes are replaced in place.
pub proof fn law_bytes_are_replaced(
    text: &mut String,
    start: usize,
    end: usize,
    replace_with: &str,
    before: Seq<char>,
    replaced: Seq<char>,
    after: Seq<char>,
)
    requires
        call_ensures(replace_range, (text, start, end, replace_with), ()),
        old(text)@ == before + replaced + after,
        start == utf8_len(before),
        end == utf8_len(before + replaced),
    ensures
        final(text)@ == before + replace_with@ + after,
{
    lemma_encode_parts(before, replaced, after);
    lemma_encode_parts(before, replace_with@, after);
    let bytes = encode_utf8(old(text)@);
    assert(bytes.take(start as int) =~= encode_utf8(before));
    assert(bytes.skip(end as int) =~= encode_utf8(after));
    lemma_encode_utf8_injective(final(text)@, before + replace_with@ + after);
}

proof fn lemma_encode_parts(a: Seq<char>, b: Seq<char>, c: Seq<char>)
    ensures
        encode_utf8(a + b + c) == encode_utf8(a)
            + encode_utf8(b) + encode_utf8(c),
        encode_utf8(a + b) == encode_utf8(a)
            + encode_utf8(b),
{
    lemma_encode_utf8_concat(a, b);
    lemma_encode_utf8_concat(a + b, c);
}

/// Law: an edit that is kept joins those that wait. None of them is lost or changed, and they stay
/// in the order of their versions.
pub proof fn law_kept_edits_are_not_lost(
    changes: &mut TextChanges,
    version: Version,
    content_changes: Vec<TextDocumentContentChangeEvent>,
)
    requires
        call_ensures(TextChanges::add, (changes, version, content_changes), ()),
        in_order(old(changes)@),
    ensures
        final(changes)@.to_multiset() == old(changes)@.to_multiset().insert(
            VersionedChange { version, content_changes },
        ),
        forall|i: int, j: int|
            0 <= i <= j < final(changes)@.len() ==> (#[trigger] final(changes)@[i]).version <= (
            #[trigger] final(changes)@[j]).version,
{
    broadcast use vstd::seq_lib::group_to_multiset_ensures;

    lemma_rank(old(changes)@, version);
    law_insertion_keeps_order(
        old(changes)@,
        VersionedChange { version, content_changes },
    );
    let change = VersionedChange { version, content_changes };
    old(changes)@.to_multiset_ensures();
    lemma_insert_multiset(old(changes)@, rank(old(changes)@, version) as int, change);
}

proof fn lemma_insert_multiset(
    changes: Seq<VersionedChange>,
    i: int,
    change: VersionedChange,
)
    requires
        0 <= i <= changes.len(),
    ensures
        changes.insert(i, change).to_multiset() == changes.to_multiset().insert(change),
{
    broadcast use vstd::seq_lib::group_to_multiset_ensures;

    let more = changes.insert(i, change);
    assert(more.remove(i) =~= changes);
    assert(more[i] == change);
    assert(more.contains(change));
    assert(more.remove(i).to_multiset() =~= more.to_multiset().remove(change));
    assert(more.to_multiset() =~= changes.to_multiset().insert(change));
}

/// Law: an edit is accepted if it changes nothing, or if none that waits has its version.
pub proof fn law_versions_may_not_repeat(
    changes: &TextChanges,
    version: Version,
    content_changes: &Vec<TextDocumentContentChangeEvent>,
    accepted: bool,
)
    requires
        call_ensures(TextChanges::accepts, (changes, version, content_changes), accepted),
    ensures
        !accepted <==> content_changes@.len() > 0 && exists|i: int|
            0 <= i < changes@.len() && (#[trigger] changes@[i]).version == version,
{
}

/// The edits of several versions, one after the other.
pub open spec fn all_edits(changes: Seq<VersionedChange>) -> Seq<TextDocumentContentChangeEvent> {
    changes.map_values(|change: VersionedChange| change.content_changes@).flatten()
}

/// Law: of the edits that wait those are taken, from the oldest on, between which no version is
/// missing, up to the first that fails. The document is then what all edits of the versions taken
/// make of it, one after the other, and has the version of the last of them. The others wait on.
pub proof fn law_waiting_edits_are_made_in_order(
    changes: &mut TextChanges,
    source: &mut String,
    version: Version,
    reached: Result<Version, ServerError<()>>,
)
    requires
        call_ensures(TextChanges::apply_changes, (changes, source, version), reached),
    ensures
        ({
            let waiting = old(changes)@;
            let taken = waiting.len() - final(changes)@.len();
            let made = edited_all(old(source)@, all_edits(waiting.take(taken)));
            &&& 0 <= taken <= waiting.len()
            &&& final(changes)@ == waiting.skip(taken)
            &&& forall|k: int|
                0 <= k < taken ==> (#[trigger] waiting[k]).version <= 1 + version_before(
                    waiting,
                    version,
                    k,
                )
            &&& final(source)@ == made.text
            &&& match reached {
                Ok(reached) => {
                    &&& made.error is None
                    &&& reached == version_before(waiting, version, taken)
                    &&& taken < waiting.len() ==> waiting[taken].version > reached + 1
                },
                Err(error) => made.error == Some(error.message@),
            }
        }),
{
    lemma_edits_taken(old(changes)@, old(source)@, version);
}

/// The version that a document of version `version` has once the first `k` of the edits that wait
/// have been made.
pub open spec fn version_before(
    waiting: Seq<VersionedChange>,
    version: Version,
    k: int,
) -> Version {
    if k == 0 {
        version
    } else {
        waiting[k - 1].version
    }
}

proof fn lemma_edits_taken(waiting: Seq<VersionedChange>, text: Seq<char>, version: Version)
    ensures
        ({
            let result = applied(waiting, text, version);
            let taken = waiting.len() - result.waiting.len();
            let made = edited_all(text, all_edits(waiting.take(taken)));
            &&& 0 <= taken <= waiting.len()
            &&& result.waiting == waiting.skip(taken)
            &&& forall|k: int|
                0 <= k < taken ==> (#[trigger] waiting[k]).version <= 1 + version_before(
                    waiting,
                    version,
                    k,
                )
            &&& result.text == made.text
            &&& result.error == made.error
            &&& result.error is None ==> result.version == version_before(waiting, version, taken)
            &&& result.error is None && taken < waiting.len() ==> waiting[taken].version
                > result.version + 1
        }),
    decreases waiting.len(),
{
    let edits = |change: VersionedChange| change.content_changes@;
    let result = applied(waiting, text, version);
    let taken = waiting.len() - result.waiting.len();
    if waiting.len() == 0 || waiting[0].version > version + 1 {
        assert(waiting.skip(0) =~= waiting);
        assert(waiting.take(0).map_values(edits) =~= Seq::empty());
    } else {
        let first = waiting[0].content_changes@;
        let step = edited_all(text, first);
        let rest = waiting.drop_first();
        if step.error is Some {
            assert(rest =~= waiting.skip(1));
            let one = waiting.take(1).map_values(edits);
            assert(one =~= seq![first]);
            let none = one.drop_first();
            assert(none =~= Seq::empty());
            assert(none.flatten() =~= Seq::<TextDocumentContentChangeEvent>::empty());
            assert(one.flatten() =~= first);
        } else {
            lemma_edits_taken(rest, step.text, waiting[0].version);
            let count = rest.len() - result.waiting.len();
            assert(rest.skip(count) =~= waiting.skip(taken));
            let all = waiting.take(taken).map_values(edits);
            assert(all.drop_first() =~= rest.take(count).map_values(edits));
            assert(all.flatten() =~= first + all_edits(rest.take(count)));
            law_edits_compose(text, first, all_edits(rest.take(count)));
            assert forall|k: int| 0 <= k < taken implies (#[trigger] waiting[k]).version <= 1
                + version_before(waiting, version, k) by {
                if k > 0 {
                    assert(rest[k - 1] == waiting[k]);
                    assert(rest[k - 1].version <= 1 + version_before(
                        rest,
                        waiting[0].version,
                        k - 1,
                    ));
                    if k > 1 {
                        assert(rest[k - 2] == waiting[k - 1]);
                    }
                }
            }
            if count > 0 {
                assert(rest[count - 1] == waiting[taken - 1]);
            }
            if taken < waiting.len() {
                assert(rest[count] == waiting[taken]);
            }
        }
    }
}

/// Law: an edit makes sense for a document that is not too long exactly if the line of its start
/// exists, and, where the start is a place of the document, the line of its end exists and does not
/// name a place in front of it.
pub proof fn law_selections_make_sense(
    source: &str,
    change: &TextDocumentContentChangeEvent,
    valid: bool,
    range: Range,
    starts: bool,
    ends: bool,
)
    requires
        call_ensures(is_valid_change, (source, change), valid),
        change.range == Some(range),
        call_ensures(has_line, (source, range.start.line), starts),
        call_ensures(has_line, (source, range.end.line), ends),
    ensures
        valid <==> fits(source@) && starts && (position_index(source@, range.start) is Some ==> ends
            && (position_index(source@, range.end) is Some ==> position_index(
            source@,
            range.start,
        ).unwrap() <= position_index(source@, range.end).unwrap())),
{
}

/// Law: edits that wait can be applied if there are none. Else the oldest may not be older than the
/// document; and if no version is missing in front of it, it has to make sense, and the others have
/// to be applicable to what it leaves.
pub proof fn law_when_edits_can_be_applied(
    changes: &TextChanges,
    source: &str,
    version: Version,
    possible: bool,
    edits: &[TextDocumentContentChangeEvent],
    sensible: bool,
    edited: &mut String,
    result: Result<(), ServerError<()>>,
    others: &TextChanges,
    left: &str,
    rest_possible: bool,
)
    requires
        call_ensures(TextChanges::can_apply, (changes, source, version), possible),
        changes@.len() > 0 ==> {
            &&& edits@ == changes@[0].content_changes@
            &&& call_ensures(are_valid_changes, (source, edits), sensible)
            &&& old(edited)@ == source@
            &&& call_ensures(apply_changes, (edited, edits), result)
            &&& others@ == changes@.skip(1)
            &&& left@ == final(edited)@
            &&& call_ensures(
                TextChanges::can_apply,
                (others, left, changes@[0].version),
                rest_possible,
            )
        },
    ensures
        changes@.len() == 0 ==> possible,
        changes@.len() > 0 ==> possible == (version < Version::MAX && version
            <= changes@[0].version && (changes@[0].version <= version + 1 ==> sensible && (
        result is Ok ==> rest_possible))),
{
    if changes@.len() > 0 {
        assert(changes@.skip(1) =~= changes@.drop_first());
    }
}

/// Law: to ask what could be applied with one more edit is to ask it once the edit has been added.
pub proof fn law_edits_can_be_applied_once_added(
    changes: &TextChanges,
    change: &VersionedChange,
    source: &str,
    version: Version,
    possible: bool,
    added: &mut TextChanges,
    more: &TextChanges,
    possible_then: bool,
)
    requires
        call_ensures(TextChanges::can_apply_with, (changes, change, source, version), possible),
        old(added)@ == changes@,
        call_ensures(TextChanges::add, (added, change.version, change.content_changes), ()),
        more@ == final(added)@,
        call_ensures(TextChanges::can_apply, (more, source, version), possible_then),
    ensures
        possible == possible_then,
{
}

/// Law: at first no edits wait.
pub proof fn law_no_edits_wait_at_first(changes: TextChanges)
    requires
        call_ensures(TextChanges::new, (), changes),
    ensures
        changes@.len() == 0,
{
}

} // verus!
