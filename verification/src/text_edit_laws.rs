//! What holds of edits, in whatever order they arrive.

use vstd::prelude::*;

use crate::protocol::TextDocumentContentChangeEvent;
use crate::text_edit::{
    applicable, applied, changes_are_valid, edited, edited_all, in_order, lemma_rank, lemma_rank_is,
    rank, with_change, Applied, Version, VersionedChange,
};

verus! {

/// The edits with several more among them, which arrive in the given order.
pub open spec fn with_changes(
    changes: Seq<VersionedChange>,
    arrived: Seq<VersionedChange>,
) -> Seq<VersionedChange>
    decreases arrived.len(),
{
    if arrived.len() == 0 {
        changes
    } else {
        with_changes(with_change(changes, arrived[0]), arrived.drop_first())
    }
}

/// No two edits have the same version.
pub open spec fn distinct_versions(changes: Seq<VersionedChange>) -> bool {
    forall|i: int, j: int|
        0 <= i < j < changes.len() ==> (#[trigger] changes[i]).version != (
        #[trigger] changes[j]).version
}

/// Law: it does not matter in which order edits of different versions arrive, however many they
/// are. If `b` are the edits of `a` in another order, both leave the same edits waiting, and so make
/// the same of any document.
pub proof fn law_arrival_order_is_irrelevant(
    changes: Seq<VersionedChange>,
    a: Seq<VersionedChange>,
    b: Seq<VersionedChange>,
)
    requires
        in_order(changes),
        distinct_versions(a),
        a.to_multiset() == b.to_multiset(),
    ensures
        with_changes(changes, a) == with_changes(changes, b),
        forall|text: Seq<char>, version: Version| #[trigger]
            applied(with_changes(changes, a), text, version) == applied(
                with_changes(changes, b),
                text,
                version,
            ),
    decreases a.len(),
{
    broadcast use vstd::seq_lib::group_to_multiset_ensures;

    assert(a.to_multiset().len() == a.len() && b.to_multiset().len() == b.len());
    if a.len() > 0 {
        let first = a[0];
        assert(a.to_multiset().count(first) > 0);
        assert(b.contains(first));
        let i = choose|i: int| 0 <= i < b.len() && b[i] == first;
        assert(a.remove(0) =~= a.drop_first());
        assert(a.drop_first().to_multiset() =~= b.remove(i).to_multiset());
        lemma_versions_of_permutation(a, b, i);
        lemma_arrives_first(changes, b, i);
        law_insertion_keeps_order(changes, first);
        law_arrival_order_is_irrelevant(with_change(changes, first), a.drop_first(), b.remove(i));
    }
}

/// Where edits of different versions are put in another order, no edit but itself has the version of
/// the first.
proof fn lemma_versions_of_permutation(
    a: Seq<VersionedChange>,
    b: Seq<VersionedChange>,
    i: int,
)
    requires
        distinct_versions(a),
        a.len() > 0,
        a.to_multiset() == b.to_multiset(),
        0 <= i < b.len(),
        b[i] == a[0],
    ensures
        forall|j: int| 0 <= j < b.len() && j != i ==> (#[trigger] b[j]).version != b[i].version,
        distinct_versions(a.drop_first()),
{
    broadcast use vstd::seq_lib::group_to_multiset_ensures;

    let rest = a.drop_first();
    assert(a.remove(0) =~= rest);
    assert(rest.to_multiset() =~= b.remove(i).to_multiset());
    assert forall|j: int| 0 <= j < b.len() && j != i implies (#[trigger] b[j]).version
        != b[i].version by {
        let others = b.remove(i);
        let j0 = if j < i {
            j
        } else {
            j - 1
        };
        assert(others[j0] == b[j]);
        assert(others.contains(b[j]));
        assert(rest.to_multiset().count(b[j]) > 0);
        assert(rest.contains(b[j]));
        let k = choose|k: int| 0 <= k < rest.len() && rest[k] == b[j];
        assert(a[k + 1] == b[j]);
        assert(a[0].version != a[k + 1].version);
    }
    assert forall|m: int, n: int| 0 <= m < n < rest.len() implies (#[trigger] rest[m]).version != (
    #[trigger] rest[n]).version by {
        assert(rest[m] == a[m + 1] && rest[n] == a[n + 1]);
    }
}

/// An edit whose version no other has may as well arrive first.
proof fn lemma_arrives_first(changes: Seq<VersionedChange>, arrived: Seq<VersionedChange>, i: int)
    requires
        in_order(changes),
        0 <= i < arrived.len(),
        forall|j: int|
            0 <= j < arrived.len() && j != i ==> (#[trigger] arrived[j]).version
                != arrived[i].version,
    ensures
        with_changes(changes, arrived) == with_changes(
            with_change(changes, arrived[i]),
            arrived.remove(i),
        ),
    decreases i,
{
    if i == 0 {
        assert(arrived.remove(0) =~= arrived.drop_first());
    } else {
        let first = arrived[0];
        let rest = arrived.drop_first();
        law_insertion_keeps_order(changes, first);
        assert(rest[i - 1] == arrived[i]);
        assert forall|j: int| 0 <= j < rest.len() && j != i - 1 implies (#[trigger] rest[j]).version
            != rest[i - 1].version by {
            assert(rest[j] == arrived[j + 1]);
        }
        lemma_arrives_first(with_change(changes, first), rest, i - 1);
        lemma_two_arrive(changes, first, arrived[i]);
        assert(arrived.remove(i)[0] == first);
        assert(arrived.remove(i).drop_first() =~= rest.remove(i - 1));
    }
}

/// Two edits of different versions may arrive either way round.
proof fn lemma_two_arrive(changes: Seq<VersionedChange>, a: VersionedChange, b: VersionedChange)
    requires
        in_order(changes),
        a.version != b.version,
    ensures
        with_change(with_change(changes, a), b) == with_change(with_change(changes, b), a),
{
    if a.version < b.version {
        lemma_insert_twice(changes, a, b);
    } else {
        lemma_insert_twice(changes, b, a);
    }
}

proof fn lemma_insert_twice(changes: Seq<VersionedChange>, a: VersionedChange, b: VersionedChange)
    requires
        in_order(changes),
        a.version < b.version,
    ensures
        with_change(with_change(changes, a), b) == with_change(with_change(changes, b), a),
{
    lemma_rank(changes, a.version);
    lemma_rank(changes, b.version);
    let i = rank(changes, a.version) as int;
    let j = rank(changes, b.version) as int;
    assert(i <= j) by {
        if j < i {
            assert(changes[j].version < a.version);
        }
    }
    let with_a = with_change(changes, a);
    let with_b = with_change(changes, b);
    law_insertion_keeps_order(changes, a);
    law_insertion_keeps_order(changes, b);
    assert forall|k: int| 0 <= k < j + 1 implies (#[trigger] with_a[k]).version < b.version by {
        if k < i {
            assert(with_a[k] == changes[k]);
        } else if k > i {
            assert(with_a[k] == changes[k - 1]);
        }
    }
    if j + 1 < with_a.len() {
        assert(with_a[j + 1] == changes[j]);
    }
    lemma_rank_is(with_a, b.version, j + 1);
    assert forall|k: int| 0 <= k < i implies (#[trigger] with_b[k]).version < a.version by {
        assert(with_b[k] == changes[k]);
    }
    if i < j {
        assert(with_b[i] == changes[i]);
    }
    lemma_rank_is(with_b, a.version, i);
    assert(with_change(with_a, b) =~= with_change(with_b, a));
}

/// Law: the edits that wait stay in the order of their versions when one more joins them.
pub proof fn law_insertion_keeps_order(changes: Seq<VersionedChange>, change: VersionedChange)
    requires
        in_order(changes),
    ensures
        in_order(with_change(changes, change)),
{
    lemma_rank(changes, change.version);
    let i = rank(changes, change.version) as int;
    let more = with_change(changes, change);
    assert forall|a: int, b: int| 0 <= a <= b < more.len() implies (#[trigger] more[a]).version <= (
    #[trigger] more[b]).version by {
        let a0 = if a < i {
            a
        } else {
            a - 1
        };
        let b0 = if b < i {
            b
        } else {
            b - 1
        };
        if a != i && b != i {
            assert(changes[a0].version <= changes[b0].version);
        } else if a != i {
            assert(changes[a0].version < change.version);
        } else if b != i {
            assert(change.version <= changes[b0].version);
        }
    }
}

/// Law: an edit waits until the versions in front of it have arrived. With a version missing,
/// nothing happens to the document.
pub proof fn law_edits_wait_for_earlier_ones(
    waiting: Seq<VersionedChange>,
    text: Seq<char>,
    version: Version,
)
    requires
        waiting.len() > 0,
        waiting[0].version > version + 1,
    ensures
        applied(waiting, text, version) == (Applied { waiting, text, version, error: None }),
{
}

/// Law: the version never goes back, what is left waits for a version that is missing, and the
/// document ends with the version of the last edit taken.
pub proof fn law_only_a_gap_stops_edits(
    waiting: Seq<VersionedChange>,
    text: Seq<char>,
    version: Version,
)
    requires
        applicable(waiting, text, version),
    ensures
        ({
            let result = applied(waiting, text, version);
            let taken = waiting.len() - result.waiting.len();
            &&& result.version >= version
            &&& 0 <= taken <= waiting.len()
            &&& result.waiting == waiting.skip(taken)
            &&& taken > 0 ==> result.version == waiting[taken - 1].version
            &&& taken == 0 ==> result.version == version && result.text == text
            &&& result.error is None && result.waiting.len() > 0 ==> result.waiting[0].version
                > result.version + 1
        }),
    decreases waiting.len(),
{
    let result = applied(waiting, text, version);
    if waiting.len() == 0 || waiting[0].version > version + 1 {
        assert(waiting.skip(0) =~= waiting);
    } else {
        let step = edited_all(text, waiting[0].content_changes@);
        let rest = waiting.drop_first();
        if step.error is Some {
            assert(rest =~= waiting.skip(1));
        } else {
            law_only_a_gap_stops_edits(rest, step.text, waiting[0].version);
            let taken = rest.len() - result.waiting.len();
            assert(rest.skip(taken) =~= waiting.skip(taken + 1));
            if taken > 0 {
                assert(rest[taken - 1] == waiting[taken]);
            }
        }
    }
}

/// Law: edits may come all at once or in parts. Where all of `first` is taken without an error, what
/// is behind it goes on from there.
pub proof fn law_edits_in_parts(
    first: Seq<VersionedChange>,
    second: Seq<VersionedChange>,
    text: Seq<char>,
    version: Version,
)
    requires
        applied(first, text, version).waiting.len() == 0,
        applied(first, text, version).error is None,
    ensures
        ({
            let halfway = applied(first, text, version);
            applied(first + second, text, version) == applied(
                second,
                halfway.text,
                halfway.version,
            )
        }),
    decreases first.len(),
{
    if first.len() == 0 {
        assert(first + second =~= second);
    } else {
        let step = edited_all(text, first[0].content_changes@);
        assert((first + second)[0] == first[0]);
        assert((first + second).drop_first() =~= first.drop_first() + second);
        assert(step.error is None);
        law_edits_in_parts(first.drop_first(), second, step.text, first[0].version);
    }
}

/// The edits that were taken give the same document without those that wait.
proof fn lemma_taken_edits(waiting: Seq<VersionedChange>, text: Seq<char>, version: Version)
    requires
        applied(waiting, text, version).error is None,
    ensures
        ({
            let result = applied(waiting, text, version);
            let taken = waiting.len() - result.waiting.len();
            &&& 0 <= taken <= waiting.len()
            &&& result.waiting == waiting.skip(taken)
            &&& taken > 0 ==> result.version == waiting[taken - 1].version
            &&& applied(waiting.take(taken), text, version) == (Applied {
                waiting: Seq::empty(),
                ..result
            })
        }),
    decreases waiting.len(),
{
    let result = applied(waiting, text, version);
    let taken = waiting.len() - result.waiting.len();
    if waiting.len() == 0 || waiting[0].version > version + 1 {
        assert(waiting.skip(0) =~= waiting);
        assert(waiting.take(0) =~= Seq::<VersionedChange>::empty());
    } else {
        let step = edited_all(text, waiting[0].content_changes@);
        let rest = waiting.drop_first();
        lemma_taken_edits(rest, step.text, waiting[0].version);
        let count = rest.len() - result.waiting.len();
        assert(rest.skip(count) =~= waiting.skip(taken));
        assert(waiting.take(taken)[0] == waiting[0]);
        assert(waiting.take(taken).drop_first() =~= rest.take(count));
        if count > 0 {
            assert(rest[count - 1] == waiting[taken - 1]);
        }
    }
}

/// Law: it does not matter when edits are applied. Whether those that are there are applied before
/// one more arrives or together with it, they lead to the same document, as long as what arrives is
/// newer than the document.
pub proof fn law_applying_early_changes_nothing(
    waiting: Seq<VersionedChange>,
    change: VersionedChange,
    text: Seq<char>,
    version: Version,
)
    requires
        in_order(waiting),
        applied(waiting, text, version).error is None,
        applied(waiting, text, version).version < change.version,
    ensures
        ({
            let early = applied(waiting, text, version);
            applied(with_change(waiting, change), text, version) == applied(
                with_change(early.waiting, change),
                early.text,
                early.version,
            )
        }),
{
    lemma_taken_edits(waiting, text, version);
    let early = applied(waiting, text, version);
    let taken = waiting.len() - early.waiting.len();
    let first = waiting.take(taken);
    let second = with_change(early.waiting, change);
    lemma_rank(waiting, change.version);
    let i = rank(waiting, change.version) as int;
    assert(taken <= i) by {
        if i < taken {
            assert(waiting[i].version <= waiting[taken - 1].version);
        }
    }
    let rest = early.waiting;
    assert(in_order(rest)) by {
        assert forall|a: int, b: int| 0 <= a <= b < rest.len() implies (#[trigger] rest[a]).version
            <= (#[trigger] rest[b]).version by {
            assert(rest[a] == waiting[a + taken] && rest[b] == waiting[b + taken]);
        }
    }
    assert forall|k: int| 0 <= k < i - taken implies (#[trigger] rest[k]).version
        < change.version by {
        assert(rest[k] == waiting[k + taken]);
    }
    if i < waiting.len() {
        assert(rest[i - taken] == waiting[i]);
    }
    lemma_rank_is(rest, change.version, i - taken);
    assert(with_change(waiting, change) =~= first + second);
    law_edits_in_parts(first, second, text, version);
}

/// Law: edits that arrive in the wrong order give the document that they give in the right one.
/// Here `later` arrives first and waits; once `earlier`, which it waits for, is there, both are
/// applied as if they had come one after the other.
pub proof fn law_wrong_order_gives_the_same_document(
    earlier: VersionedChange,
    later: VersionedChange,
    text: Seq<char>,
    version: Version,
)
    requires
        version < Version::MAX - 1,
        earlier.version == version + 1,
        later.version == version + 2,
        edited_all(text, earlier.content_changes@).error is None,
    ensures
        ({
            let nothing = Seq::<VersionedChange>::empty();
            let waits = with_change(nothing, later);
            let in_turn = applied(with_change(nothing, earlier), text, version);
            &&& applied(waits, text, version) == (Applied {
                waiting: waits,
                text,
                version,
                error: None,
            })
            &&& applied(with_change(waits, earlier), text, version) == applied(
                with_change(in_turn.waiting, later),
                in_turn.text,
                in_turn.version,
            )
        }),
{
    let nothing = Seq::<VersionedChange>::empty();
    let waits = with_change(nothing, later);
    assert(waits =~= seq![later]);
    let one = with_change(nothing, earlier);
    assert(one =~= seq![earlier]);
    let both = with_change(waits, earlier);
    assert(both =~= seq![earlier, later]);
    assert(one.drop_first() =~= nothing);
    let step = edited_all(text, earlier.content_changes@);
    assert(applied(one, text, version) == applied(nothing, step.text, earlier.version));
    let in_turn = applied(one, text, version);
    assert(in_turn.waiting =~= nothing);
    assert(both.drop_first() =~= seq![later]);
}

/// Law: edits compose. To make the edits `a` and then the edits `b` is to make all of them at once;
/// the first that fails stops those behind it.
pub proof fn law_edits_compose(
    text: Seq<char>,
    a: Seq<TextDocumentContentChangeEvent>,
    b: Seq<TextDocumentContentChangeEvent>,
)
    ensures
        edited_all(text, a + b) == (if edited_all(text, a).error is Some {
            edited_all(text, a)
        } else {
            edited_all(edited_all(text, a).text, b)
        }),
        changes_are_valid(text, a + b) == (changes_are_valid(text, a) && (edited_all(
            text,
            a,
        ).error is None ==> changes_are_valid(edited_all(text, a).text, b))),
    decreases a.len(),
{
    if a.len() == 0 {
        assert(a + b =~= b);
    } else {
        assert((a + b)[0] == a[0]);
        assert((a + b).drop_first() =~= a.drop_first() + b);
        law_edits_compose(edited(text, a[0]).text, a.drop_first(), b);
    }
}

/// Law: an edit without changes for the version that the document has changes nothing.
pub proof fn law_empty_edit_changes_nothing(
    rest: Seq<VersionedChange>,
    empty: VersionedChange,
    text: Seq<char>,
    version: Version,
)
    requires
        empty.version == version,
        empty.content_changes@.len() == 0,
    ensures
        applied(seq![empty] + rest, text, version) == applied(rest, text, version),
{
    assert((seq![empty] + rest).drop_first() =~= rest);
}

} // verus!
