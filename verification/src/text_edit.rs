//! Edits of a document, applied in the order of their versions.

use std::collections::VecDeque;

use vstd::prelude::*;
use vstd::utf8::{encode_utf8, is_char_boundary};

use crate::position::{
    fits, has_line, lemma_position_offset_bound, lsp_position_to_byte_index, lsp_range_to_byte_span,
    position_index, position_message,
};
use crate::protocol::TextDocumentContentChangeEvent;
use crate::rpc::ServerError;
use crate::text::{
    lemma_encode_utf8_concat, lemma_encode_utf8_injective, lemma_encode_utf8_split,
    lemma_index_is_boundary, lemma_utf8_len_take_monotonic, line_count,
};

verus! {

pub type Version = i64;

/// A text that edits were made to, and why they stopped, if they did.
pub struct Edited {
    pub text: Seq<char>,
    pub error: Option<Seq<char>>,
}

/// Whether an edit makes sense for `text`: a length comes with a range, the lines of the range
/// exist, and the range does not end in front of its start.
pub open spec fn change_is_valid(text: Seq<char>, change: TextDocumentContentChangeEvent) -> bool {
    match change.range {
        None => change.range_length is None,
        Some(range) => {
            &&& fits(text)
            &&& range.start.line < line_count(text)
            &&& position_index(text, range.start) matches Some(start) ==> {
                &&& range.end.line < line_count(text)
                &&& position_index(text, range.end) matches Some(end) ==> start <= end
            }
        },
    }
}

/// What one edit makes of `text`: its own text takes the place of the range, or of everything.
/// Nothing changes where the range has no such columns.
pub open spec fn edited(text: Seq<char>, change: TextDocumentContentChangeEvent) -> Edited {
    match change.range {
        None => Edited { text: change.text@, error: None },
        Some(range) => match position_index(text, range.start) {
            None => Edited { text, error: Some(position_message(text, range.start)) },
            Some(start) => match position_index(text, range.end) {
                None => Edited { text, error: Some(position_message(text, range.end)) },
                Some(end) => Edited {
                    text: text.take(start) + change.text@ + text.skip(end),
                    error: None,
                },
            },
        },
    }
}

/// Whether each of several edits makes sense for what those in front of it leave.
pub open spec fn changes_are_valid(
    text: Seq<char>,
    changes: Seq<TextDocumentContentChangeEvent>,
) -> bool
    decreases changes.len(),
{
    changes.len() == 0 || {
        &&& change_is_valid(text, changes[0])
        &&& edited(text, changes[0]).error is None ==> changes_are_valid(
            edited(text, changes[0]).text,
            changes.drop_first(),
        )
    }
}

/// What several edits make of `text`, one after the other, up to the first that fails.
pub open spec fn edited_all(
    text: Seq<char>,
    changes: Seq<TextDocumentContentChangeEvent>,
) -> Edited
    decreases changes.len(),
{
    if changes.len() == 0 {
        Edited { text, error: None }
    } else {
        let first = edited(text, changes[0]);
        if first.error is Some {
            first
        } else {
            edited_all(first.text, changes.drop_first())
        }
    }
}

/// The edits that lead to one version of a document.
#[derive(Debug)]
pub struct VersionedChange {
    pub version: Version,
    pub content_changes: Vec<TextDocumentContentChangeEvent>,
}

/// What came of the attempt to take a change.
enum Trial {
    /// It is older than the document or makes no sense for it.
    Impossible,
    /// A version is missing in front of it, or it failed; those behind it are not looked at.
    Stop,
    /// It was taken.
    Next,
}

impl VersionedChange {
    /// Takes the change on trial, on a copy of a document of version `version`.
    fn try_on(&self, text: &mut String, version: Version) -> (trial: Trial)
        ensures
            forall|rest: Seq<VersionedChange>|
                #![trigger applicable(rest, old(text)@, version)]
                rest.len() > 0 && rest[0] == *self ==> match trial {
                    Trial::Impossible => !applicable(rest, old(text)@, version),
                    Trial::Stop => applicable(rest, old(text)@, version),
                    Trial::Next => applicable(rest, old(text)@, version) == applicable(
                        rest.drop_first(),
                        final(text)@,
                        self.version,
                    ),
                },
    {
        if version == Version::MAX || self.version < version {
            return Trial::Impossible;
        }
        if self.version > version + 1 {
            return Trial::Stop;
        }
        if !are_valid_changes(text.as_str(), self.content_changes.as_slice()) {
            return Trial::Impossible;
        }
        match apply_changes(text, self.content_changes.as_slice()) {
            Ok(()) => Trial::Next,
            Err(_) => Trial::Stop,
        }
    }
}

/// A document while edits are applied to it: those that wait, the text, its version, and why the
/// edits stopped, if one failed.
pub struct Applied {
    pub waiting: Seq<VersionedChange>,
    pub text: Seq<char>,
    pub version: Version,
    pub error: Option<Seq<char>>,
}

/// What becomes of a document of version `version` and of the edits that wait for it: they are
/// taken in order as long as no version is missing between them and the document. A change that
/// fails is dropped.
pub open spec fn applied(
    waiting: Seq<VersionedChange>,
    text: Seq<char>,
    version: Version,
) -> Applied
    decreases waiting.len(),
{
    if waiting.len() == 0 || waiting[0].version > version + 1 {
        Applied { waiting, text, version, error: None }
    } else {
        let step = edited_all(text, waiting[0].content_changes@);
        if step.error is Some {
            Applied {
                waiting: waiting.drop_first(),
                text: step.text,
                version: waiting[0].version,
                error: step.error,
            }
        } else {
            applied(waiting.drop_first(), step.text, waiting[0].version)
        }
    }
}

/// Whether the edits that would be taken are not older than the document and make sense for it.
pub open spec fn applicable(
    waiting: Seq<VersionedChange>,
    text: Seq<char>,
    version: Version,
) -> bool
    decreases waiting.len(),
{
    waiting.len() == 0 || {
        &&& version < Version::MAX
        &&& version <= waiting[0].version
        &&& waiting[0].version <= version + 1 ==> {
            &&& changes_are_valid(text, waiting[0].content_changes@)
            &&& edited_all(text, waiting[0].content_changes@).error is None ==> applicable(
                waiting.drop_first(),
                edited_all(text, waiting[0].content_changes@).text,
                waiting[0].version,
            )
        }
    }
}

/// The edits are in the order of their versions.
pub open spec fn in_order(changes: Seq<VersionedChange>) -> bool {
    forall|i: int, j: int|
        0 <= i <= j < changes.len() ==> (#[trigger] changes[i]).version <= (
        #[trigger] changes[j]).version
}

/// Where the first edit stands that is not older than `version`.
pub open spec fn rank(changes: Seq<VersionedChange>, version: Version) -> nat
    decreases changes.len(),
{
    if changes.len() == 0 || changes[0].version >= version {
        0
    } else {
        1 + rank(changes.drop_first(), version)
    }
}

/// The edits with one more among them, in front of those that are not older.
pub open spec fn with_change(
    changes: Seq<VersionedChange>,
    change: VersionedChange,
) -> Seq<VersionedChange> {
    changes.insert(rank(changes, change.version) as int, change)
}

/// Whether an edit may join those that wait: an editor may send an empty one for a version that is
/// there already, and no other.
pub open spec fn may_add(
    changes: Seq<VersionedChange>,
    version: Version,
    content_changes: Seq<TextDocumentContentChangeEvent>,
) -> bool {
    content_changes.len() == 0 || forall|i: int|
        0 <= i < changes.len() ==> (#[trigger] changes[i]).version != version
}

/// The rank splits the edits into the older ones and the others.
pub proof fn lemma_rank(changes: Seq<VersionedChange>, version: Version)
    requires
        in_order(changes),
    ensures
        rank(changes, version) <= changes.len(),
        forall|i: int|
            0 <= i < rank(changes, version) ==> (#[trigger] changes[i]).version < version,
        forall|i: int|
            rank(changes, version) <= i < changes.len() ==> version <= (
            #[trigger] changes[i]).version,
    decreases changes.len(),
{
    if changes.len() > 0 && changes[0].version < version {
        let rest = changes.drop_first();
        assert(in_order(rest)) by {
            assert forall|i: int, j: int| 0 <= i <= j < rest.len() implies (
            #[trigger] rest[i]).version <= (#[trigger] rest[j]).version by {
                assert(rest[i] == changes[i + 1] && rest[j] == changes[j + 1]);
            }
        }
        lemma_rank(rest, version);
        assert forall|i: int| 0 <= i < rank(changes, version) implies (
        #[trigger] changes[i]).version < version by {
            if i > 0 {
                assert(changes[i] == rest[i - 1]);
            }
        }
        assert forall|i: int| rank(changes, version) <= i < changes.len() implies version <= (
        #[trigger] changes[i]).version by {
            assert(changes[i] == rest[i - 1]);
        }
    }
}

/// There is only one place where the older edits end and the others begin.
pub proof fn lemma_rank_is(changes: Seq<VersionedChange>, version: Version, r: int)
    requires
        in_order(changes),
        0 <= r <= changes.len(),
        forall|i: int| 0 <= i < r ==> (#[trigger] changes[i]).version < version,
        r < changes.len() ==> version <= changes[r].version,
    ensures
        rank(changes, version) == r,
{
    lemma_rank(changes, version);
    let found = rank(changes, version) as int;
    if found < r {
        assert(changes[found].version < version);
    } else if r < found {
        assert(changes[r].version < version);
    }
}

/// Applies text changes in the order that the client sends them. Changes that arrive out of order
/// are kept until all earlier ones have been received and are then applied all at once.
pub struct TextChanges {
    changes: VecDeque<VersionedChange>,
}

impl View for TextChanges {
    type V = Seq<VersionedChange>;

    closed spec fn view(&self) -> Seq<VersionedChange> {
        self.changes@
    }
}

impl TextChanges {
    pub fn new() -> (changes: TextChanges)
        ensures
            changes@ == Seq::<VersionedChange>::empty(),
            in_order(changes@),
    {
        TextChanges { changes: VecDeque::new() }
    }

    /// Whether `add` takes an edit of this version: one that changes something may come only once.
    pub fn accepts(
        &self,
        version: Version,
        content_changes: &Vec<TextDocumentContentChangeEvent>,
    ) -> (accepted: bool)
        ensures
            accepted == may_add(self@, version, content_changes@),
    {
        if content_changes.len() == 0 {
            return true;
        }
        let mut i: usize = 0;
        while i < self.changes.len()
            invariant
                i <= self.changes@.len(),
                content_changes@.len() > 0,
                forall|j: int| 0 <= j < i ==> (#[trigger] self.changes@[j]).version != version,
            decreases self.changes@.len() - i,
        {
            if self.changes[i].version == version {
                return false;
            }
            i += 1;
        }
        true
    }

    /// Keeps an edit until the versions in front of it have been applied.
    pub fn add(&mut self, version: Version, content_changes: Vec<TextDocumentContentChangeEvent>)
        requires
            in_order(old(self)@),
            may_add(old(self)@, version, content_changes@),
        ensures
            final(self)@ == with_change(
                old(self)@,
                (VersionedChange { version, content_changes }),
            ),
            in_order(final(self)@),
    {
        let i = self.rank_of(version);
        let ghost changes = self.changes@;
        proof {
            lemma_rank(changes, version);
        }
        let change = VersionedChange { version, content_changes };
        self.changes.insert(i, change);
        assert forall|a: int, b: int| 0 <= a <= b < self.changes@.len() implies (
        #[trigger] self.changes@[a]).version <= (#[trigger] self.changes@[b]).version by {
            let a0 = if a < i {
                a
            } else {
                a - 1
            };
            let b0 = if b < i {
                b
            } else {
                b - 1
            };
            if a != i && b != i {
                assert(changes[a0].version <= changes[b0].version);
            } else if a != i {
                assert(changes[a0].version < version);
            } else if b != i {
                assert(version <= changes[b0].version);
            }
        }
    }

    /// Whether `apply_changes` can be called: no edit that it would take is older than the document
    /// or makes no sense for it.
    pub fn can_apply(&self, source: &str, version: Version) -> (possible: bool)
        ensures
            possible == applicable(self@, source@, version),
    {
        let mut text: String = source.to_owned();
        let mut current: Version = version;
        let mut i: usize = 0;
        assert(self@.skip(0) =~= self@);
        while i < self.changes.len()
            invariant
                i <= self.changes@.len(),
                self.changes@ == self@,
                applicable(self@, source@, version) == applicable(
                    self@.skip(i as int),
                    text@,
                    current,
                ),
            decreases self.changes@.len() - i,
        {
            let ghost rest = self@.skip(i as int);
            assert(rest[0] == self@[i as int]);
            assert(rest.drop_first() =~= self@.skip(i + 1));
            match self.changes[i].try_on(&mut text, current) {
                Trial::Impossible => {
                    return false;
                },
                Trial::Stop => {
                    return true;
                },
                Trial::Next => {},
            }
            current = self.changes[i].version;
            i += 1;
        }
        true
    }

    /// Whether `apply_changes` can be called once `change` has been added.
    pub fn can_apply_with(&self, change: &VersionedChange, source: &str, version: Version) -> (
    possible: bool)
        requires
            in_order(self@),
        ensures
            possible == applicable(with_change(self@, *change), source@, version),
    {
        let place = self.rank_of(change.version);
        let ghost all = with_change(self@, *change);
        proof {
            lemma_rank(self@, change.version);
        }
        let mut text: String = source.to_owned();
        let mut current: Version = version;
        let mut i: usize = 0;
        let mut passed: bool = false;
        assert(all.skip(0) =~= all);
        while i < self.changes.len() || !passed
            invariant
                self.changes@ == self@,
                all == with_change(self@, *change),
                place == rank(self@, change.version),
                place <= self@.len(),
                i <= self@.len(),
                passed ==> place <= i,
                !passed ==> i <= place,
                applicable(all, source@, version) == applicable(
                    all.skip(
                        if passed {
                            i + 1
                        } else {
                            i as int
                        },
                    ),
                    text@,
                    current,
                ),
            decreases
                    self.changes@.len() - i,
                    if passed {
                        0int
                    } else {
                        1int
                    },
        {
            let ghost at = if passed {
                i + 1
            } else {
                i as int
            };
            let ghost rest = all.skip(at);
            assert(rest.drop_first() =~= all.skip(at + 1));
            let next: &VersionedChange = if !passed && i == place {
                passed = true;
                change
            } else {
                i += 1;
                &self.changes[i - 1]
            };
            assert(rest[0] == *next);
            match next.try_on(&mut text, current) {
                Trial::Impossible => {
                    return false;
                },
                Trial::Stop => {
                    return true;
                },
                Trial::Next => {},
            }
            current = next.version;
        }
        assert(all.skip(i + 1) =~= Seq::<VersionedChange>::empty());
        true
    }

    /// Where the first edit stands that is not older than `version`.
    fn rank_of(&self, version: Version) -> (place: usize)
        requires
            in_order(self@),
        ensures
            place == rank(self@, version),
    {
        let mut i: usize = 0;
        while i < self.changes.len() && self.changes[i].version < version
            invariant
                i <= self.changes@.len(),
                forall|j: int| 0 <= j < i ==> (#[trigger] self.changes@[j]).version < version,
            decreases self.changes@.len() - i,
        {
            i += 1;
        }
        proof {
            lemma_rank_is(self@, version, i as int);
        }
        i
    }

    /// Applies the edits that wait, as long as no version is missing, to the document `source` of
    /// version `version`, and says which version it has then.
    pub fn apply_changes(&mut self, source: &mut String, version: Version) -> (reached: Result<
        Version,
        ServerError<()>,
    >)
        requires
            in_order(old(self)@),
            applicable(old(self)@, old(source)@, version),
        ensures
            in_order(final(self)@),
            ({
                let result = applied(old(self)@, old(source)@, version);
                &&& final(self)@ == result.waiting
                &&& final(source)@ == result.text
                &&& match reached {
                    Ok(version) => result.error is None && version == result.version,
                    Err(error) => result.error == Some(error.message@) && error.data is None,
                }
            }),
    {
        let mut current: Version = version;
        let ghost goal = applied(self@, source@, version);
        loop
            invariant
                in_order(self@),
                applicable(self@, source@, current),
                goal == applied(self@, source@, current),
                goal == applied(old(self)@, old(source)@, version),
            decreases self@.len(),
        {
            let ghost waiting = self@;
            match self.changes.pop_front() {
                None => {
                    assert(self@ =~= waiting);
                    return Ok(current);
                },
                Some(change) => {
                    assert(self@ =~= waiting.drop_first());
                    if change.version > current + 1 {
                        self.changes.push_front(change);
                        assert(self@ =~= waiting);
                        return Ok(current);
                    }
                    current = change.version;
                    match apply_changes(source, change.content_changes.as_slice()) {
                        Ok(()) => {},
                        Err(error) => {
                            return Err(error);
                        },
                    }
                },
            }
        }
    }
}

/// Whether an edit makes sense for `source`.
pub fn is_valid_change(source: &str, change: &TextDocumentContentChangeEvent) -> (valid: bool)
    ensures
        valid == change_is_valid(source@, *change),
{
    let range = match change.range {
        None => {
            return change.range_length.is_none();
        },
        Some(range) => range,
    };
    if source.as_bytes().len() as u64 > u32::MAX as u64 || !has_line(source, range.start.line) {
        return false;
    }
    proof {
        lemma_position_offset_bound(source@, range.start);
        lemma_position_offset_bound(source@, range.end);
    }
    match lsp_position_to_byte_index(source, range.start) {
        Err(_) => true,
        Ok(start) => {
            if !has_line(source, range.end.line) {
                return false;
            }
            match lsp_position_to_byte_index(source, range.end) {
                Err(_) => true,
                Ok(end) => {
                    proof {
                        let from = position_index(source@, range.start).unwrap();
                        let to = position_index(source@, range.end).unwrap();
                        if from < to {
                            lemma_utf8_len_take_monotonic(source@, from, to);
                        } else if to < from {
                            lemma_utf8_len_take_monotonic(source@, to, from);
                        }
                    }
                    start <= end
                },
            }
        },
    }
}

/// Whether each of several edits makes sense for what those in front of it leave.
pub fn are_valid_changes(source: &str, changes: &[TextDocumentContentChangeEvent]) -> (valid: bool)
    ensures
        valid == changes_are_valid(source@, changes@),
{
    let mut text: String = source.to_owned();
    let mut i: usize = 0;
    assert(changes@.skip(0) =~= changes@);
    while i < changes.len()
        invariant
            i <= changes@.len(),
            changes_are_valid(source@, changes@) == changes_are_valid(
                text@,
                changes@.skip(i as int),
            ),
        decreases changes@.len() - i,
    {
        let ghost rest = changes@.skip(i as int);
        assert(rest[0] == changes@[i as int]);
        assert(rest.drop_first() =~= changes@.skip(i + 1));
        if !is_valid_change(text.as_str(), &changes[i]) {
            return false;
        }
        match apply_change(&mut text, &changes[i]) {
            Ok(()) => {},
            Err(_) => {
                return true;
            },
        }
        i += 1;
    }
    true
}

/// Applies edits to `source`, one after the other, up to the first that fails.
pub fn apply_changes(
    source: &mut String,
    content_changes: &[TextDocumentContentChangeEvent],
) -> (result: Result<(), ServerError<()>>)
    requires
        changes_are_valid(old(source)@, content_changes@),
    ensures
        final(source)@ == edited_all(old(source)@, content_changes@).text,
        match result {
            Ok(()) => edited_all(old(source)@, content_changes@).error is None,
            Err(error) => {
                &&& edited_all(old(source)@, content_changes@).error == Some(error.message@)
                &&& error.data is None
            },
        },
{
    let ghost goal = edited_all(source@, content_changes@);
    let mut i: usize = 0;
    assert(content_changes@.skip(0) =~= content_changes@);
    while i < content_changes.len()
        invariant
            i <= content_changes@.len(),
            goal == edited_all(old(source)@, content_changes@),
            goal == edited_all(source@, content_changes@.skip(i as int)),
            changes_are_valid(source@, content_changes@.skip(i as int)),
        decreases content_changes@.len() - i,
    {
        let ghost rest = content_changes@.skip(i as int);
        assert(rest[0] == content_changes@[i as int]);
        assert(rest.drop_first() =~= content_changes@.skip(i + 1));
        match apply_change(source, &content_changes[i]) {
            Ok(()) => {},
            Err(error) => {
                return Err(error);
            },
        }
        i += 1;
    }
    Ok(())
}

/// Puts `replace_with` in the place of the bytes from `start` to `end`, both of which stand between
/// characters.
pub fn replace_range(text: &mut String, start: usize, end: usize, replace_with: &str)
    requires
        start <= end,
        is_char_boundary(encode_utf8(old(text)@), start as int),
        is_char_boundary(encode_utf8(old(text)@), end as int),
    ensures
        encode_utf8(final(text)@) == encode_utf8(old(text)@).take(start as int) + encode_utf8(
            replace_with@,
        ) + encode_utf8(old(text)@).skip(end as int),
{
    let (front, _) = text.as_str().split_at(start);
    let (_, back) = text.as_str().split_at(end);
    let mut replaced = front.to_owned();
    replaced.append(replace_with);
    replaced.append(back);
    proof {
        let bytes = encode_utf8(text@);
        lemma_encode_utf8_concat(front@, replace_with@);
        lemma_encode_utf8_concat(front@ + replace_with@, back@);
        assert(encode_utf8(back@) =~= bytes.skip(end as int));
        assert(encode_utf8(front@) =~= bytes.take(start as int));
    }
    *text = replaced;
}

/// Applies one edit to `source`.
pub fn apply_change(source: &mut String, change: &TextDocumentContentChangeEvent) -> (result:
    Result<(), ServerError<()>>)
    requires
        change_is_valid(old(source)@, *change),
    ensures
        final(source)@ == edited(old(source)@, *change).text,
        match result {
            Ok(()) => edited(old(source)@, *change).error is None,
            Err(error) => {
                &&& edited(old(source)@, *change).error == Some(error.message@)
                &&& error.data is None
            },
        },
{
    let ghost text = source@;
    let ghost bytes = encode_utf8(text);
    let (start, end): (usize, usize) = match change.range {
        None => (0, source.as_str().as_bytes().len()),
        Some(range) => match lsp_range_to_byte_span(source.as_str(), range) {
            Ok(span) => span,
            Err(message) => {
                return Err(ServerError::from(message));
            },
        },
    };
    let ghost (from, to) = match change.range {
        None => (0, text.len() as int),
        Some(range) => (
            position_index(text, range.start).unwrap(),
            position_index(text, range.end).unwrap(),
        ),
    };
    proof {
        if let Some(range) = change.range {
            lemma_position_offset_bound(text, range.start);
            lemma_position_offset_bound(text, range.end);
        } else {
            assert(text.take(0) =~= Seq::<char>::empty());
            assert(text.take(text.len() as int) =~= text);
            assert(text.skip(text.len() as int) =~= Seq::<char>::empty());
        }
        lemma_index_is_boundary(text, from);
        lemma_index_is_boundary(text, to);
        if from < to {
            lemma_utf8_len_take_monotonic(text, from, to);
        }
    }
    replace_range(source, start, end, change.text.as_str());
    proof {
        let result = text.take(from) + change.text@ + text.skip(to);
        lemma_encode_utf8_concat(text.take(from), change.text@);
        lemma_encode_utf8_concat(text.take(from) + change.text@, text.skip(to));
        lemma_encode_utf8_split(text, to);
        assert(encode_utf8(text.skip(to)) =~= bytes.skip(end as int));
        lemma_encode_utf8_injective(source@, result);
        assert(change.range is None ==> result =~= change.text@);
    }
    Ok(())
}

} // verus!
