//! A queue of work that keeps only the latest item for each key.

use core::cmp::Ordering;
use std::collections::VecDeque;

use vstd::laws_cmp::obeys_partial_cmp_spec_properties;
use vstd::laws_eq::obeys_eq_spec_properties;
use vstd::prelude::*;
use vstd::std_specs::cmp::{PartialEqSpec, PartialOrdSpec};

verus! {

/// An item of work.
pub struct Entry<K, V, W> {
    pub key: K,
    pub value: V,
    pub version: W,
}

/// What a channel has to offer.
pub enum Received<T> {
    /// An item.
    Item(T),
    /// Nothing more, ever.
    Closed,
    /// Nothing at the moment.
    Nothing,
}

/// What a queue has to offer.
#[derive(Debug, PartialEq)]
pub enum Polled<T> {
    Item(T),
    /// There will not be another item.
    Finished,
    /// There may be another item later.
    Pending,
}

/// Keys and versions can be compared, and comparing is what their types say it is.
pub open spec fn comparable<K: PartialEq, W: PartialOrd>() -> bool {
    K::obeys_eq_spec() && W::obeys_partial_cmp_spec()
}

/// Whether an item has the key `key`.
pub open spec fn has_key<K: PartialEq, V, W>(entry: Entry<K, V, W>, key: K) -> bool {
    entry.key.eq_spec(&key)
}

/// Whether version `a` is older than version `b`.
pub open spec fn is_older<W: PartialOrd>(a: W, b: W) -> bool {
    a.partial_cmp_spec(&b) == Some(Ordering::Less)
}

/// The place of the first item with the key `key`, or the length of the queue.
pub open spec fn key_index<K: PartialEq, V, W>(queue: Seq<Entry<K, V, W>>, key: K) -> int
    decreases queue.len(),
{
    if queue.len() == 0 || has_key(queue[0], key) {
        0
    } else {
        1 + key_index(queue.drop_first(), key)
    }
}

/// The queue with one more item: at the end if its key is new, else in the place of the item that
/// has the key, unless that one is as new.
pub open spec fn with_item<K: PartialEq, V, W: PartialOrd>(
    queue: Seq<Entry<K, V, W>>,
    item: Entry<K, V, W>,
) -> Seq<Entry<K, V, W>> {
    let i = key_index(queue, item.key);
    if i == queue.len() {
        queue.push(item)
    } else if is_older(queue[i].version, item.version) {
        queue.update(i, item)
    } else {
        queue
    }
}

/// The queue with several more items, in their order.
pub open spec fn with_items<K: PartialEq, V, W: PartialOrd>(
    queue: Seq<Entry<K, V, W>>,
    items: Seq<Entry<K, V, W>>,
) -> Seq<Entry<K, V, W>>
    decreases items.len(),
{
    if items.len() == 0 {
        queue
    } else {
        with_items(with_item(queue, items[0]), items.drop_first())
    }
}

/// No two items have the same key.
pub open spec fn one_per_key<K: PartialEq, V, W>(queue: Seq<Entry<K, V, W>>) -> bool {
    forall|i: int, j: int|
        0 <= i < j < queue.len() ==> !has_key(#[trigger] queue[i], (#[trigger] queue[j]).key)
}

pub proof fn lemma_key_index<K: PartialEq, V, W>(queue: Seq<Entry<K, V, W>>, key: K)
    ensures
        0 <= key_index(queue, key) <= queue.len(),
        key_index(queue, key) < queue.len() ==> has_key(queue[key_index(queue, key)], key),
        forall|i: int| 0 <= i < key_index(queue, key) ==> !has_key(#[trigger] queue[i], key),
    decreases queue.len(),
{
    if queue.len() > 0 && !has_key(queue[0], key) {
        let rest = queue.drop_first();
        lemma_key_index(rest, key);
        assert forall|i: int| 0 <= i < key_index(queue, key) implies !has_key(
            #[trigger] queue[i],
            key,
        ) by {
            if i > 0 {
                assert(queue[i] == rest[i - 1]);
            }
        }
    }
}

pub proof fn lemma_key_index_is<K: PartialEq, V, W>(queue: Seq<Entry<K, V, W>>, key: K, i: int)
    requires
        0 <= i <= queue.len(),
        i < queue.len() ==> has_key(queue[i], key),
        forall|j: int| 0 <= j < i ==> !has_key(#[trigger] queue[j], key),
    ensures
        key_index(queue, key) == i,
{
    lemma_key_index(queue, key);
    let found = key_index(queue, key);
    if found < i {
        assert(!has_key(queue[found], key));
    } else if i < found {
        assert(!has_key(queue[i], key));
    }
}

/// The receiving end of a queue which only keeps the latest work item for each key.
pub struct UniqueStream<K, V, W> {
    queue: VecDeque<Entry<K, V, W>>,
    exhausted: bool,
}

impl<K, V, W> View for UniqueStream<K, V, W> {
    type V = Seq<Entry<K, V, W>>;

    closed spec fn view(&self) -> Seq<Entry<K, V, W>> {
        self.queue@
    }
}

/// An empty queue.
pub fn unique_queue<K, V, W>() -> (stream: UniqueStream<K, V, W>)
    ensures
        stream@ == Seq::<Entry<K, V, W>>::empty(),
        !stream.exhausted(),
{
    UniqueStream { queue: VecDeque::new(), exhausted: false }
}

impl<K, V, W> UniqueStream<K, V, W> {
    /// Whether the channel has said that nothing more will come.
    pub closed spec fn exhausted(&self) -> bool {
        self.exhausted
    }

    /// Whether the channel has said that nothing more will come.
    pub fn is_exhausted(&self) -> (exhausted: bool)
        ensures
            exhausted == self.exhausted(),
    {
        self.exhausted
    }

    /// Hands out the item that has been waiting for longest.
    pub fn pop(&mut self) -> (polled: Polled<Entry<K, V, W>>)
        ensures
            final(self).exhausted() == old(self).exhausted(),
            match polled {
                Polled::Item(item) => old(self)@.len() > 0 && item == old(self)@[0] && final(self)@
                    == old(self)@.drop_first(),
                Polled::Finished => old(self)@.len() == 0 && old(self).exhausted() && final(self)@
                    == old(self)@,
                Polled::Pending => old(self)@.len() == 0 && !old(self).exhausted() && final(self)@
                    == old(self)@,
            },
    {
        match self.queue.pop_front() {
            Some(item) => Polled::Item(item),
            None => if self.exhausted {
                Polled::Finished
            } else {
                Polled::Pending
            },
        }
    }
}

impl<K: PartialEq, V, W: PartialOrd> UniqueStream<K, V, W> {
    /// Takes note of what the channel offered. The answer is whether it is to be asked again
    /// before the next item is handed out.
    pub fn receive(&mut self, received: Received<Entry<K, V, W>>) -> (again: bool)
        ensures
            match received {
                Received::Item(item) => {
                    &&& again
                    &&& comparable::<K, W>() ==> final(self)@ == with_item(old(self)@, item)
                    &&& final(self).exhausted() == old(self).exhausted()
                },
                Received::Closed => {
                    &&& !again
                    &&& final(self)@ == old(self)@
                    &&& final(self).exhausted()
                },
                Received::Nothing => {
                    &&& !again
                    &&& final(self)@ == old(self)@
                    &&& final(self).exhausted() == old(self).exhausted()
                },
            },
    {
        match received {
            Received::Item(item) => {
                self.add(item);
                true
            },
            Received::Closed => {
                self.exhausted = true;
                false
            },
            Received::Nothing => false,
        }
    }

    fn add(&mut self, item: Entry<K, V, W>)
        ensures
            comparable::<K, W>() ==> final(self)@ == with_item(old(self)@, item),
            final(self).exhausted() == old(self).exhausted(),
    {
        let ghost queue = self.queue@;
        let mut i: usize = 0;
        while i < self.queue.len()
            invariant
                *self == *old(self),
                queue == self.queue@,
                i <= queue.len(),
                comparable::<K, W>() ==> forall|j: int|
                    0 <= j < i ==> !has_key(#[trigger] queue[j], item.key),
            decreases queue.len() - i,
        {
            if self.queue[i].key == item.key {
                proof {
                    if comparable::<K, W>() {
                        assert(has_key(queue[i as int], item.key));
                        lemma_key_index_is(queue, item.key, i as int);
                    }
                }
                if self.queue[i].version < item.version {
                    let _ = self.queue.remove(i);
                    self.queue.insert(i, item);
                    assert(self.queue@ =~= queue.update(i as int, item));
                }
                return;
            }
            i += 1;
        }
        proof {
            if comparable::<K, W>() {
                lemma_key_index_is(queue, item.key, i as int);
            }
        }
        self.queue.push_back(item);
    }

    /// Hands out the next item, after the channel has been asked for as long as it had items:
    /// `arrived` are these items, and `closed` says that the channel ended behind them.
    pub fn poll_next(&mut self, arrived: Vec<Entry<K, V, W>>, closed: bool) -> (polled: Polled<
        Entry<K, V, W>,
    >)
        requires
            old(self).exhausted() ==> arrived@.len() == 0,
        ensures
            final(self).exhausted() == (old(self).exhausted() || closed),
            comparable::<K, W>() ==> ({
                let queue = with_items(old(self)@, arrived@);
                match polled {
                    Polled::Item(item) => queue.len() > 0 && item == queue[0] && final(self)@
                        == queue.drop_first(),
                    Polled::Finished => {
                        &&& queue.len() == 0
                        &&& final(self)@ == queue
                        &&& final(self).exhausted()
                    },
                    Polled::Pending => {
                        &&& queue.len() == 0
                        &&& final(self)@ == queue
                        &&& !final(self).exhausted()
                    },
                }
            }),
    {
        let ghost goal = with_items(self@, arrived@);
        let ghost was_exhausted = self.exhausted;
        assert(arrived@.skip(0) =~= arrived@);
        for item in items: arrived.into_iter()
            invariant
                items.seq() == arrived@,
                self.exhausted() == was_exhausted,
                comparable::<K, W>() ==> goal == with_items(
                    self@,
                    arrived@.skip(items.index()),
                ),
        {
            let ghost rest = arrived@.skip(items.index());
            assert(rest[0] == item);
            assert(rest.drop_first() =~= arrived@.skip(items.index() + 1));
            let _ = self.receive(Received::Item(item));
        }
        if closed {
            let _ = self.receive(Received::Closed);
        }
        self.pop()
    }
}

/// Law: each key occurs once. What arrives for a key that is there already takes its place or is
/// dropped.
pub proof fn law_one_item_per_key<K: PartialEq, V, W: PartialOrd>(
    queue: Seq<Entry<K, V, W>>,
    item: Entry<K, V, W>,
)
    requires
        obeys_eq_spec_properties::<K>(),
        one_per_key(queue),
    ensures
        one_per_key(with_item(queue, item)),
{
    reveal(obeys_eq_spec_properties);
    lemma_key_index(queue, item.key);
    let found = key_index(queue, item.key);
    let more = with_item(queue, item);
    assert forall|i: int, j: int| 0 <= i < j < more.len() implies !has_key(
        #[trigger] more[i],
        (#[trigger] more[j]).key,
    ) by {
        if found < queue.len() && more[found] == item && is_older(
            queue[found].version,
            item.version,
        ) {
            if i == found {
                assert(!has_key(queue[i], queue[j].key));
                assert(queue[i].key.eq_spec(&item.key));
                if item.key.eq_spec(&queue[j].key) {
                    assert(queue[i].key.eq_spec(&queue[j].key));
                }
            } else if j == found {
                assert(!has_key(queue[i], item.key));
            } else {
                assert(!has_key(queue[i], queue[j].key));
            }
        } else if found == queue.len() {
            if j == found {
                assert(!has_key(queue[i], item.key));
            } else {
                assert(!has_key(queue[i], queue[j].key));
            }
        } else {
            assert(!has_key(queue[i], queue[j].key));
        }
    }
}

/// Law: the items keep the order in which their keys first arrived. An item that arrives does not
/// move those that wait, it replaces at most one of them by itself, and only by a newer one.
pub proof fn law_first_come_first_served<K: PartialEq, V, W: PartialOrd>(
    queue: Seq<Entry<K, V, W>>,
    item: Entry<K, V, W>,
)
    ensures
        ({
            let more = with_item(queue, item);
            &&& queue.len() <= more.len() <= queue.len() + 1
            &&& forall|i: int|
                0 <= i < queue.len() ==> (#[trigger] more[i] == queue[i] || more[i] == item
                    && has_key(queue[i], item.key) && is_older(queue[i].version, item.version))
            &&& more.len() > queue.len() ==> more.last() == item
        }),
{
    lemma_key_index(queue, item.key);
}

/// Whether the queue holds an item with the key of `item` that is not older.
pub open spec fn holds_as_new<K: PartialEq, V, W: PartialOrd>(
    queue: Seq<Entry<K, V, W>>,
    item: Entry<K, V, W>,
) -> bool {
    exists|i: int|
        0 <= i < queue.len() && has_key(#[trigger] queue[i], item.key) && !is_older(
            queue[i].version,
            item.version,
        )
}

/// Law: the latest item for each key is kept. Whatever arrived, the queue holds an item with its
/// key that is not older.
pub proof fn law_latest_item_is_kept<K: PartialEq, V, W: PartialOrd>(
    queue: Seq<Entry<K, V, W>>,
    items: Seq<Entry<K, V, W>>,
    n: int,
)
    requires
        obeys_eq_spec_properties::<K>(),
        obeys_partial_cmp_spec_properties::<W>(),
        forall|k: K| #[trigger] k.eq_spec(&k),
        0 <= n < items.len(),
    ensures
        holds_as_new(with_items(queue, items), items[n]),
    decreases items.len(),
{
    let next = with_item(queue, items[0]);
    let rest = items.drop_first();
    assert(with_items(queue, items) == with_items(next, rest));
    if n > 0 {
        law_latest_item_is_kept(next, rest, n - 1);
    } else {
        lemma_item_is_there(queue, items[0]);
        let i = choose|i: int|
            0 <= i < next.len() && has_key(#[trigger] next[i], items[0].key) && !is_older(
                next[i].version,
                items[0].version,
            );
        lemma_stays_as_new(next, rest, i, items[0]);
    }
}

/// An item that arrived is there, or one with its key that is not older.
proof fn lemma_item_is_there<K: PartialEq, V, W: PartialOrd>(
    queue: Seq<Entry<K, V, W>>,
    item: Entry<K, V, W>,
)
    requires
        obeys_partial_cmp_spec_properties::<W>(),
        forall|k: K| #[trigger] k.eq_spec(&k),
    ensures
        holds_as_new(with_item(queue, item), item),
{
    reveal(obeys_partial_cmp_spec_properties);
    lemma_key_index(queue, item.key);
    let found = key_index(queue, item.key);
    let more = with_item(queue, item);
    assert(item.key.eq_spec(&item.key));
    assert(!is_older(item.version, item.version)) by {
        if is_older(item.version, item.version) {
            assert(item.version.partial_cmp_spec(&item.version) == Some(Ordering::Greater));
        }
    }
    assert(has_key(more[found], item.key) && !is_older(more[found].version, item.version));
}

/// Once the queue holds an item that is not older than `item`, with its key, it goes on to.
proof fn lemma_stays_as_new<K: PartialEq, V, W: PartialOrd>(
    queue: Seq<Entry<K, V, W>>,
    items: Seq<Entry<K, V, W>>,
    i: int,
    item: Entry<K, V, W>,
)
    requires
        obeys_eq_spec_properties::<K>(),
        obeys_partial_cmp_spec_properties::<W>(),
        0 <= i < queue.len(),
        has_key(queue[i], item.key),
        !is_older(queue[i].version, item.version),
    ensures
        holds_as_new(with_items(queue, items), item),
    decreases items.len(),
{
    if items.len() > 0 {
        let next = with_item(queue, items[0]);
        law_first_come_first_served(queue, items[0]);
        assert(next[i] == queue[i] || next[i] == items[0] && has_key(queue[i], items[0].key)
            && is_older(queue[i].version, items[0].version));
        reveal(obeys_eq_spec_properties);
        reveal(obeys_partial_cmp_spec_properties);
        if next[i] != queue[i] {
            assert(items[0].key.eq_spec(&queue[i].key));
            assert(items[0].key.eq_spec(&item.key));
            if is_older(items[0].version, item.version) {
                assert(is_older(queue[i].version, item.version));
            }
        }
        assert(with_items(queue, items) == with_items(next, items.drop_first()));
        lemma_stays_as_new(next, items.drop_first(), i, item);
    }
}

} // verus!
