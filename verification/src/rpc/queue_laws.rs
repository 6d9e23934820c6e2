//! What a queue holds, whatever has arrived.

use core::cmp::Ordering;

use vstd::laws_cmp::obeys_partial_cmp_spec_properties;
use vstd::laws_eq::obeys_eq_spec_properties;
use vstd::prelude::*;
use vstd::std_specs::cmp::{PartialEqSpec, PartialOrdSpec};

use crate::rpc::queue::{
    has_key, is_older, key_index, law_one_item_per_key, lemma_key_index, lemma_key_index_is,
    one_per_key, with_item, with_items, Entry,
};

verus! {

/// Whether an item with the key `key` is among several items.
pub open spec fn occurs<K: PartialEq, V, W>(items: Seq<Entry<K, V, W>>, key: K) -> bool {
    exists|i: int| 0 <= i < items.len() && has_key(#[trigger] items[i], key)
}

/// The places at which keys occur for the first time, in their order.
pub open spec fn first_occurrences<K: PartialEq, V, W>(items: Seq<Entry<K, V, W>>) -> Seq<int>
    decreases items.len(),
{
    if items.len() == 0 {
        Seq::empty()
    } else {
        let firsts = first_occurrences(items.drop_last());
        if occurs(items.drop_last(), items.last().key) {
            firsts
        } else {
            firsts.push(items.len() - 1)
        }
    }
}

/// Whether the item at place `n` is the newest of those with the key `key`, and the first of the
/// newest.
pub open spec fn newest_at<K: PartialEq, V, W: PartialOrd>(
    items: Seq<Entry<K, V, W>>,
    key: K,
    n: int,
) -> bool {
    &&& 0 <= n < items.len()
    &&& has_key(items[n], key)
    &&& forall|m: int|
        0 <= m < items.len() && has_key(#[trigger] items[m], key) ==> {
            &&& !is_older(items[n].version, items[m].version)
            &&& m < n ==> is_older(items[m].version, items[n].version)
        }
}

/// Whether `entry` is the newest of several items with the key `key`, and the first of the newest.
pub open spec fn is_newest<K: PartialEq, V, W: PartialOrd>(
    items: Seq<Entry<K, V, W>>,
    key: K,
    entry: Entry<K, V, W>,
) -> bool {
    exists|n: int| #[trigger] newest_at(items, key, n) && items[n] == entry
}

/// Whether `queue` holds for each key the newest of several items, in the order in which the keys
/// first occur.
pub open spec fn holds_newest<K: PartialEq, V, W: PartialOrd>(
    queue: Seq<Entry<K, V, W>>,
    items: Seq<Entry<K, V, W>>,
) -> bool {
    let firsts = first_occurrences(items);
    &&& queue.len() == firsts.len()
    &&& forall|j: int|
        0 <= j < queue.len() ==> is_newest(items, items[firsts[j]].key, #[trigger] queue[j])
}

/// Keys and versions are compared as the types of a queue promise: keys by an equivalence, versions
/// by a total order.
pub open spec fn well_ordered<K: PartialEq, W: PartialOrd>() -> bool {
    &&& obeys_eq_spec_properties::<K>()
    &&& forall|k: K| #[trigger] k.eq_spec(&k)
    &&& obeys_partial_cmp_spec_properties::<W>()
    &&& forall|a: W, b: W| (#[trigger] a.partial_cmp_spec(&b)) is Some
}

/// Law: the queue holds exactly the latest work item for each key, in the order in which the keys
/// first arrived: of what was in it and of what has arrived since, and the first of items that are
/// equally new.
pub proof fn law_queue_holds_the_newest_items<K: PartialEq, V, W: PartialOrd>(
    queue: Seq<Entry<K, V, W>>,
    items: Seq<Entry<K, V, W>>,
)
    requires
        well_ordered::<K, W>(),
        one_per_key(queue),
    ensures
        holds_newest(with_items(queue, items), queue + items),
        one_per_key(with_items(queue, items)),
{
    let empty = Seq::<Entry<K, V, W>>::empty();
    lemma_refill(queue);
    lemma_items_in_parts(empty, queue, items);
    lemma_holds_newest(queue + items);
}

/// Items may arrive at once or in two parts.
proof fn lemma_items_in_parts<K: PartialEq, V, W: PartialOrd>(
    queue: Seq<Entry<K, V, W>>,
    a: Seq<Entry<K, V, W>>,
    b: Seq<Entry<K, V, W>>,
)
    ensures
        with_items(queue, a + b) == with_items(with_items(queue, a), b),
    decreases a.len(),
{
    if a.len() == 0 {
        assert(a + b =~= b);
    } else {
        assert((a + b)[0] == a[0]);
        assert((a + b).drop_first() =~= a.drop_first() + b);
        lemma_items_in_parts(with_item(queue, a[0]), a.drop_first(), b);
    }
}

/// The last of several items arrives after all others.
proof fn lemma_last_item<K: PartialEq, V, W: PartialOrd>(
    queue: Seq<Entry<K, V, W>>,
    items: Seq<Entry<K, V, W>>,
)
    requires
        items.len() > 0,
    ensures
        with_items(queue, items) == with_item(with_items(queue, items.drop_last()), items.last()),
{
    let last = seq![items.last()];
    assert(items =~= items.drop_last() + last);
    lemma_items_in_parts(queue, items.drop_last(), last);
    assert(last.drop_first() =~= Seq::<Entry<K, V, W>>::empty());
    reveal_with_fuel(with_items, 2);
}

/// The items of a queue, each with a key of its own, fill an empty queue in the same way.
proof fn lemma_refill<K: PartialEq, V, W: PartialOrd>(queue: Seq<Entry<K, V, W>>)
    requires
        one_per_key(queue),
    ensures
        with_items(Seq::empty(), queue) == queue,
    decreases queue.len(),
{
    if queue.len() == 0 {
        assert(queue =~= Seq::empty());
    } else {
        let front = queue.drop_last();
        assert(one_per_key(front)) by {
            assert forall|i: int, j: int| 0 <= i < j < front.len() implies !has_key(
                #[trigger] front[i],
                (#[trigger] front[j]).key,
            ) by {
                assert(!has_key(queue[i], queue[j].key));
            }
        }
        lemma_refill(front);
        lemma_last_item(Seq::empty(), queue);
        assert forall|i: int| 0 <= i < front.len() implies !has_key(
            #[trigger] front[i],
            queue.last().key,
        ) by {
            assert(!has_key(queue[i], queue[queue.len() - 1].key));
        }
        lemma_key_index_is(front, queue.last().key, front.len() as int);
        assert(front.push(queue.last()) =~= queue);
    }
}

/// Every item has the key of one that occurs for the first time.
proof fn lemma_first_occurrence<K: PartialEq, V, W>(items: Seq<Entry<K, V, W>>, m: int) -> (j: int)
    requires
        obeys_eq_spec_properties::<K>(),
        forall|k: K| #[trigger] k.eq_spec(&k),
        0 <= m < items.len(),
    ensures
        0 <= j < first_occurrences(items).len(),
        0 <= first_occurrences(items)[j] < items.len(),
        has_key(items[first_occurrences(items)[j]], items[m].key),
    decreases items.len(),
{
    reveal(obeys_eq_spec_properties);
    let front = items.drop_last();
    let firsts = first_occurrences(front);
    if m < front.len() {
        let j = lemma_first_occurrence(front, m);
        assert(first_occurrences(items)[j] == firsts[j]);
        assert(front[firsts[j]] == items[firsts[j]] && front[m] == items[m]);
        j
    } else if occurs(front, items.last().key) {
        let i = choose|i: int| 0 <= i < front.len() && has_key(#[trigger] front[i], items.last().key);
        let j = lemma_first_occurrence(front, i);
        assert(front[firsts[j]] == items[firsts[j]]);
        assert(items[firsts[j]].key.eq_spec(&front[i].key));
        assert(front[i].key.eq_spec(&items[m].key));
        j
    } else {
        assert(items[m].key.eq_spec(&items[m].key));
        firsts.len() as int
    }
}

/// Keys occur for the first time at places of the items.
proof fn lemma_firsts_are_places<K: PartialEq, V, W>(items: Seq<Entry<K, V, W>>)
    ensures
        forall|j: int|
            0 <= j < first_occurrences(items).len() ==> 0 <= #[trigger] first_occurrences(items)[j]
                < items.len(),
    decreases items.len(),
{
    if items.len() > 0 {
        lemma_firsts_are_places(items.drop_last());
        let firsts = first_occurrences(items.drop_last());
        assert forall|j: int| 0 <= j < first_occurrences(items).len() implies 0
            <= #[trigger] first_occurrences(items)[j] < items.len() by {
            if j < firsts.len() {
                assert(first_occurrences(items)[j] == firsts[j]);
            }
        }
    }
}

proof fn lemma_holds_newest<K: PartialEq, V, W: PartialOrd>(items: Seq<Entry<K, V, W>>)
    requires
        well_ordered::<K, W>(),
    ensures
        holds_newest(with_items(Seq::empty(), items), items),
        one_per_key(with_items(Seq::empty(), items)),
    decreases items.len(),
{
    if items.len() > 0 {
        let front = items.drop_last();
        let last = items.last();
        let queue = with_items(Seq::empty(), front);
        lemma_holds_newest(front);
        lemma_last_item(Seq::empty(), items);
        law_one_item_per_key(queue, last);
        lemma_firsts_are_places(front);
        lemma_key_index(queue, last.key);
        if key_index(queue, last.key) == queue.len() {
            lemma_newest_of_new_key(items);
        } else {
            lemma_newest_of_known_key(items);
        }
    }
}

/// The queue once an item with a new key has arrived.
proof fn lemma_newest_of_new_key<K: PartialEq, V, W: PartialOrd>(items: Seq<Entry<K, V, W>>)
    requires
        well_ordered::<K, W>(),
        items.len() > 0,
        ({
            let queue = with_items(Seq::empty(), items.drop_last());
            &&& holds_newest(queue, items.drop_last())
            &&& key_index(queue, items.last().key) == queue.len()
        }),
    ensures
        holds_newest(
            with_item(with_items(Seq::empty(), items.drop_last()), items.last()),
            items,
        ),
{
    reveal(obeys_eq_spec_properties);
    reveal(obeys_partial_cmp_spec_properties);
    let front = items.drop_last();
    let last = items.last();
    let queue = with_items(Seq::empty(), front);
    let more = queue.push(last);
    let firsts = first_occurrences(front);
    let n: int = items.len() - 1;
    lemma_key_index(queue, last.key);
    lemma_firsts_are_places(front);
    assert(!occurs(front, last.key)) by {
        if occurs(front, last.key) {
            let m = choose|m: int| 0 <= m < front.len() && has_key(#[trigger] front[m], last.key);
            let j = lemma_first_occurrence(front, m);
            assert(is_newest(front, front[firsts[j]].key, queue[j]));
            assert(queue[j].key.eq_spec(&front[firsts[j]].key));
            assert(front[firsts[j]].key.eq_spec(&front[m].key));
            assert(queue[j].key.eq_spec(&front[m].key));
            assert(front[m].key.eq_spec(&last.key));
            assert(!has_key(queue[j], last.key));
        }
    }
    assert forall|j: int| 0 <= j < more.len() implies is_newest(
        items,
        items[first_occurrences(items)[j]].key,
        #[trigger] more[j],
    ) by {
        if j < queue.len() {
            let key = front[firsts[j]].key;
            assert(items[firsts[j]] == front[firsts[j]]);
            assert(is_newest(front, key, queue[j]));
            let k = choose|k: int| #[trigger] newest_at(front, key, k) && front[k] == queue[j];
            assert(!has_key(last, key)) by {
                if has_key(last, key) {
                    assert(key.eq_spec(&last.key));
                    assert(has_key(front[firsts[j]], last.key));
                }
            }
            lemma_newest_stays(items, key, k);
        } else {
            assert(last.key.eq_spec(&last.key));
            assert(items[n] == last);
            assert(newest_at(items, last.key, n)) by {
                assert forall|m: int|
                    0 <= m < items.len() && has_key(#[trigger] items[m], last.key) implies {
                    &&& !is_older(items[n].version, items[m].version)
                    &&& m < n ==> is_older(items[m].version, items[n].version)
                } by {
                    if m < n {
                        assert(front[m] == items[m]);
                    } else if is_older(last.version, last.version) {
                        assert(last.version.partial_cmp_spec(&last.version) == Some(
                            Ordering::Greater,
                        ));
                    }
                }
            }
        }
    }
}

/// What is the newest of all items but the last stays so if the last has another key or is not newer.
proof fn lemma_newest_stays<K: PartialEq, V, W: PartialOrd>(
    items: Seq<Entry<K, V, W>>,
    key: K,
    n: int,
)
    requires
        items.len() > 0,
        newest_at(items.drop_last(), key, n),
        has_key(items.last(), key) ==> !is_older(
            items.drop_last()[n].version,
            items.last().version,
        ),
    ensures
        newest_at(items, key, n),
{
    let front = items.drop_last();
    assert(items[n] == front[n]);
    assert forall|m: int| 0 <= m < items.len() && has_key(#[trigger] items[m], key) implies {
        &&& !is_older(items[n].version, items[m].version)
        &&& m < n ==> is_older(items[m].version, items[n].version)
    } by {
        if m < front.len() {
            assert(front[m] == items[m]);
        }
    }
}

/// The queue once an item has arrived whose key is there already.
proof fn lemma_newest_of_known_key<K: PartialEq, V, W: PartialOrd>(items: Seq<Entry<K, V, W>>)
    requires
        well_ordered::<K, W>(),
        items.len() > 0,
        ({
            let queue = with_items(Seq::empty(), items.drop_last());
            &&& holds_newest(queue, items.drop_last())
            &&& one_per_key(queue)
            &&& key_index(queue, items.last().key) < queue.len()
        }),
    ensures
        holds_newest(
            with_item(with_items(Seq::empty(), items.drop_last()), items.last()),
            items,
        ),
{
    reveal(obeys_eq_spec_properties);
    let front = items.drop_last();
    let last = items.last();
    let queue = with_items(Seq::empty(), front);
    let more = with_item(queue, last);
    let firsts = first_occurrences(front);
    let i = key_index(queue, last.key);
    lemma_key_index(queue, last.key);
    lemma_firsts_are_places(front);
    assert(occurs(front, last.key)) by {
        let key = front[firsts[i]].key;
        assert(is_newest(front, key, queue[i]));
        let k = choose|k: int| #[trigger] newest_at(front, key, k) && front[k] == queue[i];
        assert(has_key(front[k], last.key));
    }
    assert(first_occurrences(items) == firsts);
    assert forall|j: int| 0 <= j < more.len() implies is_newest(
        items,
        items[first_occurrences(items)[j]].key,
        #[trigger] more[j],
    ) by {
        let key = front[firsts[j]].key;
        assert(items[firsts[j]] == front[firsts[j]]);
        assert(is_newest(front, key, queue[j]));
        let k = choose|k: int| #[trigger] newest_at(front, key, k) && front[k] == queue[j];
        assert(queue[j].key.eq_spec(&key));
        if j != i {
            if has_key(last, key) {
                assert(queue[i].key.eq_spec(&last.key));
                assert(last.key.eq_spec(&key));
                assert(queue[i].key.eq_spec(&key));
                assert(key.eq_spec(&queue[j].key));
                assert(queue[i].key.eq_spec(&queue[j].key));
                assert(queue[j].key.eq_spec(&queue[i].key));
                if i < j {
                    assert(!has_key(queue[i], queue[j].key));
                } else {
                    assert(!has_key(queue[j], queue[i].key));
                }
            }
            lemma_newest_stays(items, key, k);
        } else if is_older(queue[i].version, last.version) {
            assert(queue[i].key.eq_spec(&last.key));
            assert(last.key.eq_spec(&queue[i].key));
            assert(last.key.eq_spec(&key));
            lemma_newer_takes_over(items, key, k);
        } else {
            lemma_newest_stays(items, key, k);
        }
    }
}

/// An item that is newer than the newest with its key is the newest.
proof fn lemma_newer_takes_over<K: PartialEq, V, W: PartialOrd>(
    items: Seq<Entry<K, V, W>>,
    key: K,
    n: int,
)
    requires
        well_ordered::<K, W>(),
        items.len() > 0,
        newest_at(items.drop_last(), key, n),
        has_key(items.last(), key),
        is_older(items.drop_last()[n].version, items.last().version),
    ensures
        newest_at(items, key, items.len() - 1),
{
    reveal(obeys_eq_spec_properties);
    reveal(obeys_partial_cmp_spec_properties);
    let front = items.drop_last();
    let last = items.last();
    let newest = front[n].version;
    assert forall|m: int| 0 <= m < items.len() && has_key(#[trigger] items[m], key) implies {
        &&& !is_older(last.version, items[m].version)
        &&& m < items.len() - 1 ==> is_older(items[m].version, last.version)
    } by {
        let version = items[m].version;
        if m < front.len() {
            assert(front[m] == items[m]);
            assert(!is_older(newest, version));
            assert(version.partial_cmp_spec(&last.version) is Some);
            assert(version.partial_cmp_spec(&newest) is Some);
            assert(newest.partial_cmp_spec(&last.version) == Some(Ordering::Less));
            match version.partial_cmp_spec(&last.version) {
                Some(Ordering::Greater) => {
                    assert(last.version.partial_cmp_spec(&version) == Some(Ordering::Less));
                    assert(newest.partial_cmp_spec(&version) == Some(Ordering::Less));
                },
                Some(Ordering::Equal) => {
                    assert(version.eq_spec(&last.version));
                    match version.partial_cmp_spec(&newest) {
                        Some(Ordering::Less) => {
                            assert(version.partial_cmp_spec(&last.version) == Some(
                                Ordering::Less,
                            ));
                        },
                        Some(Ordering::Equal) => {
                            assert(version.eq_spec(&newest));
                            assert(newest.eq_spec(&version));
                            assert(newest.eq_spec(&last.version));
                            assert(newest.partial_cmp_spec(&last.version) == Some(
                                Ordering::Equal,
                            ));
                        },
                        _ => {
                            assert(newest.partial_cmp_spec(&version) == Some(Ordering::Less));
                        },
                    }
                },
                _ => {},
            }
            if is_older(last.version, version) {
                assert(version.partial_cmp_spec(&last.version) == Some(Ordering::Greater));
            }
        } else if is_older(last.version, last.version) {
            assert(last.version.partial_cmp_spec(&last.version) == Some(Ordering::Greater));
        }
    }
}

} // verus!
