//! A map from texts, in the order of its keys.

use vstd::prelude::*;

use crate::order::{is_before, law_text_order_is_total, law_text_order_is_transitive, text_before};

verus! {

/// The keys are in strictly ascending order.
pub open spec fn ascending<T>(items: Seq<(String, T)>) -> bool {
    forall|i: int, j: int|
        0 <= i < j < items.len() ==> text_before((#[trigger] items[i]).0@, (#[trigger] items[j]).0@)
}

/// Whether item `i` has the key `key`.
pub open spec fn is_at<T>(items: Seq<(String, T)>, key: Seq<char>, i: int) -> bool {
    0 <= i < items.len() && items[i].0@ == key
}

/// What a list of items says of each key.
pub open spec fn items_map<T>(items: Seq<(String, T)>) -> Map<Seq<char>, T> {
    Map::new(
        |key: Seq<char>| exists|i: int| is_at(items, key, i),
        |key: Seq<char>| items[choose|i: int| is_at(items, key, i)].1,
    )
}

/// In ascending order each key has one place.
pub proof fn lemma_one_place<T>(items: Seq<(String, T)>, key: Seq<char>, i: int)
    requires
        ascending(items),
        is_at(items, key, i),
    ensures
        items_map(items).dom().contains(key),
        items_map(items)[key] == items[i].1,
        forall|j: int| is_at(items, key, j) ==> j == i,
{
    assert forall|j: int| is_at(items, key, j) implies j == i by {
        law_text_order_is_total(key, key);
        if i < j {
            assert(text_before(items[i].0@, items[j].0@));
        } else if j < i {
            assert(text_before(items[j].0@, items[i].0@));
        }
    }
}

/// A value in the place of another changes nothing but what is said of its key.
pub proof fn lemma_update<T>(items: Seq<(String, T)>, i: int, value: T)
    requires
        ascending(items),
        0 <= i < items.len(),
    ensures
        ascending(items.update(i, (items[i].0, value))),
        items_map(items.update(i, (items[i].0, value))) == items_map(items).insert(
            items[i].0@,
            value,
        ),
{
    let after = items.update(i, (items[i].0, value));
    assert(ascending(after)) by {
        assert forall|a: int, b: int| 0 <= a < b < after.len() implies text_before(
            (#[trigger] after[a]).0@,
            (#[trigger] after[b]).0@,
        ) by {
            assert(after[a].0@ == items[a].0@ && after[b].0@ == items[b].0@);
        }
    }
    let goal = items_map(items).insert(items[i].0@, value);
    assert forall|key: Seq<char>|
        items_map(after).dom().contains(key) == #[trigger] goal.dom().contains(key) && (
        goal.dom().contains(key) ==> items_map(after)[key] == goal[key]) by {
        if exists|j: int| is_at(after, key, j) {
            let j = choose|j: int| is_at(after, key, j);
            assert(is_at(items, key, j));
            lemma_one_place(after, key, j);
            lemma_one_place(items, key, j);
            if key == items[i].0@ {
                assert(is_at(items, key, i));
            }
        }
        if items_map(items).dom().contains(key) {
            let j = choose|j: int| is_at(items, key, j);
            assert(is_at(after, key, j));
        }
        if key == items[i].0@ {
            assert(is_at(after, key, i));
        }
    }
    assert(items_map(after) =~= goal);
}

/// A new key between those that come before it and those that come after it.
pub proof fn lemma_insert<T>(items: Seq<(String, T)>, i: int, key: String, value: T)
    requires
        ascending(items),
        0 <= i <= items.len(),
        forall|j: int| 0 <= j < i ==> text_before((#[trigger] items[j]).0@, key@),
        forall|j: int| i <= j < items.len() ==> text_before(key@, (#[trigger] items[j]).0@),
    ensures
        ascending(items.insert(i, (key, value))),
        !items_map(items).dom().contains(key@),
        items_map(items.insert(i, (key, value))) == items_map(items).insert(key@, value),
{
    let after = items.insert(i, (key, value));
    law_text_order_is_total(key@, key@);
    assert(ascending(after)) by {
        assert forall|a: int, b: int| 0 <= a < b < after.len() implies text_before(
            (#[trigger] after[a]).0@,
            (#[trigger] after[b]).0@,
        ) by {
            let a0 = if a < i {
                a
            } else {
                a - 1
            };
            let b0 = if b < i {
                b
            } else {
                b - 1
            };
            if a != i && b != i {
                assert(text_before(items[a0].0@, items[b0].0@));
            } else if a != i {
                assert(text_before(items[a0].0@, key@));
            } else {
                assert(text_before(key@, items[b0].0@));
            }
        }
    }
    assert forall|j: int| !is_at(items, key@, j) by {
        if 0 <= j < i {
            assert(text_before(items[j].0@, key@));
        } else if i <= j < items.len() {
            assert(text_before(key@, items[j].0@));
        }
    }
    let goal = items_map(items).insert(key@, value);
    assert forall|other: Seq<char>|
        items_map(after).dom().contains(other) == #[trigger] goal.dom().contains(other) && (
        goal.dom().contains(other) ==> items_map(after)[other] == goal[other]) by {
        if exists|j: int| is_at(after, other, j) {
            let j = choose|j: int| is_at(after, other, j);
            lemma_one_place(after, other, j);
            if j != i {
                let j0 = if j < i {
                    j
                } else {
                    j - 1
                };
                assert(is_at(items, other, j0));
                lemma_one_place(items, other, j0);
                assert(other != key@);
            }
        }
        if items_map(items).dom().contains(other) {
            let j = choose|j: int| is_at(items, other, j);
            assert(is_at(
                after,
                other,
                if j < i {
                    j
                } else {
                    j + 1
                },
            ));
        }
        if other == key@ {
            assert(is_at(after, other, i));
        }
    }
    assert(items_map(after) =~= goal);
}

/// A map from texts to values.
pub struct TextMap<T> {
    items: Vec<(String, T)>,
}

impl<T> View for TextMap<T> {
    type V = Map<Seq<char>, T>;

    closed spec fn view(&self) -> Map<Seq<char>, T> {
        items_map(self.items@)
    }
}

impl<T> TextMap<T> {
    pub closed spec fn well_formed(&self) -> bool {
        ascending(self.items@)
    }

    pub fn new() -> (map: TextMap<T>)
        ensures
            map.well_formed(),
            map@ == Map::<Seq<char>, T>::empty(),
    {
        let map = TextMap { items: Vec::new() };
        assert(map@ =~= Map::<Seq<char>, T>::empty());
        map
    }

    /// The place of the first key that does not come before `key`.
    fn rank(&self, key: &str) -> (rank: usize)
        requires
            self.well_formed(),
        ensures
            rank <= self.items@.len(),
            forall|j: int| 0 <= j < rank ==> text_before((#[trigger] self.items@[j]).0@, key@),
            forall|j: int|
                rank <= j < self.items@.len() ==> !text_before(
                    (#[trigger] self.items@[j]).0@,
                    key@,
                ),
    {
        let mut i: usize = 0;
        while i < self.items.len() && is_before(self.items[i].0.as_str(), key)
            invariant
                i <= self.items@.len(),
                forall|j: int| 0 <= j < i ==> text_before((#[trigger] self.items@[j]).0@, key@),
            decreases self.items@.len() - i,
        {
            i += 1;
        }
        assert forall|j: int| i <= j < self.items@.len() implies !text_before(
            (#[trigger] self.items@[j]).0@,
            key@,
        ) by {
            if i < j && text_before(self.items@[j].0@, key@) {
                law_text_order_is_transitive(
                    self.items@[i as int].0@,
                    self.items@[j].0@,
                    key@,
                );
            }
        }
        i
    }

    /// The place of `key`, and whether it is there already.
    fn find(&self, key: &str) -> (found: (usize, bool))
        requires
            self.well_formed(),
        ensures
            found.1 == self@.dom().contains(key@),
            if found.1 {
                is_at(self.items@, key@, found.0 as int)
            } else {
                &&& found.0 <= self.items@.len()
                &&& forall|j: int|
                    0 <= j < found.0 ==> text_before((#[trigger] self.items@[j]).0@, key@)
                &&& forall|j: int|
                    found.0 <= j < self.items@.len() ==> text_before(
                        key@,
                        (#[trigger] self.items@[j]).0@,
                    )
            },
    {
        let i = self.rank(key);
        if i < self.items.len() && !is_before(key, self.items[i].0.as_str()) {
            proof {
                law_text_order_is_total(self.items@[i as int].0@, key@);
                lemma_one_place(self.items@, key@, i as int);
            }
            (i, true)
        } else {
            proof {
                assert forall|j: int| i <= j < self.items@.len() implies text_before(
                    key@,
                    (#[trigger] self.items@[j]).0@,
                ) by {
                    if i < j {
                        law_text_order_is_transitive(
                            key@,
                            self.items@[i as int].0@,
                            self.items@[j].0@,
                        );
                    }
                }
                assert forall|j: int| !is_at(self.items@, key@, j) by {
                    law_text_order_is_total(key@, key@);
                    if 0 <= j < i {
                        assert(text_before(self.items@[j].0@, key@));
                    } else if i <= j < self.items@.len() {
                        assert(text_before(key@, self.items@[j].0@));
                    }
                }
            }
            (i, false)
        }
    }

    /// The value of a key.
    pub fn get(&self, key: &str) -> (value: Option<&T>)
        requires
            self.well_formed(),
        ensures
            match value {
                Some(value) => self@.dom().contains(key@) && self@[key@] == *value,
                None => !self@.dom().contains(key@),
            },
    {
        let (i, found) = self.find(key);
        if found {
            proof {
                lemma_one_place(self.items@, key@, i as int);
            }
            Some(&self.items[i].1)
        } else {
            None
        }
    }

    /// The value of a key, to be changed. A key that is not there gets the value `default` first.
    pub fn entry(&mut self, key: String, default: T) -> (value: &mut T)
        requires
            old(self).well_formed(),
        ensures
            *value == (if old(self)@.dom().contains(key@) {
                old(self)@[key@]
            } else {
                default
            }),
            final(self).well_formed(),
            final(self)@ == old(self)@.insert(key@, *final(value)),
    {
        let ghost before = self.items@;
        let ghost key_ = key;
        let (i, found) = self.find(key.as_str());
        if !found {
            self.items.insert(i, (key, default));
        }
        let value = &mut self.items[i].1;
        proof {
            if found {
                lemma_one_place(before, key_@, i as int);
                lemma_update(before, i as int, *final(value));
                assert(after_borrow(self.items)@ =~= before.update(
                    i as int,
                    (before[i as int].0, *final(value)),
                ));
            } else {
                lemma_insert(before, i as int, key_, *final(value));
                assert(after_borrow(self.items)@ =~= before.insert(
                    i as int,
                    (key_, *final(value)),
                ));
            }
        }
        value
    }

    /// Gives a key a value.
    pub fn insert(&mut self, key: String, value: T)
        requires
            old(self).well_formed(),
        ensures
            final(self).well_formed(),
            final(self)@ == old(self)@.insert(key@, value),
    {
        let ghost before = self.items@;
        let (i, found) = self.find(key.as_str());
        if found {
            proof {
                lemma_update(before, i as int, value);
            }
            let known = self.items[i].0.clone();
            self.items.set(i, (known, value));
        } else {
            proof {
                lemma_insert(before, i as int, key, value);
            }
            self.items.insert(i, (key, value));
        }
    }

    /// The keys with their values, in ascending order.
    pub fn into_items(self) -> (items: Vec<(String, T)>)
        requires
            self.well_formed(),
        ensures
            ascending(items@),
            items_map(items@) == self@,
    {
        self.items
    }
}

} // verus!
