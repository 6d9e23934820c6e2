//! The order of texts by their bytes, and stable sorting by it.

use vstd::prelude::*;
use vstd::utf8::encode_utf8;

use crate::text::lemma_encode_utf8_injective;

verus! {

/// Whether `a` comes before `b` in lexicographic order.
pub open spec fn bytes_before(a: Seq<u8>, b: Seq<u8>) -> bool
    decreases a.len(),
{
    if b.len() == 0 {
        false
    } else if a.len() == 0 {
        true
    } else {
        a[0] < b[0] || a[0] == b[0] && bytes_before(a.drop_first(), b.drop_first())
    }
}

/// Whether one text comes before another: their UTF-8 encodings do.
pub open spec fn text_before(a: Seq<char>, b: Seq<char>) -> bool {
    bytes_before(encode_utf8(a), encode_utf8(b))
}

proof fn lemma_bytes_trichotomy(a: Seq<u8>, b: Seq<u8>)
    ensures
        !(bytes_before(a, b) && bytes_before(b, a)),
        !bytes_before(a, a),
        !bytes_before(a, b) && !bytes_before(b, a) ==> a == b,
    decreases a.len(),
{
    if a.len() > 0 {
        lemma_bytes_trichotomy(a.drop_first(), a.drop_first());
    }
    if a.len() > 0 && b.len() > 0 {
        lemma_bytes_trichotomy(a.drop_first(), b.drop_first());
        if a[0] == b[0] && a.drop_first() == b.drop_first() {
            assert(a =~= seq![a[0]] + a.drop_first());
            assert(b =~= seq![b[0]] + b.drop_first());
        }
    } else if a.len() == 0 && b.len() == 0 {
        assert(a =~= b);
    }
}

proof fn lemma_bytes_transitive(a: Seq<u8>, b: Seq<u8>, c: Seq<u8>)
    requires
        bytes_before(a, b),
        bytes_before(b, c),
    ensures
        bytes_before(a, c),
    decreases a.len(),
{
    if a.len() > 0 && a[0] == b[0] && b[0] == c[0] {
        lemma_bytes_transitive(a.drop_first(), b.drop_first(), c.drop_first());
    }
}

/// Law: of two texts one comes before the other, unless they are the same.
pub proof fn law_text_order_is_total(a: Seq<char>, b: Seq<char>)
    ensures
        !(text_before(a, b) && text_before(b, a)),
        a == b <==> !text_before(a, b) && !text_before(b, a),
{
    lemma_bytes_trichotomy(encode_utf8(a), encode_utf8(b));
    if !text_before(a, b) && !text_before(b, a) {
        lemma_encode_utf8_injective(a, b);
    }
}

/// Law: a text comes before all texts that come after one that it comes before.
pub proof fn law_text_order_is_transitive(a: Seq<char>, b: Seq<char>, c: Seq<char>)
    requires
        text_before(a, b),
        text_before(b, c),
    ensures
        text_before(a, c),
{
    lemma_bytes_transitive(encode_utf8(a), encode_utf8(b), encode_utf8(c));
}

/// Whether text `a` comes before text `b`.
pub fn is_before(a: &str, b: &str) -> (before: bool)
    ensures
        before == text_before(a@, b@),
{
    let left = a.as_bytes();
    let right = b.as_bytes();
    let mut i: usize = 0;
    assert(left@.skip(0) =~= left@);
    assert(right@.skip(0) =~= right@);
    while i < left.len() && i < right.len()
        invariant
            left@ == encode_utf8(a@),
            right@ == encode_utf8(b@),
            i <= left@.len(),
            i <= right@.len(),
            text_before(a@, b@) == bytes_before(left@.skip(i as int), right@.skip(i as int)),
        decreases left@.len() - i,
    {
        assert(left@.skip(i as int).drop_first() =~= left@.skip(i + 1));
        assert(right@.skip(i as int).drop_first() =~= right@.skip(i + 1));
        if left[i] < right[i] {
            return true;
        }
        if left[i] > right[i] {
            return false;
        }
        i += 1;
    }
    i < right.len()
}

/// Whether `order` lists the places of several texts such that the texts ascend, and the same text
/// keeps the order in which it occurs. There is only one such order.
pub open spec fn is_stable_order(texts: Seq<Seq<char>>, order: Seq<int>) -> bool {
    &&& order.len() == texts.len()
    &&& forall|i: int| 0 <= i < order.len() ==> 0 <= #[trigger] order[i] < texts.len()
    &&& forall|i: int, j: int|
        0 <= i < j < order.len() ==> comes_first(texts, #[trigger] order[i], #[trigger] order[j])
}

/// Whether the text at place `a` comes before the one at place `b`, or is the same and stands in
/// front of it.
pub open spec fn comes_first(texts: Seq<Seq<char>>, a: int, b: int) -> bool {
    text_before(texts[a], texts[b]) || texts[a] == texts[b] && a < b
}

/// One more text, in front of those that come after it and behind all others.
pub proof fn lemma_stable_insert(texts: Seq<Seq<char>>, order: Seq<int>, text: Seq<char>, p: int)
    requires
        is_stable_order(texts, order),
        0 <= p <= order.len(),
        forall|i: int| 0 <= i < p ==> !text_before(text, texts[#[trigger] order[i]]),
        forall|i: int| p <= i < order.len() ==> text_before(text, texts[#[trigger] order[i]]),
    ensures
        is_stable_order(texts.push(text), order.insert(p, texts.len() as int)),
{
    let more = texts.push(text);
    let last = texts.len() as int;
    let new = order.insert(p, last);
    assert forall|i: int, j: int| 0 <= i < j < new.len() implies comes_first(
        more,
        #[trigger] new[i],
        #[trigger] new[j],
    ) by {
        let i0 = if i < p {
            i
        } else {
            i - 1
        };
        let j0 = if j < p {
            j
        } else {
            j - 1
        };
        if i != p && j != p {
            assert(comes_first(texts, order[i0], order[j0]));
        } else if i != p {
            law_text_order_is_total(text, texts[order[i0]]);
        } else {
            assert(text_before(text, texts[order[j0]]));
        }
    }
}

/// Law: there is one way to sort texts that keeps the order of those that are the same.
pub proof fn law_stable_order_is_unique(texts: Seq<Seq<char>>, a: Seq<int>, b: Seq<int>)
    requires
        is_stable_order(texts, a),
        is_stable_order(texts, b),
    ensures
        a == b,
    decreases texts.len(),
{
    let n = texts.len() as int;
    if n > 0 {
        let front = texts.drop_last();
        let i = lemma_place_in_order(texts, a, n - 1);
        let j = lemma_place_in_order(texts, b, n - 1);
        lemma_order_without(texts, a, i);
        lemma_order_without(texts, b, j);
        law_stable_order_is_unique(front, a.remove(i), b.remove(j));
        let rest = a.remove(i);
        if i <= j {
            lemma_same_place(texts, rest, a, b, i, j);
        } else {
            lemma_same_place(texts, rest, b, a, j, i);
        }
        assert(a =~= rest.insert(i, n - 1));
        assert(b =~= rest.insert(j, n - 1));
    } else {
        assert(a =~= b);
    }
}

/// A place cannot stand both in front of and behind another.
proof fn lemma_same_place(
    texts: Seq<Seq<char>>,
    rest: Seq<int>,
    a: Seq<int>,
    b: Seq<int>,
    i: int,
    j: int,
)
    requires
        is_stable_order(texts, a),
        is_stable_order(texts, b),
        0 <= i <= j < a.len(),
        a[i] == texts.len() - 1,
        b[j] == texts.len() - 1,
        rest == a.remove(i),
        rest == b.remove(j),
    ensures
        i == j,
{
    if i < j {
        assert(a[i + 1] == rest[i]);
        assert(b[i] == rest[i]);
        assert(comes_first(texts, a[i], a[i + 1]));
        assert(comes_first(texts, b[i], b[j]));
        law_text_order_is_total(texts[a[i]], texts[a[i + 1]]);
    }
}

/// Every place occurs in an order.
proof fn lemma_place_in_order(texts: Seq<Seq<char>>, order: Seq<int>, place: int) -> (i: int)
    requires
        is_stable_order(texts, order),
        0 <= place < texts.len(),
    ensures
        0 <= i < order.len(),
        order[i] == place,
{
    let places = order.to_set();
    assert(order.no_duplicates()) by {
        assert forall|i: int, j: int|
            0 <= i < order.len() && 0 <= j < order.len() && i != j implies order[i] != order[j] by {
            if i < j {
                assert(comes_first(texts, order[i], order[j]));
            } else {
                assert(comes_first(texts, order[j], order[i]));
            }
            law_text_order_is_total(texts[order[i]], texts[order[i]]);
        }
    }
    order.unique_seq_to_set();
    let all = vstd::set_lib::set_int_range(0, texts.len() as int);
    vstd::set_lib::lemma_int_range(0, texts.len() as int);
    assert(places.subset_of(all)) by {
        assert forall|place: int| #[trigger] places.contains(place) implies all.contains(place) by {
            let i = choose|i: int| 0 <= i < order.len() && order[i] == place;
            assert(0 <= order[i] < texts.len());
        }
    }
    vstd::set_lib::lemma_subset_equality(places, all);
    assert(all.contains(place));
    assert(order.contains(place));
    choose|i: int| 0 <= i < order.len() && order[i] == place
}

/// The order of all texts but the last.
proof fn lemma_order_without(texts: Seq<Seq<char>>, order: Seq<int>, i: int)
    requires
        is_stable_order(texts, order),
        0 <= i < order.len(),
        order[i] == texts.len() - 1,
    ensures
        is_stable_order(texts.drop_last(), order.remove(i)),
{
    let front = texts.drop_last();
    let rest = order.remove(i);
    assert forall|k: int| 0 <= k < rest.len() implies 0 <= #[trigger] rest[k] < front.len() by {
        let k0 = if k < i {
            k
        } else {
            k + 1
        };
        assert(rest[k] == order[k0]);
        assert(0 <= order[k0] < texts.len());
        law_text_order_is_total(texts[order[i]], texts[order[i]]);
        if k0 < i {
            assert(comes_first(texts, order[k0], order[i]));
        } else {
            assert(comes_first(texts, order[i], order[k0]));
        }
    }
    assert forall|a: int, b: int| 0 <= a < b < rest.len() implies comes_first(
        front,
        #[trigger] rest[a],
        #[trigger] rest[b],
    ) by {
        let a0 = if a < i {
            a
        } else {
            a + 1
        };
        let b0 = if b < i {
            b
        } else {
            b + 1
        };
        assert(comes_first(texts, order[a0], order[b0]));
        assert(0 <= rest[a] < front.len() && 0 <= rest[b] < front.len());
    }
}

} // verus!
