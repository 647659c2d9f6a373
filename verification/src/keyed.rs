//! Lists of keyed items in which no key stands twice, kept in the order in
//! which the keys first came.
use vstd::prelude::*;

verus! {

/// Whether an item of `items` has the key `key`.
pub open spec fn has_key<V>(items: Seq<(Seq<char>, V)>, key: Seq<char>) -> bool {
    exists|i: int| 0 <= i < items.len() && (#[trigger] items[i]).0 == key
}

/// No two items have the same key.
pub open spec fn keys_unique<V>(items: Seq<(Seq<char>, V)>) -> bool {
    forall|i: int, j: int|
        0 <= i < j < items.len() ==> (#[trigger] items[i]).0 != (#[trigger] items[j]).0
}

/// The position of the first item with the key `key`, or the length of the
/// list where there is none.
pub open spec fn position<V>(items: Seq<(Seq<char>, V)>, key: Seq<char>) -> int
    decreases items.len(),
{
    if items.len() == 0 {
        0
    } else if position(items.drop_last(), key) < items.len() - 1 {
        position(items.drop_last(), key)
    } else if items.last().0 == key {
        items.len() - 1
    } else {
        items.len() as int
    }
}

/// The list after `key` was given the value `value`: an item that had the
/// key is replaced where it stood, otherwise the new item comes last.
pub open spec fn inserted<V>(items: Seq<(Seq<char>, V)>, key: Seq<char>, value: V) -> Seq<
    (Seq<char>, V),
> {
    if position(items, key) < items.len() {
        items.update(position(items, key), (key, value))
    } else {
        items.push((key, value))
    }
}

/// The list after each item of `more` was inserted in turn.
pub open spec fn inserted_all<V>(items: Seq<(Seq<char>, V)>, more: Seq<(Seq<char>, V)>) -> Seq<
    (Seq<char>, V),
>
    decreases more.len(),
{
    if more.len() == 0 {
        items
    } else {
        inserted(inserted_all(items, more.drop_last()), more.last().0, more.last().1)
    }
}

/// `position` finds the first item with the key, and no item before it has
/// the key.
pub proof fn lemma_position<V>(items: Seq<(Seq<char>, V)>, key: Seq<char>)
    ensures
        0 <= position(items, key) <= items.len(),
        position(items, key) < items.len() ==> items[position(items, key)].0 == key,
        forall|i: int| 0 <= i < position(items, key) ==> (#[trigger] items[i]).0 != key,
        position(items, key) < items.len() <==> has_key(items, key),
    decreases items.len(),
{
    if items.len() > 0 {
        lemma_position(items.drop_last(), key);
        let p = position(items.drop_last(), key);
        assert forall|i: int| 0 <= i < position(items, key) implies (#[trigger] items[i]).0
            != key by {
            if i < items.len() - 1 {
                assert(items.drop_last()[i] == items[i]);
            }
        }
        if position(items, key) < items.len() {
            assert(items[position(items, key)].0 == key);
        } else {
            assert forall|i: int| 0 <= i < items.len() implies (#[trigger] items[i]).0 != key by {}
        }
    }
}

/// The value of the first item with the key `key`, if there is one.
pub open spec fn value_of<V>(items: Seq<(Seq<char>, V)>, key: Seq<char>) -> Option<V> {
    if position(items, key) < items.len() {
        Some(items[position(items, key)].1)
    } else {
        None
    }
}

/// The value of the last item with the key `key`, if there is one.
pub open spec fn latest<V>(items: Seq<(Seq<char>, V)>, key: Seq<char>) -> Option<V>
    decreases items.len(),
{
    if items.len() == 0 {
        None
    } else if items.last().0 == key {
        Some(items.last().1)
    } else {
        latest(items.drop_last(), key)
    }
}

/// A place that holds the key, with no place before it that does, is the
/// position of the key; where no place holds it, the position is the length.
pub proof fn lemma_position_is<V>(items: Seq<(Seq<char>, V)>, key: Seq<char>, p: int)
    requires
        0 <= p <= items.len(),
        p < items.len() ==> items[p].0 == key,
        forall|i: int| 0 <= i < p ==> (#[trigger] items[i]).0 != key,
    ensures
        position(items, key) == p,
{
    lemma_position(items, key);
    let q = position(items, key);
    if q < p {
        assert(items[q].0 == key);
    }
    if p < q {
        assert(items[p].0 == key);
    }
}

/// After an insertion the key that was inserted has the new value, and
/// every other key has the value it had.
pub proof fn lemma_value_of_inserted<V>(
    items: Seq<(Seq<char>, V)>,
    key: Seq<char>,
    value: V,
    other: Seq<char>,
)
    ensures
        value_of(inserted(items, key, value), other) == if other == key {
            Some(value)
        } else {
            value_of(items, other)
        },
{
    lemma_position(items, key);
    lemma_position(items, other);
    let p = position(items, key);
    let q = position(items, other);
    let out = inserted(items, key, value);
    if p < items.len() {
        assert forall|i: int| 0 <= i < out.len() implies (#[trigger] out[i]).0 == items[i].0 by {}
        assert forall|i: int| 0 <= i < q implies (#[trigger] out[i]).0 != other by {
            assert(items[i].0 != other);
        }
        lemma_position_is(out, other, q);
    } else {
        if other == key {
            assert forall|i: int| 0 <= i < items.len() implies (#[trigger] out[i]).0 != other by {
                assert(out[i] == items[i]);
            }
            lemma_position_is(out, other, items.len() as int);
        } else {
            assert forall|i: int| 0 <= i < q implies (#[trigger] out[i]).0 != other by {
                assert(out[i] == items[i]);
            }
            if q < items.len() {
                assert(out[q] == items[q]);
                lemma_position_is(out, other, q);
            } else {
                lemma_position_is(out, other, out.len() as int);
            }
        }
    }
}

/// After item after item was inserted, a key has the value of the last
/// item that had it, or, where none had it, the value it had before.
pub proof fn lemma_value_of_inserted_all<V>(
    items: Seq<(Seq<char>, V)>,
    more: Seq<(Seq<char>, V)>,
    key: Seq<char>,
)
    ensures
        value_of(inserted_all(items, more), key) == match latest(more, key) {
            Some(v) => Some(v),
            None => value_of(items, key),
        },
    decreases more.len(),
{
    if more.len() > 0 {
        lemma_value_of_inserted_all(items, more.drop_last(), key);
        lemma_value_of_inserted(
            inserted_all(items, more.drop_last()),
            more.last().0,
            more.last().1,
            key,
        );
    }
}

/// Where no key stands twice, the last item with a key is the first.
pub proof fn lemma_latest_unique<V>(items: Seq<(Seq<char>, V)>, key: Seq<char>)
    requires
        keys_unique(items),
    ensures
        latest(items, key) == value_of(items, key),
    decreases items.len(),
{
    lemma_position(items, key);
    if items.len() > 0 {
        let front = items.drop_last();
        assert forall|i: int, j: int| 0 <= i < j < front.len() implies (#[trigger] front[i]).0 != (
        #[trigger] front[j]).0 by {
            assert(front[i] == items[i]);
            assert(front[j] == items[j]);
        }
        lemma_latest_unique(front, key);
        lemma_position(front, key);
        if items.last().0 == key {
            let p = position(items, key);
            if p < items.len() - 1 {
                assert(items[p].0 == items[items.len() - 1].0);
                assert(false);
            }
        }
    }
}

/// Inserting keeps the keys different from each other, keeps the key of
/// every item that was there, and leaves an item with the new key.
pub proof fn lemma_inserted<V>(items: Seq<(Seq<char>, V)>, key: Seq<char>, value: V)
    requires
        keys_unique(items),
    ensures
        keys_unique(inserted(items, key, value)),
        has_key(inserted(items, key, value), key),
        forall|k: Seq<char>| has_key(items, k) ==> has_key(inserted(items, key, value), k),
        forall|k: Seq<char>|
            has_key(inserted(items, key, value), k) ==> k == key || has_key(items, k),
{
    lemma_position(items, key);
    let p = position(items, key);
    let out = inserted(items, key, value);
    if p < items.len() {
        assert(out[p].0 == key);
        assert forall|i: int, j: int| 0 <= i < j < out.len() implies (#[trigger] out[i]).0 != (
        #[trigger] out[j]).0 by {
            assert(out[i].0 == items[i].0);
            assert(out[j].0 == items[j].0);
        }
        assert forall|k: Seq<char>| has_key(items, k) implies has_key(out, k) by {
            let i = choose|i: int| 0 <= i < items.len() && (#[trigger] items[i]).0 == k;
            assert(out[i].0 == k);
        }
        assert forall|k: Seq<char>| has_key(out, k) implies k == key || has_key(items, k) by {
            let i = choose|i: int| 0 <= i < out.len() && (#[trigger] out[i]).0 == k;
            assert(items[i].0 == k);
        }
    } else {
        assert(out[items.len() as int].0 == key);
        assert forall|i: int, j: int| 0 <= i < j < out.len() implies (#[trigger] out[i]).0 != (
        #[trigger] out[j]).0 by {
            if j < items.len() {
                assert(out[i] == items[i]);
                assert(out[j] == items[j]);
            } else {
                assert(out[i] == items[i]);
            }
        }
        assert forall|k: Seq<char>| has_key(items, k) implies has_key(out, k) by {
            let i = choose|i: int| 0 <= i < items.len() && (#[trigger] items[i]).0 == k;
            assert(out[i].0 == k);
        }
        assert forall|k: Seq<char>| has_key(out, k) implies k == key || has_key(items, k) by {
            let i = choose|i: int| 0 <= i < out.len() && (#[trigger] out[i]).0 == k;
            if i < items.len() {
                assert(items[i].0 == k);
            }
        }
    }
}

/// What holds of every item of a list and of a new item holds of every
/// item after the insertion.
pub proof fn lemma_inserted_each<V>(
    items: Seq<(Seq<char>, V)>,
    key: Seq<char>,
    value: V,
    p: spec_fn((Seq<char>, V)) -> bool,
)
    requires
        forall|i: int| 0 <= i < items.len() ==> p(#[trigger] items[i]),
        p((key, value)),
    ensures
        forall|i: int|
            0 <= i < inserted(items, key, value).len() ==> p(
                #[trigger] inserted(items, key, value)[i],
            ),
{
    lemma_position(items, key);
    let out = inserted(items, key, value);
    assert forall|i: int| 0 <= i < out.len() implies p(#[trigger] out[i]) by {
        if i < items.len() && i != position(items, key) {
            assert(out[i] == items[i]);
        }
    }
}

/// What holds of every item of two lists holds of every item after the
/// items of the second were inserted into the first.
pub proof fn lemma_inserted_all_each<V>(
    items: Seq<(Seq<char>, V)>,
    more: Seq<(Seq<char>, V)>,
    p: spec_fn((Seq<char>, V)) -> bool,
)
    requires
        forall|i: int| 0 <= i < items.len() ==> p(#[trigger] items[i]),
        forall|i: int| 0 <= i < more.len() ==> p(#[trigger] more[i]),
    ensures
        forall|i: int|
            0 <= i < inserted_all(items, more).len() ==> p(#[trigger] inserted_all(items, more)[i]),
    decreases more.len(),
{
    if more.len() > 0 {
        let front = more.drop_last();
        assert forall|i: int| 0 <= i < front.len() implies p(#[trigger] front[i]) by {
            assert(front[i] == more[i]);
        }
        lemma_inserted_all_each(items, front, p);
        assert(more[more.len() - 1] == (more.last().0, more.last().1));
        lemma_inserted_each(inserted_all(items, front), more.last().0, more.last().1, p);
    }
}

/// An item with a key that the list lacks comes last.
pub proof fn lemma_inserted_new<V>(items: Seq<(Seq<char>, V)>, key: Seq<char>, value: V)
    requires
        !has_key(items, key),
    ensures
        inserted(items, key, value) == items.push((key, value)),
{
    lemma_position(items, key);
}

/// Inserting item after item keeps the keys different from each other.
pub proof fn lemma_inserted_all_unique<V>(items: Seq<(Seq<char>, V)>, more: Seq<(Seq<char>, V)>)
    requires
        keys_unique(items),
    ensures
        keys_unique(inserted_all(items, more)),
    decreases more.len(),
{
    if more.len() > 0 {
        lemma_inserted_all_unique(items, more.drop_last());
        lemma_inserted(inserted_all(items, more.drop_last()), more.last().0, more.last().1);
    }
}

/// Items with keys different from each other, inserted into an empty list,
/// give the list of themselves.
pub proof fn lemma_inserted_all_fresh<V>(more: Seq<(Seq<char>, V)>)
    requires
        keys_unique(more),
    ensures
        inserted_all(Seq::<(Seq<char>, V)>::empty(), more) == more,
    decreases more.len(),
{
    let none = Seq::<(Seq<char>, V)>::empty();
    if more.len() == 0 {
        assert(more =~= none);
    } else {
        let front = more.drop_last();
        assert forall|i: int, j: int| 0 <= i < j < front.len() implies (#[trigger] front[i]).0 != (
        #[trigger] front[j]).0 by {
            assert(front[i] == more[i]);
            assert(front[j] == more[j]);
        }
        lemma_inserted_all_fresh(front);
        if has_key(front, more.last().0) {
            let i = choose|i: int| 0 <= i < front.len() && (#[trigger] front[i]).0 == more.last().0;
            assert(front[i] == more[i]);
            assert(more[more.len() - 1] == more.last());
            assert(false);
        }
        lemma_inserted_new(front, more.last().0, more.last().1);
        assert(front.push((more.last().0, more.last().1)) =~= more);
    }
}

} // verus!
