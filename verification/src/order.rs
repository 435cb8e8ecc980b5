//! Ordering by key, kept stable: what several lists of the app are drawn in.
//!
//! A key is a sequence of integers compared left to right, the shorter first when one is a
//! prefix of the other. Names compare by the code points of their characters, which is the
//! order Rust gives to `String`.

use vstd::prelude::*;

verus! {

/// `a` comes strictly before `b`.
pub open spec fn key_lt(a: Seq<i128>, b: Seq<i128>) -> bool
    decreases a.len(),
{
    if a.len() == 0 {
        b.len() > 0
    } else if b.len() == 0 {
        false
    } else if a[0] < b[0] {
        true
    } else if a[0] > b[0] {
        false
    } else {
        key_lt(a.drop_first(), b.drop_first())
    }
}

pub open spec fn keys_of<T>(items: Seq<(Seq<i128>, T)>) -> Seq<Seq<i128>> {
    items.map_values(|item: (Seq<i128>, T)| item.0)
}

/// The entries with their keys taken by view.
pub open spec fn entries_view<T>(items: Seq<(Vec<i128>, T)>) -> Seq<(Seq<i128>, T)> {
    items.map_values(|item: (Vec<i128>, T)| (item.0@, item.1))
}

/// The values of keyed entries, in order.
pub open spec fn values_of<T>(items: Seq<(Seq<i128>, T)>) -> Seq<T> {
    items.map_values(|item: (Seq<i128>, T)| item.1)
}

/// The entries with every value mapped and the keys kept.
pub open spec fn map_entries<T, U>(items: Seq<(Seq<i128>, T)>, f: spec_fn(T) -> U) -> Seq<(Seq<i128>, U)> {
    items.map_values(|item: (Seq<i128>, T)| (item.0, f(item.1)))
}

/// Where a stable insertion puts an element with key `key`: after every element whose key
/// is not greater.
pub open spec fn insert_position(keys: Seq<Seq<i128>>, key: Seq<i128>) -> nat
    decreases keys.len(),
{
    if keys.len() == 0 {
        0
    } else if key_lt(key, keys[0]) {
        0
    } else {
        1 + insert_position(keys.drop_first(), key)
    }
}

pub open spec fn spec_insert<T>(sorted: Seq<(Seq<i128>, T)>, item: (Seq<i128>, T)) -> Seq<(Seq<i128>, T)> {
    sorted.insert(insert_position(keys_of(sorted), item.0) as int, item)
}

/// The stable sort of `items` by their keys: each element, in the given order, goes after
/// every element already placed whose key is not greater than its own.
pub open spec fn spec_stable_sort<T>(items: Seq<(Seq<i128>, T)>) -> Seq<(Seq<i128>, T)>
    decreases items.len(),
{
    if items.len() == 0 {
        Seq::empty()
    } else {
        spec_insert(spec_stable_sort(items.drop_last()), items.last())
    }
}

pub open spec fn sorted_keys(keys: Seq<Seq<i128>>) -> bool {
    forall|i: int, j: int| 0 <= i < j < keys.len() ==> !key_lt(#[trigger] keys[j], #[trigger] keys[i])
}

pub proof fn lemma_key_lt_irreflexive(a: Seq<i128>)
    ensures
        !key_lt(a, a),
    decreases a.len(),
{
    if a.len() > 0 {
        lemma_key_lt_irreflexive(a.drop_first());
    }
}

pub proof fn lemma_key_lt_total(a: Seq<i128>, b: Seq<i128>)
    ensures
        key_lt(a, b) || key_lt(b, a) || a == b,
    decreases a.len(),
{
    if a.len() > 0 && b.len() > 0 && a[0] == b[0] {
        lemma_key_lt_total(a.drop_first(), b.drop_first());
        if a.drop_first() == b.drop_first() {
            assert(a =~= seq![a[0]] + a.drop_first());
            assert(b =~= seq![b[0]] + b.drop_first());
        }
    }
    if a.len() == 0 && b.len() == 0 {
        assert(a =~= b);
    }
}

pub proof fn lemma_key_lt_transitive(a: Seq<i128>, b: Seq<i128>, c: Seq<i128>)
    requires
        key_lt(a, b),
        key_lt(b, c),
    ensures
        key_lt(a, c),
    decreases a.len(),
{
    if a.len() > 0 && b.len() > 0 && c.len() > 0 && a[0] == b[0] && b[0] == c[0] {
        lemma_key_lt_transitive(a.drop_first(), b.drop_first(), c.drop_first());
    }
}

pub proof fn lemma_key_lt_asymmetric(a: Seq<i128>, b: Seq<i128>)
    requires
        key_lt(a, b),
    ensures
        !key_lt(b, a),
    decreases a.len(),
{
    if a.len() > 0 && b.len() > 0 && a[0] == b[0] {
        lemma_key_lt_asymmetric(a.drop_first(), b.drop_first());
    }
}

proof fn lemma_insert_position_bounds(keys: Seq<Seq<i128>>, key: Seq<i128>)
    ensures
        insert_position(keys, key) <= keys.len(),
        forall|i: int| 0 <= i < insert_position(keys, key) ==> !key_lt(key, #[trigger] keys[i]),
        insert_position(keys, key) < keys.len() ==> key_lt(key, keys[insert_position(keys, key) as int]),
    decreases keys.len(),
{
    if keys.len() > 0 && !key_lt(key, keys[0]) {
        lemma_insert_position_bounds(keys.drop_first(), key);
        assert forall|i: int| 0 <= i < insert_position(keys, key) implies !key_lt(key, #[trigger] keys[i]) by {
            if i > 0 {
                assert(keys[i] == keys.drop_first()[i - 1]);
            }
        }
    }
}

proof fn lemma_insert_position_is(keys: Seq<Seq<i128>>, key: Seq<i128>, position: int)
    requires
        0 <= position <= keys.len(),
        forall|i: int| 0 <= i < position ==> !key_lt(key, #[trigger] keys[i]),
        position < keys.len() ==> key_lt(key, keys[position]),
    ensures
        insert_position(keys, key) == position,
    decreases keys.len(),
{
    if keys.len() > 0 && position > 0 {
        assert(!key_lt(key, keys[0]));
        assert forall|i: int| 0 <= i < position - 1 implies !key_lt(key, #[trigger] keys.drop_first()[i]) by {
            assert(keys.drop_first()[i] == keys[i + 1]);
        }
        lemma_insert_position_is(keys.drop_first(), key, position - 1);
    }
}

/// Inserting at the stable position keeps a sorted list sorted.
proof fn lemma_insert_keeps_sorted<T>(sorted: Seq<(Seq<i128>, T)>, item: (Seq<i128>, T))
    requires
        sorted_keys(keys_of(sorted)),
    ensures
        sorted_keys(keys_of(spec_insert(sorted, item))),
        spec_insert(sorted, item).len() == sorted.len() + 1,
{
    let keys = keys_of(sorted);
    let position = insert_position(keys, item.0) as int;
    lemma_insert_position_bounds(keys, item.0);
    let result = spec_insert(sorted, item);
    let result_keys = keys_of(result);
    assert(result_keys =~= keys.insert(position, item.0));
    assert forall|i: int, j: int| 0 <= i < j < result_keys.len() implies !key_lt(
        #[trigger] result_keys[j],
        #[trigger] result_keys[i],
    ) by {
        if i < position && j == position {
            assert(result_keys[i] == keys[i]);
        } else if i == position && j > position {
            assert(result_keys[j] == keys[j - 1]);
            if j - 1 == position {
                lemma_key_lt_asymmetric(item.0, keys[position]);
            } else if key_lt(keys[j - 1], item.0) {
                assert(!key_lt(keys[j - 1], keys[position]));
                lemma_key_lt_transitive(keys[j - 1], item.0, keys[position]);
            }
        } else if j < position {
            assert(result_keys[i] == keys[i] && result_keys[j] == keys[j]);
        } else if i > position {
            assert(result_keys[i] == keys[i - 1] && result_keys[j] == keys[j - 1]);
        } else {
            assert(i < position && j > position);
            assert(result_keys[i] == keys[i] && result_keys[j] == keys[j - 1]);
        }
    }
}

/// The stable sort puts the keys in order and keeps every element.
pub proof fn law_stable_sort_orders<T>(items: Seq<(Seq<i128>, T)>)
    ensures
        sorted_keys(keys_of(spec_stable_sort(items))),
        spec_stable_sort(items).len() == items.len(),
        spec_stable_sort(items).to_multiset() =~= items.to_multiset(),
    decreases items.len(),
{
    if items.len() > 0 {
        law_stable_sort_orders(items.drop_last());
        let rest = spec_stable_sort(items.drop_last());
        lemma_insert_keeps_sorted(rest, items.last());
        lemma_insert_position_bounds(keys_of(rest), items.last().0);
        broadcast use vstd::seq_lib::group_to_multiset_ensures;
        let position = insert_position(keys_of(rest), items.last().0) as int;
        vstd::seq_lib::to_multiset_insert(rest, position, items.last());
        assert(items =~= items.drop_last().push(items.last()));
    } else {
        broadcast use vstd::seq_lib::group_to_multiset_ensures;
        assert(items.to_multiset().len() == 0);
        assert(spec_stable_sort(items).to_multiset().len() == 0);
    }
}

/// `a` comes strictly before `b`.
pub fn key_less(a: &Vec<i128>, b: &Vec<i128>) -> (less: bool)
    ensures
        less == key_lt(a@, b@),
{
    let mut index: usize = 0;

    proof {
        assert(a@.skip(0) =~= a@);
        assert(b@.skip(0) =~= b@);
    }

    while index < a.len() && index < b.len()
        invariant
            index <= a.len(),
            index <= b.len(),
            forall|i: int| 0 <= i < index ==> a@[i] == b@[i],
            key_lt(a@, b@) == key_lt(a@.skip(index as int), b@.skip(index as int)),
        decreases a.len() - index,
    {
        if a[index] < b[index] {
            return true;
        }
        if a[index] > b[index] {
            return false;
        }
        proof {
            assert(a@.skip(index as int).drop_first() =~= a@.skip(index + 1));
            assert(b@.skip(index as int).drop_first() =~= b@.skip(index + 1));
        }
        index = index + 1;
    }

    index == a.len() && index < b.len()
}

/// Mapping the values of the entries commutes with sorting them: the order depends on
/// the keys alone.
pub proof fn lemma_sort_maps<T, U>(items: Seq<(Seq<i128>, T)>, f: spec_fn(T) -> U)
    ensures
        map_entries(spec_stable_sort(items), f) == spec_stable_sort(map_entries(items, f)),
    decreases items.len(),
{
    if items.len() > 0 {
        lemma_sort_maps(items.drop_last(), f);
        let rest = spec_stable_sort(items.drop_last());
        assert(map_entries(items, f).drop_last() =~= map_entries(items.drop_last(), f));
        assert(keys_of(map_entries(rest, f)) =~= keys_of(rest));
        let position = insert_position(keys_of(rest), items.last().0) as int;
        lemma_insert_position_bounds(keys_of(rest), items.last().0);
        assert(map_entries(rest.insert(position, items.last()), f) =~= map_entries(rest, f).insert(
            position,
            (items.last().0, f(items.last().1)),
        ));
    } else {
        assert(map_entries(spec_stable_sort(items), f) =~= spec_stable_sort(map_entries(items, f)));
    }
}

/// Sorts by key, keeping the given order among equal keys.
pub fn stable_sort<T>(items: Vec<(Vec<i128>, T)>) -> (sorted: Vec<(Vec<i128>, T)>)
    ensures
        entries_view(sorted@) == spec_stable_sort(entries_view(items@)),
{
    let ghost given = entries_view(items@);
    let mut rest = items;
    let mut sorted: Vec<(Vec<i128>, T)> = Vec::new();
    let ghost mut taken: int = 0;

    while rest.len() > 0
        invariant
            0 <= taken <= given.len(),
            entries_view(rest@) == given.skip(taken),
            entries_view(sorted@) == spec_stable_sort(given.take(taken)),
        decreases rest.len(),
    {
        let ghost before = rest@;
        let item = rest.remove(0);
        let mut position: usize = 0;

        proof {
            assert(entries_view(before)[0] == (item.0@, item.1));
            assert(entries_view(rest@) =~= entries_view(before).drop_first());
        }

        while position < sorted.len() && !key_less(&item.0, &sorted[position].0)
            invariant
                position <= sorted.len(),
                forall|i: int| 0 <= i < position ==> !key_lt(item.0@, #[trigger] keys_of(entries_view(sorted@))[i]),
            decreases sorted.len() - position,
        {
            position = position + 1;
        }

        let ghost placed = entries_view(sorted@);

        proof {
            lemma_insert_position_is(keys_of(placed), item.0@, position as int);
            assert(given[taken] == (item.0@, item.1));
            assert(given.take(taken + 1).drop_last() =~= given.take(taken));
            assert(given.take(taken + 1).last() == (item.0@, item.1));
        }

        sorted.insert(position, item);

        proof {
            assert(entries_view(sorted@) =~= placed.insert(position as int, (item.0@, item.1)));
            taken = taken + 1;
            assert(entries_view(rest@) =~= given.skip(taken));
        }
    }

    proof {
        assert(given.take(taken) =~= given);
    }

    sorted
}

/// The values of the entries, sorted by key, equal keys in the given order.
pub fn sorted_values<T>(items: Vec<(Vec<i128>, T)>) -> (values: Vec<T>)
    ensures
        values@ == values_of(spec_stable_sort(entries_view(items@))),
{
    let sorted = stable_sort(items);
    let ghost all = entries_view(sorted@);
    let mut values: Vec<T> = Vec::new();
    let mut rest = sorted;

    while rest.len() > 0
        invariant
            all.len() == values.len() + rest.len(),
            forall|i: int| 0 <= i < values.len() ==> (#[trigger] values@[i]) == all[i].1,
            forall|i: int| 0 <= i < rest.len() ==> (#[trigger] entries_view(rest@)[i]) == all[values.len() + i],
        decreases rest.len(),
    {
        let ghost before = rest@;
        let ghost done = values.len();
        let (_, value) = rest.remove(0);

        proof {
            assert(entries_view(before)[0] == all[done as int]);
            assert forall|i: int| 0 <= i < rest.len() implies (#[trigger] entries_view(rest@)[i]) == all[done + 1 + i] by {
                assert(rest@[i] == before[i + 1]);
                assert(entries_view(before)[i + 1] == all[done + i + 1]);
            }
        }

        values.push(value);
    }

    proof {
        assert(values@ =~= values_of(all));
    }

    values
}

} // verus!
