//! Stable sorting of items by a text that belongs to each.
use crate::text;
use vstd::prelude::*;

verus! {

/// `e` put behind the last of `s` whose key stands no later than its own.
pub open spec fn insert_by_key<T>(s: Seq<(Seq<char>, T)>, e: (Seq<char>, T)) -> Seq<(Seq<char>, T)>
    decreases s.len(),
{
    if s.len() == 0 || text::text_le(s.last().0, e.0) {
        s.push(e)
    } else {
        insert_by_key(s.drop_last(), e).push(s.last())
    }
}

/// The items in the order of their keys; those with the same key in the order in which they came.
pub open spec fn sort_by_key<T>(s: Seq<(Seq<char>, T)>) -> Seq<(Seq<char>, T)>
    decreases s.len(),
{
    if s.len() == 0 {
        s
    } else {
        insert_by_key(sort_by_key(s.drop_last()), s.last())
    }
}

/// Whether the keys are in order.
pub open spec fn in_order<T>(s: Seq<(Seq<char>, T)>) -> bool {
    forall|i: int, j: int| 0 <= i <= j < s.len() ==> text::text_le(#[trigger] s[i].0, #[trigger] s[j].0)
}

/// The keys and items of two sequences of the same length, side by side.
pub open spec fn keyed<T>(keys: Seq<Seq<char>>, items: Seq<T>) -> Seq<(Seq<char>, T)> {
    Seq::new(items.len(), |i: int| (keys[i], items[i]))
}

/// The items alone.
pub open spec fn items_of<T>(s: Seq<(Seq<char>, T)>) -> Seq<T> {
    s.map_values(|p: (Seq<char>, T)| p.1)
}

proof fn insert_by_key_orders<T>(s: Seq<(Seq<char>, T)>, e: (Seq<char>, T))
    requires
        in_order(s),
    ensures
        in_order(insert_by_key(s, e)),
        insert_by_key(s, e).len() == s.len() + 1,
        forall|k: Seq<char>|
            (s.len() == 0 || #[trigger] text::text_le(s.last().0, k)) && text::text_le(e.0, k)
                ==> #[trigger] text::text_le(insert_by_key(s, e).last().0, k),
    decreases s.len(),
{
    assert forall|a: Seq<char>| text::text_le(a, a) by {
        text::text_le_total(a, a);
    }
    if s.len() == 0 {
    } else if text::text_le(s.last().0, e.0) {
        let r = s.push(e);
        assert forall|i: int, j: int| 0 <= i <= j < r.len() implies text::text_le(
            #[trigger] r[i].0,
            #[trigger] r[j].0,
        ) by {
            if j == s.len() && i < s.len() {
                assert(text::text_le(s[i].0, s[s.len() - 1].0));
                text::text_le_transitive(s[i].0, s.last().0, e.0);
            }
        }
    } else {
        text::text_le_total(s.last().0, e.0);
        let t = s.drop_last();
        insert_by_key_orders(t, e);
        let m = insert_by_key(t, e);
        let r = m.push(s.last());
        if t.len() > 0 {
            assert(text::text_le(s[s.len() - 2].0, s[s.len() - 1].0));
            assert(t.last() == s[s.len() - 2]);
        }
        assert(text::text_le(m.last().0, s.last().0));
        assert forall|i: int, j: int| 0 <= i <= j < r.len() implies text::text_le(
            #[trigger] r[i].0,
            #[trigger] r[j].0,
        ) by {
            if j == m.len() && i < m.len() {
                assert(text::text_le(m[i].0, m[m.len() - 1].0));
                text::text_le_transitive(m[i].0, m.last().0, s.last().0);
            }
        }
    }
}

/// Sorting puts the keys in order and keeps the number of items.
pub proof fn sort_by_key_orders<T>(s: Seq<(Seq<char>, T)>)
    ensures
        in_order(sort_by_key(s)),
        sort_by_key(s).len() == s.len(),
    decreases s.len(),
{
    if s.len() > 0 {
        sort_by_key_orders(s.drop_last());
        insert_by_key_orders(sort_by_key(s.drop_last()), s.last());
    }
}

proof fn insert_by_key_permutes<T>(s: Seq<(Seq<char>, T)>, e: (Seq<char>, T))
    ensures
        insert_by_key(s, e).to_multiset() == s.to_multiset().insert(e),
    decreases s.len(),
{
    broadcast use vstd::seq_lib::group_to_multiset_ensures;

    if s.len() == 0 || text::text_le(s.last().0, e.0) {
    } else {
        insert_by_key_permutes(s.drop_last(), e);
        assert(s =~= s.drop_last().push(s.last()));
        assert(s.to_multiset() =~= s.drop_last().to_multiset().insert(s.last()));
        assert(insert_by_key(s, e).to_multiset() =~= insert_by_key(s.drop_last(), e).to_multiset().insert(
            s.last(),
        ));
        assert(insert_by_key(s, e).to_multiset() =~= s.to_multiset().insert(e));
    }
}

/// Sorting loses no item and adds none.
pub proof fn sort_by_key_permutes<T>(s: Seq<(Seq<char>, T)>)
    ensures
        sort_by_key(s).to_multiset() == s.to_multiset(),
    decreases s.len(),
{
    broadcast use vstd::seq_lib::group_to_multiset_ensures;

    if s.len() > 0 {
        sort_by_key_permutes(s.drop_last());
        insert_by_key_permutes(sort_by_key(s.drop_last()), s.last());
        assert(s =~= s.drop_last().push(s.last()));
    }
}

/// The items with a given key, in their order.
pub open spec fn with_key<T>(s: Seq<(Seq<char>, T)>, key: Seq<char>) -> Seq<(Seq<char>, T)>
    decreases s.len(),
{
    if s.len() == 0 {
        s
    } else if s.last().0 == key {
        with_key(s.drop_last(), key).push(s.last())
    } else {
        with_key(s.drop_last(), key)
    }
}

proof fn insert_by_key_stable<T>(s: Seq<(Seq<char>, T)>, e: (Seq<char>, T), key: Seq<char>)
    ensures
        with_key(insert_by_key(s, e), key) == with_key(s.push(e), key),
    decreases s.len(),
{
    if s.len() == 0 || text::text_le(s.last().0, e.0) {
    } else {
        insert_by_key_stable(s.drop_last(), e, key);
        let t = s.drop_last();
        let m = insert_by_key(t, e);
        assert(m.push(s.last()).drop_last() =~= m);
        assert(t.push(e).drop_last() =~= t);
        assert(s.push(e).drop_last() =~= s);
        text::text_le_total(e.0, e.0);
        assert(with_key(s, key) == if s.last().0 == key {
            with_key(t, key).push(s.last())
        } else {
            with_key(t, key)
        });
        assert(with_key(m.push(s.last()), key) == if s.last().0 == key {
            with_key(m, key).push(s.last())
        } else {
            with_key(m, key)
        });
    }
}

/// Items with the same key stay in the order in which they came.
pub proof fn sort_by_key_stable<T>(s: Seq<(Seq<char>, T)>, key: Seq<char>)
    ensures
        with_key(sort_by_key(s), key) == with_key(s, key),
    decreases s.len(),
{
    if s.len() > 0 {
        let t = sort_by_key(s.drop_last());
        sort_by_key_stable(s.drop_last(), key);
        insert_by_key_stable(t, s.last(), key);
        assert(t.push(s.last()).drop_last() =~= t);
    }
}

proof fn insert_by_key_keeps<T>(s: Seq<(Seq<char>, T)>, e: (Seq<char>, T), p: spec_fn((Seq<char>, T)) -> bool)
    requires
        forall|i: int| 0 <= i < s.len() ==> p(#[trigger] s[i]),
        p(e),
    ensures
        forall|i: int| 0 <= i < insert_by_key(s, e).len() ==> p(#[trigger] insert_by_key(s, e)[i]),
    decreases s.len(),
{
    if s.len() == 0 || text::text_le(s.last().0, e.0) {
    } else {
        assert forall|i: int| 0 <= i < s.drop_last().len() implies p(#[trigger] s.drop_last()[i]) by {
            assert(p(s[i]));
        }
        insert_by_key_keeps(s.drop_last(), e, p);
        let m = insert_by_key(s.drop_last(), e);
        assert(p(s[s.len() - 1]));
        assert forall|i: int| 0 <= i < m.len() + 1 implies p(#[trigger] insert_by_key(s, e)[i]) by {
            if i < m.len() {
                assert(p(m[i]));
            }
        }
    }
}

/// What holds of every item before sorting holds of every item after it.
pub proof fn sort_by_key_keeps<T>(s: Seq<(Seq<char>, T)>, p: spec_fn((Seq<char>, T)) -> bool)
    requires
        forall|i: int| 0 <= i < s.len() ==> p(#[trigger] s[i]),
    ensures
        forall|i: int| 0 <= i < sort_by_key(s).len() ==> p(#[trigger] sort_by_key(s)[i]),
    decreases s.len(),
{
    if s.len() > 0 {
        assert forall|i: int| 0 <= i < s.drop_last().len() implies p(#[trigger] s.drop_last()[i]) by {
            assert(p(s[i]));
        }
        sort_by_key_keeps(s.drop_last(), p);
        insert_by_key_keeps(sort_by_key(s.drop_last()), s.last(), p);
    }
}

/// Whether of every two items with the same key the first stands in a relation to the second.
pub open spec fn ranked<T>(s: Seq<(Seq<char>, T)>, rel: spec_fn(T, T) -> bool) -> bool {
    forall|i: int, j: int|
        0 <= i < j < s.len() && s[i].0 == s[j].0 ==> rel((#[trigger] s[i]).1, (#[trigger] s[j]).1)
}

proof fn insert_by_key_ranks<T>(s: Seq<(Seq<char>, T)>, e: (Seq<char>, T), rel: spec_fn(T, T) -> bool)
    requires
        ranked(s, rel),
        forall|i: int| 0 <= i < s.len() && s[i].0 == e.0 ==> rel((#[trigger] s[i]).1, e.1),
    ensures
        ranked(insert_by_key(s, e), rel),
    decreases s.len(),
{
    if s.len() == 0 || text::text_le(s.last().0, e.0) {
    } else {
        let t = s.drop_last();
        let last = s.last();
        text::text_le_total(e.0, e.0);
        assert(ranked(t, rel)) by {
            assert forall|i: int, j: int| 0 <= i < j < t.len() && t[i].0 == t[j].0 implies rel(
                (#[trigger] t[i]).1,
                (#[trigger] t[j]).1,
            ) by {
                assert(rel(s[i].1, s[j].1));
            }
        }
        assert forall|i: int| 0 <= i < t.len() && t[i].0 == e.0 implies rel((#[trigger] t[i]).1, e.1) by {
            assert(rel(s[i].1, e.1));
        }
        insert_by_key_ranks(t, e, rel);
        let m = insert_by_key(t, e);
        let p = |x: (Seq<char>, T)| x.0 == last.0 ==> rel(x.1, last.1);
        assert forall|i: int| 0 <= i < t.len() implies p(#[trigger] t[i]) by {
            if t[i].0 == last.0 {
                assert(rel(s[i].1, s[s.len() - 1].1));
            }
        }
        insert_by_key_keeps(t, e, p);
        assert forall|i: int, j: int|
            0 <= i < j < m.push(last).len() && m.push(last)[i].0 == m.push(last)[j].0 implies rel(
            (#[trigger] m.push(last)[i]).1,
            (#[trigger] m.push(last)[j]).1,
        ) by {
            if j == m.len() {
                assert(p(m[i]));
            } else {
                assert(rel(m[i].1, m[j].1));
            }
        }
    }
}

/// A relation that holds of every two items with the same key, in their order, holds of them after sorting.
pub proof fn sort_by_key_ranks<T>(s: Seq<(Seq<char>, T)>, rel: spec_fn(T, T) -> bool)
    requires
        ranked(s, rel),
    ensures
        ranked(sort_by_key(s), rel),
    decreases s.len(),
{
    if s.len() > 0 {
        let t = s.drop_last();
        let e = s.last();
        assert(ranked(t, rel)) by {
            assert forall|i: int, j: int| 0 <= i < j < t.len() && t[i].0 == t[j].0 implies rel(
                (#[trigger] t[i]).1,
                (#[trigger] t[j]).1,
            ) by {
                assert(rel(s[i].1, s[j].1));
            }
        }
        sort_by_key_ranks(t, rel);
        let p = |x: (Seq<char>, T)| x.0 == e.0 ==> rel(x.1, e.1);
        assert forall|i: int| 0 <= i < t.len() implies p(#[trigger] t[i]) by {
            if t[i].0 == e.0 {
                assert(rel(s[i].1, s[s.len() - 1].1));
            }
        }
        sort_by_key_keeps(t, p);
        let m = sort_by_key(t);
        assert forall|i: int| 0 <= i < m.len() && m[i].0 == e.0 implies rel((#[trigger] m[i]).1, e.1) by {
            assert(p(m[i]));
        }
        insert_by_key_ranks(m, e, rel);
    }
}

/// Items that are in order stay as they are.
pub proof fn sort_by_key_fixes<T>(s: Seq<(Seq<char>, T)>)
    requires
        in_order(s),
    ensures
        sort_by_key(s) == s,
    decreases s.len(),
{
    if s.len() > 0 {
        let t = s.drop_last();
        assert forall|i: int, j: int| 0 <= i <= j < t.len() implies text::text_le(
            #[trigger] t[i].0,
            #[trigger] t[j].0,
        ) by {
            assert(text::text_le(s[i].0, s[j].0));
        }
        sort_by_key_fixes(t);
        if t.len() > 0 {
            assert(text::text_le(s[s.len() - 2].0, s[s.len() - 1].0));
        }
        assert(s =~= t.push(s.last()));
    }
}

/// Each item made another by a function, under the same key.
pub open spec fn mapped<T, U>(s: Seq<(Seq<char>, T)>, f: spec_fn(T) -> U) -> Seq<(Seq<char>, U)> {
    s.map_values(|p: (Seq<char>, T)| (p.0, f(p.1)))
}

proof fn insert_by_key_maps<T, U>(s: Seq<(Seq<char>, T)>, e: (Seq<char>, T), f: spec_fn(T) -> U)
    ensures
        mapped(insert_by_key(s, e), f) == insert_by_key(mapped(s, f), (e.0, f(e.1))),
    decreases s.len(),
{
    let m = mapped(s, f);
    if s.len() == 0 || text::text_le(s.last().0, e.0) {
        assert(mapped(s.push(e), f) =~= m.push((e.0, f(e.1))));
    } else {
        insert_by_key_maps(s.drop_last(), e, f);
        assert(m.drop_last() =~= mapped(s.drop_last(), f));
        assert(m.last().0 == s.last().0);
        assert(mapped(insert_by_key(s, e), f) =~= mapped(insert_by_key(s.drop_last(), e), f).push(m.last()));
    }
}

/// Sorting goes by the keys alone: it makes no difference whether items are changed before or after.
pub proof fn sort_by_key_maps<T, U>(s: Seq<(Seq<char>, T)>, f: spec_fn(T) -> U)
    ensures
        mapped(sort_by_key(s), f) == sort_by_key(mapped(s, f)),
    decreases s.len(),
{
    if s.len() > 0 {
        sort_by_key_maps(s.drop_last(), f);
        insert_by_key_maps(sort_by_key(s.drop_last()), s.last(), f);
        assert(mapped(s, f).drop_last() =~= mapped(s.drop_last(), f));
    } else {
        assert(mapped(s, f) =~= Seq::empty());
    }
}

/// Sorts items by their keys.
pub fn sort_with_keys<T>(keys: Vec<String>, items: Vec<T>) -> (r: Vec<T>)
    requires
        keys@.len() == items@.len(),
    ensures
        r@ == items_of(sort_by_key(keyed(text::texts(keys@), items@))),
{
    let ghost all = keyed(text::texts(keys@), items@);
    let mut keys = keys;
    let mut items = items;
    let n: usize = items.len();
    let mut done_keys: Vec<String> = Vec::new();
    let mut done: Vec<T> = Vec::new();
    let mut i: usize = 0;
    let ghost mut sorted = sort_by_key(all.take(0));
    assert(all.take(0) =~= Seq::empty());
    assert(text::texts(done_keys@) =~= sorted.map_values(|p: (Seq<char>, T)| p.0));
    assert(done@ =~= items_of(sorted));
    while i < n
        invariant
            i <= n,
            n == all.len(),
            keys@.len() == n - i,
            items@.len() == n - i,
            sorted == sort_by_key(all.take(i as int)),
            sorted.len() == i,
            done@ == items_of(sorted),
            text::texts(done_keys@) == sorted.map_values(|p: (Seq<char>, T)| p.0),
            keyed(text::texts(keys@), items@) == all.skip(i as int),
        decreases n - i,
    {
        let ghost before_keys = keys@;
        let ghost before_items = items@;
        let key = keys.remove(0);
        let item = items.remove(0);
        let ghost e = (key@, item);
        proof {
            assert(text::texts(before_keys)[0] == before_keys[0]@);
            assert(keyed(text::texts(before_keys), before_items)[0] == e);
            assert(all.skip(i as int)[0] == all[i as int]);
            let rest = keyed(text::texts(keys@), items@);
            assert forall|k: int| 0 <= k < rest.len() implies #[trigger] rest[k] == all.skip(i + 1)[k] by {
                assert(text::texts(keys@)[k] == keys@[k]@);
                assert(text::texts(before_keys)[k + 1] == before_keys[k + 1]@);
                assert(keyed(text::texts(before_keys), before_items)[k + 1] == all.skip(i as int)[k + 1]);
            }
            assert(rest =~= all.skip(i + 1));
        }
        let mut at: usize = i;
        assert(text::texts(done_keys@).len() == done_keys@.len());
        assert(sorted.take(at as int) =~= sorted);
        assert(insert_by_key(sorted, e) =~= insert_by_key(sorted.take(at as int), e) + sorted.skip(at as int));
        while at > 0 && !text::no_later(done_keys[at - 1].as_str(), key.as_str())
            invariant
                at <= i,
                sorted.len() == i,
                e == (key@, item),
                done_keys@.len() == i,
                text::texts(done_keys@) == sorted.map_values(|p: (Seq<char>, T)| p.0),
                insert_by_key(sorted, e) == insert_by_key(sorted.take(at as int), e) + sorted.skip(at as int),
            decreases at,
        {
            proof {
                assert(text::texts(done_keys@)[at - 1] == done_keys@[at - 1]@);
                let t = sorted.take(at as int);
                assert(t.last() == sorted[at - 1]);
                assert(t.drop_last() =~= sorted.take(at - 1));
                assert(insert_by_key(t, e) == insert_by_key(t.drop_last(), e).push(t.last()));
                assert(insert_by_key(t, e) + sorted.skip(at as int) =~= insert_by_key(sorted.take(at - 1), e)
                    + sorted.skip(at - 1));
            }
            at = at - 1;
        }
        proof {
            let t = sorted.take(at as int);
            if at > 0 {
                assert(text::texts(done_keys@)[at - 1] == done_keys@[at - 1]@);
                assert(t.last() == sorted[at - 1]);
            }
            assert(insert_by_key(t, e) == t.push(e));
            assert(insert_by_key(sorted, e) =~= sorted.insert(at as int, e));
        }
        let ghost before_done = done@;
        let ghost before_done_keys = done_keys@;
        done_keys.insert(at, key);
        done.insert(at, item);
        proof {
            let grown = sorted.insert(at as int, e);
            assert(done@ =~= items_of(grown));
            assert(text::texts(done_keys@) =~= text::texts(before_done_keys).insert(at as int, e.0));
            assert(text::texts(done_keys@) =~= grown.map_values(|p: (Seq<char>, T)| p.0));
            assert(all.take(i + 1).drop_last() =~= all.take(i as int));
            assert(all.take(i + 1).last() == e);
            sorted = grown;
        }
        i = i + 1;
    }
    assert(all.take(n as int) =~= all);
    done
}

} // verus!
