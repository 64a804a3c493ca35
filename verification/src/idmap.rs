//! Maps whose keys are identifiers, and which keep the order in which the keys came.
use vstd::prelude::*;

verus! {

/// The place of a key; the number of entries where it is not among them.
pub open spec fn place<V>(s: Seq<(u128, V)>, key: u128) -> int
    decreases s.len(),
{
    if s.len() == 0 || s[0].0 == key {
        0
    } else {
        1 + place(s.drop_first(), key)
    }
}

/// Whether a key is among the entries.
pub open spec fn has_key<V>(s: Seq<(u128, V)>, key: u128) -> bool {
    place(s, key) < s.len()
}

/// The value of a key.
pub open spec fn lookup<V>(s: Seq<(u128, V)>, key: u128) -> Option<V> {
    if has_key(s, key) {
        Some(s[place(s, key)].1)
    } else {
        None
    }
}

/// The entries with a value under a key: in the key's place where it has one, and at the end where it
/// does not.
pub open spec fn put<V>(s: Seq<(u128, V)>, key: u128, value: V) -> Seq<(u128, V)> {
    if has_key(s, key) {
        s.update(place(s, key), (key, value))
    } else {
        s.push((key, value))
    }
}

/// The entries with a value under a key, where the key has none yet.
pub open spec fn put_new<V>(s: Seq<(u128, V)>, key: u128, value: V) -> Seq<(u128, V)> {
    if has_key(s, key) {
        s
    } else {
        s.push((key, value))
    }
}

/// The entries without a key.
pub open spec fn without<V>(s: Seq<(u128, V)>, key: u128) -> Seq<(u128, V)> {
    if has_key(s, key) {
        s.remove(place(s, key))
    } else {
        s
    }
}

/// Whether no key stands there twice.
pub open spec fn distinct<V>(s: Seq<(u128, V)>) -> bool {
    forall|i: int, j: int| 0 <= i < j < s.len() ==> (#[trigger] s[i]).0 != (#[trigger] s[j]).0
}

/// The place of a key is the first one at which it stands.
pub proof fn place_is_first<V>(s: Seq<(u128, V)>, key: u128)
    ensures
        0 <= place(s, key) <= s.len(),
        place(s, key) < s.len() ==> s[place(s, key)].0 == key,
        forall|i: int| 0 <= i < place(s, key) ==> (#[trigger] s[i]).0 != key,
    decreases s.len(),
{
    if s.len() > 0 && s[0].0 != key {
        let t = s.drop_first();
        place_is_first(t, key);
        assert forall|i: int| 0 <= i < place(s, key) implies (#[trigger] s[i]).0 != key by {
            if i > 0 {
                assert(t[i - 1].0 != key);
            }
        }
    }
}

/// A key that stands at a place and nowhere before has that place.
pub proof fn place_at<V>(s: Seq<(u128, V)>, key: u128, i: int)
    requires
        0 <= i < s.len(),
        s[i].0 == key,
        forall|j: int| 0 <= j < i ==> (#[trigger] s[j]).0 != key,
    ensures
        place(s, key) == i,
{
    place_is_first(s, key);
    if place(s, key) < i {
        assert(s[place(s, key)].0 != key);
    } else if place(s, key) > i {
        assert(s[i].0 != key);
    }
}

/// What was put under a key is found there, and every other key keeps its value.
pub proof fn lookup_after_put<V>(s: Seq<(u128, V)>, key: u128, value: V, other: u128)
    ensures
        lookup(put(s, key, value), key) == Some(value),
        other != key ==> lookup(put(s, key, value), other) == lookup(s, other),
{
    let t = put(s, key, value);
    place_is_first(s, key);
    place_is_first(s, other);
    place_is_first(t, other);
    let k = place(s, key);
    if k < s.len() {
        assert forall|j: int| 0 <= j < k implies (#[trigger] t[j]).0 != key by {
            assert(s[j].0 != key);
        }
        place_at(t, key, k);
    } else {
        assert forall|j: int| 0 <= j < s.len() implies (#[trigger] t[j]).0 != key by {
            assert(s[j].0 != key);
        }
        place_at(t, key, s.len() as int);
    }
    if other != key {
        let o = place(s, other);
        if o < s.len() {
            assert forall|j: int| 0 <= j < o implies (#[trigger] t[j]).0 != other by {
                assert(s[j].0 != other);
            }
            place_at(t, other, o);
        } else {
            let p = place(t, other);
            if p < t.len() {
                assert(t[p].0 == other);
                if p < s.len() {
                    assert(s[p].0 != other);
                }
            }
        }
    }
}

/// Putting a value keeps the keys distinct.
pub proof fn put_keeps_distinct<V>(s: Seq<(u128, V)>, key: u128, value: V)
    requires
        distinct(s),
    ensures
        distinct(put(s, key, value)),
        distinct(put_new(s, key, value)),
{
    place_is_first(s, key);
}

/// Removing a key keeps the keys distinct, and the key is gone.
pub proof fn without_removes<V>(s: Seq<(u128, V)>, key: u128)
    requires
        distinct(s),
    ensures
        distinct(without(s, key)),
        !has_key(without(s, key), key),
{
    place_is_first(s, key);
    let t = without(s, key);
    place_is_first(t, key);
    let k = place(s, key);
    if k < s.len() {
        assert forall|i: int, j: int| 0 <= i < j < t.len() implies (#[trigger] t[i]).0 != (#[trigger] t[j]).0 by {
            let i2 = if i < k {
                i
            } else {
                i + 1
            };
            let j2 = if j < k {
                j
            } else {
                j + 1
            };
            assert(s[i2].0 != s[j2].0);
        }
        let p = place(t, key);
        if p < t.len() {
            let p2 = if p < k {
                p
            } else {
                p + 1
            };
            assert(t[p] == s[p2]);
            if p2 < k {
                assert(s[p2].0 != s[k].0);
            } else {
                assert(s[k].0 != s[p2].0);
            }
        }
    }
}

/// The entries with each value made another by a function.
pub open spec fn mapped<V, U>(s: Seq<(u128, V)>, f: spec_fn(V) -> U) -> Seq<(u128, U)> {
    s.map_values(|e: (u128, V)| (e.0, f(e.1)))
}

/// Keys keep their places where the values are made others, so that putting and making others can change
/// places.
pub proof fn put_maps<V, U>(s: Seq<(u128, V)>, key: u128, value: V, f: spec_fn(V) -> U)
    ensures
        place(mapped(s, f), key) == place(s, key),
        mapped(put(s, key, value), f) == put(mapped(s, f), key, f(value)),
    decreases s.len(),
{
    let m = mapped(s, f);
    if s.len() > 0 {
        assert(m[0] == (s[0].0, f(s[0].1)));
        assert(m.drop_first() =~= mapped(s.drop_first(), f));
        put_maps(s.drop_first(), key, value, f);
    }
    place_is_first(s, key);
    assert(mapped(put(s, key, value), f) =~= put(m, key, f(value)));
}

/// A map from identifiers to values. No key stands there twice.
#[derive(Debug)]
pub struct IdMap<V> {
    entries: Vec<(u128, V)>,
}

impl<V> View for IdMap<V> {
    type V = Seq<(u128, V)>;

    closed spec fn view(&self) -> Seq<(u128, V)> {
        self.entries@
    }
}

impl<V> IdMap<V> {
    /// Whether no key stands there twice.
    pub open spec fn wf(&self) -> bool {
        distinct(self@)
    }

    /// The empty map.
    pub fn new() -> (r: IdMap<V>)
        ensures
            r@.len() == 0,
            r.wf(),
    {
        IdMap { entries: Vec::new() }
    }

    /// The map with given keys and values.
    pub fn from_entries(entries: Vec<(u128, V)>) -> (r: IdMap<V>)
        requires
            distinct(entries@),
        ensures
            r@ == entries@,
            r.wf(),
    {
        IdMap { entries }
    }

    /// How many keys there are.
    pub fn len(&self) -> (r: usize)
        ensures
            r == self@.len(),
    {
        self.entries.len()
    }

    /// The place of a key.
    pub fn position(&self, key: u128) -> (r: usize)
        ensures
            r == place(self@, key),
            r <= self@.len(),
    {
        let ghost all = self@;
        let mut i: usize = 0;
        assert(all.skip(0) =~= all);
        while i < self.entries.len()
            invariant
                i <= self.entries@.len(),
                all == self.entries@,
                place(all, key) == i + place(all.skip(i as int), key),
            decreases self.entries.len() - i,
        {
            assert(all.skip(i as int)[0] == all[i as int]);
            if self.entries[i].0 == key {
                return i;
            }
            assert(all.skip(i as int).drop_first() =~= all.skip(i + 1));
            i = i + 1;
        }
        i
    }

    /// Whether a key is there.
    pub fn contains(&self, key: u128) -> (r: bool)
        ensures
            r == has_key(self@, key),
    {
        self.position(key) < self.entries.len()
    }

    /// The value of a key.
    pub fn get(&self, key: u128) -> (r: Option<&V>)
        ensures
            match r {
                Some(v) => lookup(self@, key) == Some(*v),
                None => lookup(self@, key) is None,
            },
    {
        let i: usize = self.position(key);
        if i < self.entries.len() {
            Some(&self.entries[i].1)
        } else {
            None
        }
    }

    /// The key and value at a place.
    pub fn entry(&self, i: usize) -> (r: &(u128, V))
        requires
            i < self@.len(),
        ensures
            *r == self@[i as int],
    {
        &self.entries[i]
    }

    /// Puts a value under a key, in place of the one that it had.
    pub fn insert(&mut self, key: u128, value: V)
        requires
            old(self).wf(),
        ensures
            final(self)@ == put(old(self)@, key, value),
            final(self).wf(),
    {
        let i: usize = self.position(key);
        proof {
            put_keeps_distinct(self@, key, value);
        }
        if i < self.entries.len() {
            self.entries.set(i, (key, value));
        } else {
            self.entries.push((key, value));
        }
    }

    /// Puts a value under a key that has none yet.
    pub fn insert_new(&mut self, key: u128, value: V)
        requires
            old(self).wf(),
        ensures
            final(self)@ == put_new(old(self)@, key, value),
            final(self).wf(),
    {
        let i: usize = self.position(key);
        proof {
            put_keeps_distinct(self@, key, value);
        }
        if i >= self.entries.len() {
            self.entries.push((key, value));
        }
    }

    /// Removes a key, and gives the value that it had.
    pub fn remove(&mut self, key: u128) -> (r: Option<V>)
        requires
            old(self).wf(),
        ensures
            final(self)@ == without(old(self)@, key),
            final(self).wf(),
            r == lookup(old(self)@, key),
    {
        let i: usize = self.position(key);
        proof {
            without_removes(self@, key);
        }
        if i < self.entries.len() {
            let e = self.entries.remove(i);
            Some(e.1)
        } else {
            None
        }
    }

    /// The keys and values, in their order.
    pub fn into_entries(self) -> (r: Vec<(u128, V)>)
        ensures
            r@ == self@,
    {
        self.entries
    }
}

/// A new key comes behind the others, and a key that is there keeps its place; every other entry stays as it is,
/// and where it is.
pub proof fn put_keeps_places<V>(s: Seq<(u128, V)>, key: u128, value: V, i: int)
    requires
        0 <= i < s.len(),
    ensures
        put(s, key, value).len() == if has_key(s, key) {
            s.len()
        } else {
            s.len() + 1
        },
        !has_key(s, key) ==> put(s, key, value).last() == (key, value),
        put(s, key, value)[i].0 == s[i].0,
        s[i].0 != key ==> put(s, key, value)[i] == s[i],
{
    place_is_first(s, key);
}

/// Where a key has a value already it keeps that value; otherwise it gets the new one, behind the others.
pub proof fn first_value_stays<V>(s: Seq<(u128, V)>, key: u128, value: V, other: u128)
    ensures
        lookup(put_new(s, key, value), key) == if has_key(s, key) {
            lookup(s, key)
        } else {
            Some(value)
        },
        other != key ==> lookup(put_new(s, key, value), other) == lookup(s, other),
        has_key(s, key) ==> put_new(s, key, value) == s,
        !has_key(s, key) ==> put_new(s, key, value) == put(s, key, value),
{
    lookup_after_put(s, key, value, other);
}

/// A key that is taken away leaves the other entries, in their order.
pub proof fn without_leaves_the_others<V>(before: Seq<(u128, V)>, key: u128, value: V, behind: Seq<(u128, V)>)
    requires
        !has_key(before, key),
    ensures
        without(before.push((key, value)) + behind, key) == before + behind,
        without(before, key) == before,
{
    let s = before.push((key, value)) + behind;
    place_is_first(before, key);
    assert forall|j: int| 0 <= j < before.len() implies (#[trigger] s[j]).0 != key by {
        assert(s[j] == before[j]);
    }
    place_at(s, key, before.len() as int);
    assert(s.remove(before.len() as int) =~= before + behind);
}

/// A key is among the entries exactly where one of them has it.
pub proof fn keys_are_those_of_entries<V>(s: Seq<(u128, V)>, key: u128)
    ensures
        has_key(s, key) <==> exists|i: int| 0 <= i < s.len() && (#[trigger] s[i]).0 == key,
        has_key(s, key) <==> lookup(s, key) is Some,
{
    place_is_first(s, key);
    if has_key(s, key) {
        assert(s[place(s, key)].0 == key);
    }
}

} // verus!
