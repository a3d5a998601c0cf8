//! A small map, from keys that can be told apart to values.

use vstd::prelude::*;

verus! {

/// A key of a map: two keys are the same if they have the same view.
pub trait MapKey: View + Sized {
    fn same(&self, other: &Self) -> (same: bool)
        ensures
            same == (self@ == other@),
    ;
}

impl MapKey for u128 {
    fn same(&self, other: &Self) -> (same: bool) {
        *self == *other
    }
}

impl MapKey for String {
    fn same(&self, other: &Self) -> (same: bool) {
        *self == *other
    }
}

/// A map that keeps its entries in a vector, in the order in which their keys came.
pub struct AssocMap<K, V> {
    slots: Vec<(K, V)>,
}

/// Whether no key occurs twice.
pub open spec fn distinct_keys<K: View, V>(s: Seq<(K, V)>) -> bool {
    forall|i: int, j: int| 0 <= i < j < s.len() ==> (#[trigger] s[i]).0@ != (#[trigger] s[j]).0@
}

/// Whether `i` is the first position of a key.
pub open spec fn is_position<K: View, V>(s: Seq<(K, V)>, key: K::V, i: int) -> bool {
    &&& 0 <= i < s.len()
    &&& s[i].0@ == key
    &&& forall|j: int| 0 <= j < i ==> (#[trigger] s[j]).0@ != key
}

/// The map that a sequence of entries stands for: the first entry of a key counts.
pub open spec fn entries_map<K: View, V>(s: Seq<(K, V)>) -> Map<K::V, V> {
    Map::new(
        |key: K::V| exists|i: int| is_position(s, key, i),
        |key: K::V| s[choose|i: int| is_position(s, key, i)].1,
    )
}

proof fn lemma_position_is_unique<K: View, V>(s: Seq<(K, V)>, key: K::V, i: int)
    requires
        is_position(s, key, i),
    ensures
        entries_map(s).contains_key(key),
        entries_map(s)[key] == s[i].1,
{
    let j = choose|j: int| is_position(s, key, j);
    assert(is_position(s, key, j));
    if j < i {
        assert(s[j].0@ != key);
    } else if i < j {
        assert(s[i].0@ != key);
    }
}

/// A key that occurs has a first position.
proof fn lemma_position_exists<K: View, V>(s: Seq<(K, V)>, i: int) -> (first: int)
    requires
        0 <= i < s.len(),
    ensures
        is_position(s, s[i].0@, first),
        first <= i,
    decreases i,
{
    if exists|j: int| 0 <= j < i && (#[trigger] s[j]).0@ == s[i].0@ {
        let j = choose|j: int| 0 <= j < i && (#[trigger] s[j]).0@ == s[i].0@;
        lemma_position_exists(s, j)
    } else {
        i
    }
}

impl<K: View, V> View for AssocMap<K, V> {
    type V = Map<K::V, V>;

    closed spec fn view(&self) -> Map<K::V, V> {
        entries_map(self.slots@)
    }
}

impl<K: MapKey, V> AssocMap<K, V> {
    /// Whether no key occurs twice.
    pub closed spec fn wf(&self) -> bool {
        distinct_keys(self.slots@)
    }

    /// The entries, in the order in which their keys came.
    pub closed spec fn entries(&self) -> Seq<(K, V)> {
        self.slots@
    }

    pub fn new() -> (map: Self)
        ensures
            map.wf(),
            map@ == Map::<K::V, V>::empty(),
    {
        let map = AssocMap { slots: Vec::new() };
        proof {
            assert(map@ =~= Map::<K::V, V>::empty());
        }
        map
    }

    /// The number of keys.
    pub fn len(&self) -> (len: usize)
        requires
            self.wf(),
        ensures
            len == self@.len(),
            len == self.entries().len(),
            self@.dom().finite(),
    {
        proof {
            lemma_size(self.slots@);
        }
        self.slots.len()
    }

    /// The number of entries.
    pub fn entry_count(&self) -> (len: usize)
        ensures
            len == self.entries().len(),
    {
        self.slots.len()
    }

    /// The key of an entry.
    pub fn key_at(&self, i: usize) -> (key: &K)
        requires
            i < self.entries().len(),
        ensures
            *key == self.entries()[i as int].0,
    {
        &self.slots[i].0
    }

    /// The value of an entry.
    pub fn value_at(&self, i: usize) -> (value: &V)
        requires
            i < self.entries().len(),
        ensures
            *value == self.entries()[i as int].1,
    {
        &self.slots[i].1
    }

    /// There are finitely many keys.
    pub proof fn lemma_is_finite(&self)
        requires
            self.wf(),
        ensures
            self@.dom().finite(),
    {
        lemma_size(self.slots@);
    }

    /// What the entries have to do with the map.
    pub proof fn lemma_entries(&self)
        ensures
            self@ == entries_map(self.entries()),
            forall|i: int|
                #![trigger self.entries()[i]]
                0 <= i < self.entries().len() ==> self@.contains_key(self.entries()[i].0@),
            self.wf() ==> distinct_keys(self.entries()),
            self.wf() ==> forall|i: int|
                #![trigger self.entries()[i]]
                0 <= i < self.entries().len() ==> self@[self.entries()[i].0@]
                    == self.entries()[i].1,
            forall|k: K::V| #[trigger]
                self@.contains_key(k) ==> exists|i: int|
                    0 <= i < self.entries().len() && (#[trigger] self.entries()[i]).0@ == k,
    {
        let s = self.slots@;
        assert forall|i: int|
            #![trigger self.entries()[i]]
            0 <= i < self.entries().len() implies self@.contains_key(self.entries()[i].0@) && (
        self.wf() ==> self@[self.entries()[i].0@] == self.entries()[i].1) by {
            let first = lemma_position_exists(s, i);
            lemma_position_is_unique(s, s[i].0@, first);
            if self.wf() && first < i {
                assert(s[first].0@ != s[i].0@);
            }
        }
        assert forall|k: K::V| #[trigger] self@.contains_key(k) implies exists|i: int|
            0 <= i < self.entries().len() && (#[trigger] self.entries()[i]).0@ == k by {
            let i = choose|i: int| is_position(s, k, i);
            assert(self.entries()[i].0@ == k);
        }
    }

    fn find(&self, key: &K) -> (found: Option<usize>)
        ensures
            match found {
                Some(i) => is_position(self.slots@, key@, i as int) && self@.contains_key(key@)
                    && self@[key@] == self.slots@[i as int].1,
                None => !self@.contains_key(key@) && forall|i: int|
                    0 <= i < self.slots@.len() ==> (#[trigger] self.slots@[i]).0@ != key@,
            },
    {
        let mut i: usize = 0;
        while i < self.slots.len()
            invariant
                i <= self.slots@.len(),
                forall|j: int| 0 <= j < i ==> (#[trigger] self.slots@[j]).0@ != key@,
            decreases self.slots@.len() - i,
        {
            if self.slots[i].0.same(key) {
                proof {
                    lemma_position_is_unique(self.slots@, key@, i as int);
                }
                return Some(i);
            }
            i = i + 1;
        }
        None
    }

    pub fn contains(&self, key: &K) -> (found: bool)
        ensures
            found == self@.contains_key(key@),
    {
        self.find(key).is_some()
    }

    pub fn get(&self, key: &K) -> (value: Option<&V>)
        ensures
            value == (if self@.contains_key(key@) {
                Some(&self@[key@])
            } else {
                None
            }),
    {
        match self.find(key) {
            Some(i) => Some(&self.slots[i].1),
            None => None,
        }
    }

    pub fn get_mut(&mut self, key: &K) -> (value: Option<&mut V>)
        ensures
            old(self).wf() ==> final(self).wf(),
            value is Some <==> old(self)@.contains_key(key@),
            match value {
                Some(v) => *v == old(self)@[key@] && final(self)@ == old(self)@.insert(
                    key@,
                    *final(v),
                ),
                None => final(self)@ == old(self)@,
            },
    {
        match self.find(key) {
            Some(i) => {
                proof {
                    lemma_update_all(self.slots@, key@, i as int);
                }
                Some(&mut self.slots[i].1)
            },
            None => None,
        }
    }

    /// Puts a value under a key, in place of the one that was there.
    pub fn insert(&mut self, key: K, value: V)
        ensures
            old(self).wf() ==> final(self).wf(),
            final(self)@ == old(self)@.insert(key@, value),
    {
        match self.find(&key) {
            Some(i) => {
                proof {
                    lemma_update_all(self.slots@, key@, i as int);
                }
                self.slots[i].1 = value;
            },
            None => {
                let ghost s = self.slots@;
                self.slots.push((key, value));
                proof {
                    let t = self.slots@;
                    assert(is_position(t, key@, s.len() as int));
                    lemma_position_is_unique(t, key@, s.len() as int);
                    assert forall|k: K::V| k != key@ implies entries_map(s).contains_key(k)
                        == #[trigger] entries_map(t).contains_key(k) && (entries_map(
                        s,
                    ).contains_key(k) ==> entries_map(t)[k] == entries_map(s)[k]) by {
                        if entries_map(s).contains_key(k) {
                            let i = choose|i: int| is_position(s, k, i);
                            assert forall|j: int| 0 <= j < i implies (#[trigger] t[j]).0@ != k by {
                                assert(t[j] == s[j]);
                            }
                            assert(is_position(t, k, i));
                            lemma_position_is_unique(s, k, i);
                            lemma_position_is_unique(t, k, i);
                        }
                        if entries_map(t).contains_key(k) {
                            let i = choose|i: int| is_position(t, k, i);
                            assert forall|j: int| 0 <= j < i implies (#[trigger] s[j]).0@ != k by {
                                assert(t[j] == s[j]);
                            }
                            assert(is_position(s, k, i));
                        }
                    }
                    assert(self@ =~= old(self)@.insert(key@, value));
                }
            },
        }
    }

    /// Takes the value under a key out.
    pub fn remove(&mut self, key: &K) -> (value: Option<V>)
        requires
            old(self).wf(),
        ensures
            final(self).wf(),
            final(self)@ == old(self)@.remove(key@),
            value == (if old(self)@.contains_key(key@) {
                Some(old(self)@[key@])
            } else {
                None
            }),
    {
        match self.find(key) {
            Some(i) => {
                let ghost s = self.slots@;
                let (_, value) = self.slots.remove(i);
                proof {
                    let t = self.slots@;
                    let n = i as int;
                    assert(t =~= s.remove(n));
                    assert forall|a: int| 0 <= a < t.len() implies #[trigger] t[a] == s[if a < n {
                        a
                    } else {
                        a + 1
                    }] by {}
                    assert(distinct_keys(t));
                    assert forall|a: int| 0 <= a < s.len() implies is_position(
                        s,
                        (#[trigger] s[a]).0@,
                        a,
                    ) by {}
                    assert forall|a: int| 0 <= a < t.len() implies is_position(
                        t,
                        (#[trigger] t[a]).0@,
                        a,
                    ) by {}
                    assert forall|k: K::V| entries_map(s).remove(key@).contains_key(k)
                        == #[trigger] entries_map(t).contains_key(k) by {
                        if entries_map(s).contains_key(k) && k != key@ {
                            let a = choose|a: int| is_position(s, k, a);
                            if a < n {
                                assert(t[a].0@ == k);
                            } else {
                                assert(t[a - 1].0@ == k);
                            }
                        }
                        if entries_map(t).contains_key(k) {
                            let a = choose|a: int| is_position(t, k, a);
                            let b = if a < n {
                                a
                            } else {
                                a + 1
                            };
                            assert(s[b].0@ == k);
                            if b < n {
                                assert(s[b].0@ != s[n].0@);
                            } else {
                                assert(s[n].0@ != s[b].0@);
                            }
                        }
                    }
                    assert forall|k: K::V| #[trigger] entries_map(t).contains_key(
                        k,
                    ) implies entries_map(t)[k] == entries_map(s)[k] by {
                        let a = choose|a: int| is_position(t, k, a);
                        let b = if a < n {
                            a
                        } else {
                            a + 1
                        };
                        assert(s[b].0@ == k);
                        lemma_position_is_unique(t, k, a);
                        lemma_position_is_unique(s, k, b);
                    }
                    assert(self@ =~= old(self)@.remove(key@));
                }
                Some(value)
            },
            None => {
                proof {
                    assert(self@ =~= old(self)@.remove(key@));
                }
                None
            },
        }
    }
}

/// There are as many keys as entries.
proof fn lemma_size<K: View, V>(s: Seq<(K, V)>)
    requires
        distinct_keys(s),
    ensures
        entries_map(s).dom().finite(),
        entries_map(s).len() == s.len(),
    decreases s.len(),
{
    if s.len() == 0 {
        assert(entries_map(s) =~= Map::empty());
    } else {
        let front = s.drop_last();
        let last = s.last();
        assert forall|i: int, j: int| 0 <= i < j < front.len() implies (#[trigger] front[i]).0@ != (
        #[trigger] front[j]).0@ by {
            assert(front[i] == s[i]);
            assert(front[j] == s[j]);
        }
        lemma_size(front);
        assert(!entries_map(front).contains_key(last.0@)) by {
            if entries_map(front).contains_key(last.0@) {
                let i = choose|i: int| is_position(front, last.0@, i);
                assert(s[i].0@ != s[s.len() - 1].0@);
            }
        }
        assert forall|k: K::V| entries_map(front).dom().insert(last.0@).contains(k) == entries_map(
            s,
        ).dom().contains(k) by {
            if entries_map(front).contains_key(k) {
                let i = choose|i: int| is_position(front, k, i);
                assert(s[i].0@ == k);
                let first = lemma_position_exists(s, i);
            }
            if k == last.0@ {
                let first = lemma_position_exists(s, s.len() - 1);
            }
            if entries_map(s).contains_key(k) && k != last.0@ {
                let i = choose|i: int| is_position(s, k, i);
                assert(front[i].0@ == k);
                let first = lemma_position_exists(front, i);
            }
        }
        assert(entries_map(s).dom() =~= entries_map(front).dom().insert(last.0@));
    }
}

/// Replacing the value of one entry, whatever the new one is.
proof fn lemma_update_all<K: View, V>(s: Seq<(K, V)>, key: K::V, n: int)
    requires
        is_position(s, key, n),
    ensures
        forall|value: V|
            {
                let t = #[trigger] s.update(n, (s[n].0, value));
                (distinct_keys(s) ==> distinct_keys(t)) && entries_map(t) == entries_map(s).insert(
                    key,
                    value,
                )
            },
{
    assert forall|value: V|
        {
            let t = #[trigger] s.update(n, (s[n].0, value));
            (distinct_keys(s) ==> distinct_keys(t)) && entries_map(t) == entries_map(s).insert(
                key,
                value,
            )
        } by {
        let t = s.update(n, (s[n].0, value));
        assert forall|a: int| 0 <= a < t.len() implies (#[trigger] t[a]).0@ == s[a].0@ by {}
        assert forall|a: int| 0 <= a < t.len() implies (#[trigger] s[a]).0@ == t[a].0@ by {}
        assert(distinct_keys(s) ==> distinct_keys(t));
        assert forall|k: K::V, a: int| is_position(s, k, a) == #[trigger] is_position(t, k, a) by {}
        assert(is_position(t, key, n));
        lemma_position_is_unique(t, key, n);
        assert forall|k: K::V| entries_map(s).insert(key, value).contains_key(k)
            == #[trigger] entries_map(t).contains_key(k) by {
            if entries_map(s).contains_key(k) {
                let a = choose|a: int| is_position(s, k, a);
                assert(is_position(t, k, a));
            }
            if entries_map(t).contains_key(k) {
                let a = choose|a: int| is_position(t, k, a);
                assert(is_position(s, k, a));
            }
        }
        assert forall|k: K::V| #[trigger] entries_map(t).contains_key(k) implies entries_map(t)[k]
            == entries_map(s).insert(key, value)[k] by {
            let a = choose|a: int| is_position(t, k, a);
            assert(is_position(s, k, a));
            lemma_position_is_unique(t, k, a);
            lemma_position_is_unique(s, k, a);
        }
        assert(entries_map(t) =~= entries_map(s).insert(key, value));
    }
}

} // verus!
