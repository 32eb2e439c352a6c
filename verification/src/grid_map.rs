//! A sparse association map from small copyable keys to values.
//!
//! The map is backed by a vector of entries whose keys are pairwise
//! distinct; it guarantees unique keys and makes no promise about the
//! order in which entries are stored.

use vstd::prelude::*;

use crate::geom::Vector2I;
use crate::geom::Vector3I;

verus! {

/// Keys of a [`GridMap`]: copyable values whose decidable equality agrees
/// with mathematical equality.
pub trait GridKey: Sized + Copy {
    /// Decide whether two keys are equal.
    fn key_eq(&self, other: &Self) -> (r: bool)
        ensures
            r <==> (*self == *other),
    ;
}

impl GridKey for Vector2I {
    fn key_eq(&self, other: &Self) -> (r: bool) {
        self.x == other.x && self.y == other.y
    }
}

impl GridKey for Vector3I {
    fn key_eq(&self, other: &Self) -> (r: bool) {
        self.x == other.x && self.y == other.y && self.z == other.z
    }
}

impl GridKey for u64 {
    fn key_eq(&self, other: &Self) -> (r: bool) {
        *self == *other
    }
}

impl GridKey for u128 {
    fn key_eq(&self, other: &Self) -> (r: bool) {
        *self == *other
    }
}

/// Whether the keys of an entry sequence are pairwise distinct.
pub open spec fn distinct_keys<K, V>(s: Seq<(K, V)>) -> bool {
    forall|i: int, j: int| 0 <= i < j < s.len() ==> (#[trigger] s[i]).0 != (#[trigger] s[j]).0
}

/// The mathematical map described by an entry sequence; on duplicate keys
/// the later entry wins.
pub open spec fn seq_to_map<K, V>(s: Seq<(K, V)>) -> Map<K, V>
    decreases s.len(),
{
    if s.len() == 0 {
        Map::empty()
    } else {
        seq_to_map(s.drop_last()).insert(s.last().0, s.last().1)
    }
}

/// A key is in the map of an entry sequence exactly when some entry has
/// that key.
pub proof fn lemma_seq_to_map_contains<K, V>(s: Seq<(K, V)>, k: K)
    ensures
        seq_to_map(s).contains_key(k) <==> exists|i: int| 0 <= i < s.len() && (#[trigger] s[i]).0 == k,
    decreases s.len(),
{
    if s.len() > 0 {
        let s0 = s.drop_last();
        lemma_seq_to_map_contains(s0, k);
        if s.last().0 == k {
            assert(s[s.len() - 1].0 == k);
        } else {
            if seq_to_map(s).contains_key(k) {
                let i = choose|i: int| 0 <= i < s0.len() && (#[trigger] s0[i]).0 == k;
                assert(s[i].0 == k);
            }
            if exists|i: int| 0 <= i < s.len() && (#[trigger] s[i]).0 == k {
                let i = choose|i: int| 0 <= i < s.len() && (#[trigger] s[i]).0 == k;
                assert(i < s.len() - 1 && s0[i].0 == k);
            }
        }
    }
}

/// With distinct keys, each entry is mapped to its own value.
pub proof fn lemma_seq_to_map_index<K, V>(s: Seq<(K, V)>, i: int)
    requires
        distinct_keys(s),
        0 <= i < s.len(),
    ensures
        seq_to_map(s).contains_key(s[i].0),
        seq_to_map(s)[s[i].0] == s[i].1,
    decreases s.len(),
{
    if i < s.len() - 1 {
        let s0 = s.drop_last();
        assert(s0[i] == s[i]);
        lemma_seq_to_map_index(s0, i);
        assert(s[s.len() - 1].0 != s[i].0);
    }
}

/// The full characterization of the map of a distinct-key entry sequence.
pub proof fn lemma_seq_to_map_all<K, V>(s: Seq<(K, V)>)
    requires
        distinct_keys(s),
    ensures
        forall|k: K|
            #[trigger] seq_to_map(s).contains_key(k) <==> exists|i: int|
                0 <= i < s.len() && (#[trigger] s[i]).0 == k,
        forall|i: int|
            0 <= i < s.len() ==> seq_to_map(s).contains_key((#[trigger] s[i]).0) && seq_to_map(s)[s[i].0]
                == s[i].1,
{
    assert forall|k: K| #[trigger] seq_to_map(s).contains_key(k) implies exists|i: int|
        0 <= i < s.len() && (#[trigger] s[i]).0 == k by {
        lemma_seq_to_map_contains(s, k);
    }
    assert forall|i: int| 0 <= i < s.len() implies seq_to_map(s).contains_key((#[trigger] s[i]).0)
        && seq_to_map(s)[s[i].0] == s[i].1 by {
        lemma_seq_to_map_index(s, i);
    }
}

/// A sparse map with unique keys and no guaranteed entry order.
pub struct GridMap<K: GridKey, V> {
    entries: Vec<(K, V)>,
}

impl<K: GridKey, V> View for GridMap<K, V> {
    type V = Map<K, V>;

    closed spec fn view(&self) -> Map<K, V> {
        seq_to_map(self.entries@)
    }
}

impl<K: GridKey, V> GridMap<K, V> {
    /// The stored entries, in their (arbitrary) storage order.
    pub closed spec fn entries_view(&self) -> Seq<(K, V)> {
        self.entries@
    }

    #[verifier::type_invariant]
    closed spec fn inv(&self) -> bool {
        distinct_keys(self.entries@)
    }

    /// Bring into scope the facts that the stored entries have pairwise
    /// distinct keys and describe the map; erased at run time.
    pub fn observe(&self)
        ensures
            distinct_keys(self.entries_view()),
            self@ == seq_to_map(self.entries_view()),
            forall|k: K|
                #[trigger] self@.contains_key(k) <==> exists|i: int|
                    0 <= i < self.entries_view().len() && (#[trigger] self.entries_view()[i]).0 == k,
            forall|i: int|
                0 <= i < self.entries_view().len() ==> self@.contains_key(
                    (#[trigger] self.entries_view()[i]).0,
                ) && self@[self.entries_view()[i].0] == self.entries_view()[i].1,
    {
        proof {
            use_type_invariant(&*self);
            lemma_seq_to_map_all(self.entries@);
        }
    }

    /// An empty map.
    pub fn new() -> (r: Self)
        ensures
            r@ == Map::<K, V>::empty(),
            r.entries_view() == Seq::<(K, V)>::empty(),
    {
        GridMap { entries: Vec::new() }
    }

    /// The number of entries.
    pub fn len(&self) -> (n: usize)
        ensures
            n == self.entries_view().len(),
    {
        self.entries.len()
    }

    /// Whether the map holds no entry.
    pub fn is_empty(&self) -> (r: bool)
        ensures
            r <==> self.entries_view().len() == 0,
            r <==> self@ == Map::<K, V>::empty(),
    {
        proof {
            use_type_invariant(&*self);
            lemma_seq_to_map_all(self.entries@);
            if self.entries@.len() > 0 {
                assert(self@.contains_key(self.entries@[0].0));
                assert(self@ != Map::<K, V>::empty());
            } else {
                assert(self@ =~= Map::<K, V>::empty());
            }
        }
        self.entries.is_empty()
    }

    fn find(&self, key: &K) -> (r: Option<usize>)
        ensures
            match r {
                Some(i) => i < self.entries_view().len() && self.entries_view()[i as int].0 == *key,
                None => forall|i: int|
                    0 <= i < self.entries_view().len() ==> (#[trigger] self.entries_view()[i]).0
                        != *key,
            },
    {
        let n = self.entries.len();
        let mut i: usize = 0;
        while i < n
            invariant
                i <= n,
                n == self.entries@.len(),
                forall|j: int| 0 <= j < i ==> (#[trigger] self.entries@[j]).0 != *key,
            decreases n - i,
        {
            if self.entries[i].0.key_eq(key) {
                return Some(i);
            }
            i = i + 1;
        }
        None
    }

    /// Look up the value stored under a key.
    pub fn get(&self, key: &K) -> (r: Option<&V>)
        ensures
            match r {
                Some(v) => self@.contains_key(*key) && *v == self@[*key],
                None => !self@.contains_key(*key),
            },
    {
        proof {
            use_type_invariant(&*self);
            lemma_seq_to_map_all(self.entries@);
        }
        match self.find(key) {
            Some(i) => {
                proof {
                    lemma_seq_to_map_index(self.entries@, i as int);
                }
                Some(&self.entries[i].1)
            }
            None => {
                proof {
                    assert forall|i: int| 0 <= i < self.entries@.len() implies (
                    #[trigger] self.entries@[i]).0 != *key by {
                        assert(self.entries_view()[i].0 != *key);
                    }
                    lemma_seq_to_map_contains(self.entries@, *key);
                }
                None
            }
        }
    }

    /// Whether the map holds an entry under the given key.
    pub fn contains_key(&self, key: &K) -> (r: bool)
        ensures
            r == self@.contains_key(*key),
    {
        self.get(key).is_some()
    }

    /// The entry stored at a storage index.
    pub fn entry_at(&self, i: usize) -> (r: (K, &V))
        requires
            i < self.entries_view().len(),
        ensures
            r.0 == self.entries_view()[i as int].0,
            *r.1 == self.entries_view()[i as int].1,
            self@.contains_key(r.0),
            self@[r.0] == *r.1,
    {
        proof {
            use_type_invariant(&*self);
            lemma_seq_to_map_all(self.entries@);
        }
        let e = &self.entries[i];
        (e.0, &e.1)
    }

    /// Store a value under a key, returning the value previously stored
    /// under it, if any.
    pub fn insert(&mut self, key: K, value: V) -> (prev: Option<V>)
        ensures
            final(self)@ == old(self)@.insert(key, value),
            match prev {
                Some(v) => old(self)@.contains_key(key) && v == old(self)@[key]
                    && final(self).entries_view().len() == old(self).entries_view().len(),
                None => !old(self)@.contains_key(key) && final(self).entries_view().len() == old(
                    self,
                ).entries_view().len() + 1,
            },
    {
        proof {
            use_type_invariant(&*self);
            lemma_seq_to_map_all(self.entries@);
        }
        let ghost s = self.entries@;
        let ghost m = self@;
        let mut entries: Vec<(K, V)> = Vec::new();
        core::mem::swap(&mut entries, &mut self.entries);
        let found = {
            // re-run the search on the swapped-out vector
            let n = entries.len();
            let mut i: usize = 0;
            let mut found: Option<usize> = None;
            while i < n
                invariant_except_break
                    found.is_none(),
                invariant
                    i <= n,
                    n == entries@.len(),
                    forall|j: int| 0 <= j < i ==> (#[trigger] entries@[j]).0 != key,
                ensures
                    match found {
                        Some(f) => f < entries@.len() && entries@[f as int].0 == key,
                        None => forall|j: int|
                            0 <= j < entries@.len() ==> (#[trigger] entries@[j]).0 != key,
                    },
                decreases n - i,
            {
                if entries[i].0.key_eq(&key) {
                    found = Some(i);
                    break;
                }
                i = i + 1;
            }
            found
        };
        let prev = match found {
            Some(i) => {
                let old_pair = entries.swap_remove(i);
                entries.push((key, value));
                Some(old_pair.1)
            }
            None => {
                entries.push((key, value));
                None
            }
        };
        proof {
            let s2 = entries@;
            let last = s2.len() - 1;
            assert(s2[last] == (key, value));
            assert forall|i: int, j: int| 0 <= i < j < s2.len() implies (#[trigger] s2[i]).0 != (
            #[trigger] s2[j]).0 by {
                if found is Some {
                    let f = found->Some_0 as int;
                    // s2[p] for p < last is either s[p] or s[s.len()-1] (at p == f)
                    if j < last {
                        let oi = if i == f { s.len() - 1 } else { i };
                        let oj = if j == f { s.len() - 1 } else { j };
                        assert(s2[i] == s[oi] && s2[j] == s[oj]);
                        assert(oi != oj);
                    } else {
                        // s2[j].0 == key; s2[i] is an old entry other than index f
                        let oi = if i == f { s.len() - 1 } else { i };
                        assert(s2[i] == s[oi]);
                        if oi != f {
                            assert(s[oi].0 != s[f].0);
                        }
                    }
                } else {
                    if j < last {
                        assert(s2[i] == s[i] && s2[j] == s[j]);
                    } else {
                        assert(s2[i] == s[i]);
                        assert(!m.contains_key(key));
                        lemma_seq_to_map_index(s, i);
                    }
                }
            }
            lemma_seq_to_map_all(s2);
            assert(seq_to_map(s2) =~= m.insert(key, value)) by {
                assert forall|k: K| #[trigger] m.insert(key, value).contains_key(k) implies seq_to_map(
                    s2,
                ).contains_key(k) by {
                    if k == key {
                        assert(s2[last].0 == k);
                    } else {
                        let i = choose|i: int| 0 <= i < s.len() && (#[trigger] s[i]).0 == k;
                        if found is Some {
                            let f = found->Some_0 as int;
                            if i == s.len() - 1 && f < i {
                                assert(s2[f].0 == k);
                            } else if i < last {
                                assert(s2[i].0 == k);
                            } else {
                                // i == s.len() - 1 == f: then k == key, contradiction
                                assert(s[f].0 == key);
                            }
                        } else {
                            assert(s2[i].0 == k);
                        }
                    }
                }
                assert forall|k: K| #[trigger] seq_to_map(s2).contains_key(k) implies m.insert(
                    key,
                    value,
                ).contains_key(k) && seq_to_map(s2)[k] == m.insert(key, value)[k] by {
                    let i = choose|i: int| 0 <= i < s2.len() && (#[trigger] s2[i]).0 == k;
                    if i == last {
                        assert(seq_to_map(s2)[k] == value);
                    } else {
                        if found is Some {
                            let f = found->Some_0 as int;
                            let oi = if i == f { s.len() - 1 } else { i };
                            assert(s2[i] == s[oi]);
                            lemma_seq_to_map_index(s, oi);
                            assert(s[f].0 == key);
                            if oi != f {
                                assert(s[oi].0 != key);
                            }
                        } else {
                            assert(s2[i] == s[i]);
                            lemma_seq_to_map_index(s, i);
                            lemma_seq_to_map_contains(s, key);
                        }
                    }
                }
            }
        }
        self.entries = entries;
        prev
    }

    /// Remove the entry stored under a key, returning its value, if any.
    pub fn remove(&mut self, key: &K) -> (prev: Option<V>)
        ensures
            final(self)@ == old(self)@.remove(*key),
            match prev {
                Some(v) => old(self)@.contains_key(*key) && v == old(self)@[*key]
                    && final(self).entries_view().len() + 1 == old(self).entries_view().len(),
                None => !old(self)@.contains_key(*key) && final(self).entries_view() == old(
                    self,
                ).entries_view(),
            },
    {
        proof {
            use_type_invariant(&*self);
            lemma_seq_to_map_all(self.entries@);
        }
        let ghost s = self.entries@;
        let ghost m = self@;
        let found = self.find(key);
        match found {
            Some(i) => {
                let mut entries: Vec<(K, V)> = Vec::new();
                core::mem::swap(&mut entries, &mut self.entries);
                let old_pair = entries.swap_remove(i);
                proof {
                    let s2 = entries@;
                    let f = i as int;
                    assert forall|p: int, q: int| 0 <= p < q < s2.len() implies (#[trigger] s2[p]).0
                        != (#[trigger] s2[q]).0 by {
                        let op = if p == f { s.len() - 1 } else { p };
                        let oq = if q == f { s.len() - 1 } else { q };
                        assert(s2[p] == s[op] && s2[q] == s[oq]);
                        assert(op != oq);
                    }
                    lemma_seq_to_map_all(s2);
                    assert(seq_to_map(s2) =~= m.remove(*key)) by {
                        assert forall|k: K| #[trigger] m.remove(*key).contains_key(k) implies seq_to_map(
                            s2,
                        ).contains_key(k) by {
                            let j = choose|j: int| 0 <= j < s.len() && (#[trigger] s[j]).0 == k;
                            if j == s.len() - 1 {
                                // the moved last entry now sits at f (and f < s.len() - 1)
                                assert(s[f].0 == *key);
                                assert(s2[f].0 == k);
                            } else if j != f {
                                assert(s2[j].0 == k);
                            } else {
                                assert(s[f].0 == *key);
                            }
                        }
                        assert forall|k: K| #[trigger] seq_to_map(s2).contains_key(k) implies m.remove(
                            *key,
                        ).contains_key(k) && seq_to_map(s2)[k] == m.remove(*key)[k] by {
                            let j = choose|j: int| 0 <= j < s2.len() && (#[trigger] s2[j]).0 == k;
                            let oj = if j == f { s.len() - 1 } else { j };
                            assert(s2[j] == s[oj]);
                            lemma_seq_to_map_index(s, oj);
                            assert(s[f].0 == *key);
                            if oj != f {
                                assert(s[oj].0 != *key);
                            }
                        }
                    }
                }
                self.entries = entries;
                Some(old_pair.1)
            }
            None => {
                proof {
                    assert(self@ =~= m.remove(*key));
                }
                None
            }
        }
    }

    /// Replace the value of the entry at a storage index, keeping its key;
    /// the previous value is returned.
    pub fn set_value_at(&mut self, i: usize, value: V) -> (prev: V)
        requires
            i < old(self).entries_view().len(),
        ensures
            prev == old(self).entries_view()[i as int].1,
            final(self).entries_view() == old(self).entries_view().update(
                i as int,
                (old(self).entries_view()[i as int].0, value),
            ),
            final(self)@ == old(self)@.insert(old(self).entries_view()[i as int].0, value),
    {
        proof {
            use_type_invariant(&*self);
            lemma_seq_to_map_all(self.entries@);
        }
        let ghost s = self.entries@;
        let ghost m = self@;
        let ghost key = s[i as int].0;
        let mut entries: Vec<(K, V)> = Vec::new();
        core::mem::swap(&mut entries, &mut self.entries);
        let mut pair = (entries[i].0, value);
        core::mem::swap(&mut entries[i], &mut pair);
        proof {
            let s2 = entries@;
            assert(s2 =~= s.update(i as int, (key, value)));
            assert forall|p: int, q: int| 0 <= p < q < s2.len() implies (#[trigger] s2[p]).0 != (
            #[trigger] s2[q]).0 by {
                assert(s2[p].0 == s[p].0 && s2[q].0 == s[q].0);
            }
            lemma_seq_to_map_all(s2);
            assert(seq_to_map(s2) =~= m.insert(key, value)) by {
                assert forall|k: K| #[trigger] m.insert(key, value).contains_key(k) implies seq_to_map(
                    s2,
                ).contains_key(k) by {
                    if k == key {
                        assert(s2[i as int].0 == k);
                    } else {
                        let j = choose|j: int| 0 <= j < s.len() && (#[trigger] s[j]).0 == k;
                        assert(s2[j].0 == k);
                    }
                }
                assert forall|k: K| #[trigger] seq_to_map(s2).contains_key(k) implies m.insert(
                    key,
                    value,
                ).contains_key(k) && seq_to_map(s2)[k] == m.insert(key, value)[k] by {
                    let j = choose|j: int| 0 <= j < s2.len() && (#[trigger] s2[j]).0 == k;
                    if j == i as int {
                        assert(seq_to_map(s2)[k] == value);
                    } else {
                        assert(s2[j] == s[j]);
                        lemma_seq_to_map_index(s, j);
                        assert(s[i as int].0 == key);
                        assert(s[j].0 != key);
                    }
                }
            }
        }
        self.entries = entries;
        pair.1
    }

    /// Remove every entry.
    pub fn clear(&mut self)
        ensures
            final(self)@ == Map::<K, V>::empty(),
            final(self).entries_view().len() == 0,
    {
        let mut entries: Vec<(K, V)> = Vec::new();
        core::mem::swap(&mut entries, &mut self.entries);
        entries.clear();
        self.entries = entries;
    }
}

impl<K: GridKey, V: Copy> GridMap<K, V> {
    /// A copy of the map with the same entries.
    pub fn duplicate(&self) -> (r: Self)
        ensures
            r@ == self@,
            r.entries_view() == self.entries_view(),
    {
        proof {
            use_type_invariant(self);
        }
        let n = self.entries.len();
        let mut entries: Vec<(K, V)> = Vec::new();
        let mut i: usize = 0;
        while i < n
            invariant
                i <= n,
                n == self.entries@.len(),
                entries@ == self.entries@.take(i as int),
            decreases n - i,
        {
            let e = &self.entries[i];
            entries.push((e.0, e.1));
            proof {
                assert(entries@ =~= self.entries@.take(i + 1));
            }
            i = i + 1;
        }
        proof {
            assert(entries@ =~= self.entries@);
        }
        GridMap { entries }
    }
}

/// A sparse grid map whose keys are all within the rectangle coordinate
/// range, so that drawing operations can do arithmetic on them.
pub struct BoundedGridMap<V> {
    map: GridMap<Vector2I, V>,
}

impl<V> View for BoundedGridMap<V> {
    type V = Map<Vector2I, V>;

    closed spec fn view(&self) -> Map<Vector2I, V> {
        self.map@
    }
}

impl<V> BoundedGridMap<V> {
    #[verifier::type_invariant]
    closed spec fn inv(&self) -> bool {
        forall|i: int|
            0 <= i < self.map.entries_view().len() ==> crate::rect::vec_ok(
                (#[trigger] self.map.entries_view()[i]).0,
            )
    }

    /// The stored entries, in their (arbitrary) storage order.
    pub closed spec fn entries_view(&self) -> Seq<(Vector2I, V)> {
        self.map.entries_view()
    }

    /// Bring into scope the facts that entries have distinct, bounded keys
    /// and describe the map; erased at run time.
    pub fn observe(&self)
        ensures
            distinct_keys(self.entries_view()),
            forall|i: int|
                0 <= i < self.entries_view().len() ==> crate::rect::vec_ok(
                    (#[trigger] self.entries_view()[i]).0,
                ) && self@.contains_key(self.entries_view()[i].0) && self@[self.entries_view()[i].0]
                    == self.entries_view()[i].1,
            forall|k: Vector2I|
                #[trigger] self@.contains_key(k) ==> crate::rect::vec_ok(k) && exists|i: int|
                    0 <= i < self.entries_view().len() && (#[trigger] self.entries_view()[i]).0 == k,
    {
        proof {
            use_type_invariant(&*self);
        }
        self.map.observe();
    }

    /// An empty map.
    pub fn new() -> (r: Self)
        ensures
            r@ == Map::<Vector2I, V>::empty(),
            r.entries_view() == Seq::<(Vector2I, V)>::empty(),
    {
        BoundedGridMap { map: GridMap::new() }
    }

    /// The number of entries.
    pub fn len(&self) -> (n: usize)
        ensures
            n == self.entries_view().len(),
    {
        self.map.len()
    }

    /// Whether the map holds no entry.
    pub fn is_empty(&self) -> (r: bool)
        ensures
            r <==> self.entries_view().len() == 0,
            r <==> self@ == Map::<Vector2I, V>::empty(),
    {
        self.map.is_empty()
    }

    /// Look up the value stored under a position.
    pub fn get(&self, key: &Vector2I) -> (r: Option<&V>)
        ensures
            match r {
                Some(v) => self@.contains_key(*key) && *v == self@[*key],
                None => !self@.contains_key(*key),
            },
    {
        self.map.get(key)
    }

    /// Whether the map holds an entry under the given position.
    pub fn contains_key(&self, key: &Vector2I) -> (r: bool)
        ensures
            r == self@.contains_key(*key),
    {
        self.map.contains_key(key)
    }

    /// The entry stored at a storage index.
    pub fn entry_at(&self, i: usize) -> (r: (Vector2I, &V))
        requires
            i < self.entries_view().len(),
        ensures
            r.0 == self.entries_view()[i as int].0,
            *r.1 == self.entries_view()[i as int].1,
            self@.contains_key(r.0),
            self@[r.0] == *r.1,
    {
        self.map.entry_at(i)
    }

    /// Store a value under a position, returning the value previously
    /// stored under it, if any.
    pub fn insert(&mut self, key: Vector2I, value: V) -> (prev: Option<V>)
        requires
            crate::rect::vec_ok(key),
        ensures
            final(self)@ == old(self)@.insert(key, value),
            match prev {
                Some(v) => old(self)@.contains_key(key) && v == old(self)@[key]
                    && final(self).entries_view().len() == old(self).entries_view().len(),
                None => !old(self)@.contains_key(key) && final(self).entries_view().len() == old(
                    self,
                ).entries_view().len() + 1,
            },
    {
        proof {
            use_type_invariant(&*self);
        }
        let mut map = GridMap::new();
        core::mem::swap(&mut map, &mut self.map);
        map.observe();
        let ghost s = map.entries_view();
        let ghost m = map@;
        let prev = map.insert(key, value);
        map.observe();
        proof {
            assert forall|i: int|
                0 <= i < map.entries_view().len() implies crate::rect::vec_ok(
                (#[trigger] map.entries_view()[i]).0,
            ) by {
                let s2 = map.entries_view();
                if s2[i].0 != key {
                    assert(map@.contains_key(s2[i].0));
                    assert(m.contains_key(s2[i].0));
                    let j = choose|j: int| 0 <= j < s.len() && (#[trigger] s[j]).0 == s2[i].0;
                }
            }
        }
        self.map = map;
        prev
    }

    /// Remove the entry stored under a position, returning its value, if
    /// any.
    pub fn remove(&mut self, key: &Vector2I) -> (prev: Option<V>)
        ensures
            final(self)@ == old(self)@.remove(*key),
            match prev {
                Some(v) => old(self)@.contains_key(*key) && v == old(self)@[*key],
                None => !old(self)@.contains_key(*key),
            },
    {
        proof {
            use_type_invariant(&*self);
        }
        let mut map = GridMap::new();
        core::mem::swap(&mut map, &mut self.map);
        map.observe();
        let ghost s = map.entries_view();
        let ghost m = map@;
        let prev = map.remove(key);
        map.observe();
        proof {
            assert forall|i: int|
                0 <= i < map.entries_view().len() implies crate::rect::vec_ok(
                (#[trigger] map.entries_view()[i]).0,
            ) by {
                let s2 = map.entries_view();
                assert(map@.contains_key(s2[i].0));
                assert(m.contains_key(s2[i].0));
                let j = choose|j: int| 0 <= j < s.len() && (#[trigger] s[j]).0 == s2[i].0;
            }
        }
        self.map = map;
        prev
    }

    /// Replace the value of the entry at a storage index, keeping its key;
    /// the previous value is returned.
    pub fn set_value_at(&mut self, i: usize, value: V) -> (prev: V)
        requires
            i < old(self).entries_view().len(),
        ensures
            prev == old(self).entries_view()[i as int].1,
            final(self).entries_view() == old(self).entries_view().update(
                i as int,
                (old(self).entries_view()[i as int].0, value),
            ),
            final(self)@ == old(self)@.insert(old(self).entries_view()[i as int].0, value),
    {
        proof {
            use_type_invariant(&*self);
        }
        let mut map = GridMap::new();
        core::mem::swap(&mut map, &mut self.map);
        let ghost s = map.entries_view();
        let prev = map.set_value_at(i, value);
        proof {
            assert forall|j: int|
                0 <= j < map.entries_view().len() implies crate::rect::vec_ok(
                (#[trigger] map.entries_view()[j]).0,
            ) by {
                assert(map.entries_view()[j].0 == s[j].0);
            }
        }
        self.map = map;
        prev
    }

    /// Remove every entry.
    pub fn clear(&mut self)
        ensures
            final(self)@ == Map::<Vector2I, V>::empty(),
            final(self).entries_view().len() == 0,
    {
        let mut map = GridMap::new();
        core::mem::swap(&mut map, &mut self.map);
        map.clear();
        self.map = map;
    }
}

} // verus!
