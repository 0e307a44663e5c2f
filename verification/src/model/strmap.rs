//! Finite maps keyed by strings (user IDs, event IDs), kept as a list of
//! entries whose keys are pairwise distinct.

use vstd::prelude::*;

verus! {

/// No key occurs twice in a list of entries.
pub open spec fn keys_distinct<T>(s: Seq<(Seq<char>, T)>) -> bool {
    forall|i: int, j: int|
        0 <= i < s.len() && 0 <= j < s.len() && #[trigger] s[i].0 == #[trigger] s[j].0 ==> i == j
}

/// Whether a list of entries has an entry with key `k`.
pub open spec fn has_key<T>(s: Seq<(Seq<char>, T)>, k: Seq<char>) -> bool {
    exists|i: int| 0 <= i < s.len() && #[trigger] s[i].0 == k
}

/// The map that a list of entries with distinct keys stands for.
pub open spec fn map_of<T>(s: Seq<(Seq<char>, T)>) -> Map<Seq<char>, T> {
    Map::new(
        |k: Seq<char>| has_key(s, k),
        |k: Seq<char>| s[choose|i: int| 0 <= i < s.len() && #[trigger] s[i].0 == k].1,
    )
}

/// An entry of a list with distinct keys is what the map gives for its key.
pub proof fn lemma_map_of_entry<T>(s: Seq<(Seq<char>, T)>, i: int)
    requires
        keys_distinct(s),
        0 <= i < s.len(),
    ensures
        map_of(s).dom().contains(s[i].0),
        map_of(s)[s[i].0] == s[i].1,
{
    let k = s[i].0;
    assert(has_key(s, k));
    let j = choose|j: int| 0 <= j < s.len() && #[trigger] s[j].0 == k;
    assert(s[j].0 == s[i].0);
}

/// Replacing the value of an existing key updates the map at that key.
pub proof fn lemma_map_of_update<T>(s: Seq<(Seq<char>, T)>, i: int, v: T)
    requires
        keys_distinct(s),
        0 <= i < s.len(),
    ensures
        keys_distinct(s.update(i, (s[i].0, v))),
        map_of(s.update(i, (s[i].0, v))) == map_of(s).insert(s[i].0, v),
{
    let t = s.update(i, (s[i].0, v));
    assert forall|a: int, b: int|
        0 <= a < t.len() && 0 <= b < t.len() && #[trigger] t[a].0 == #[trigger] t[b].0 implies a
        == b by {
        assert(t[a].0 == s[a].0);
        assert(t[b].0 == s[b].0);
    }
    assert forall|k: Seq<char>| has_key(s, k) implies has_key(t, k) by {
        let j = choose|j: int| 0 <= j < s.len() && #[trigger] s[j].0 == k;
        assert(t[j].0 == k);
    }
    assert forall|k: Seq<char>| has_key(t, k) implies has_key(s, k) by {
        let j = choose|j: int| 0 <= j < t.len() && #[trigger] t[j].0 == k;
        assert(s[j].0 == k);
    }
    assert forall|k: Seq<char>| #[trigger] map_of(t).dom().contains(k) implies map_of(t)[k] == map_of(
        s,
    ).insert(s[i].0, v)[k] by {
        let j = choose|j: int| 0 <= j < t.len() && #[trigger] t[j].0 == k;
        if k == s[i].0 {
            assert(t[i].0 == k);
        } else {
            assert(s[j].0 == k);
            lemma_map_of_entry(s, j);
        }
    }
    assert(map_of(t) =~= map_of(s).insert(s[i].0, v));
}

/// Removing the entry at position `i` removes its key from the map.
pub proof fn lemma_map_of_remove<T>(s: Seq<(Seq<char>, T)>, i: int)
    requires
        keys_distinct(s),
        0 <= i < s.len(),
    ensures
        keys_distinct(s.remove(i)),
        map_of(s.remove(i)) == map_of(s).remove(s[i].0),
{
    let t = s.remove(i);
    let k = s[i].0;
    assert forall|a: int, b: int|
        0 <= a < t.len() && 0 <= b < t.len() && #[trigger] t[a].0 == #[trigger] t[b].0 implies a
        == b by {
        let a1 = if a < i { a } else { a + 1 };
        let b1 = if b < i { b } else { b + 1 };
        assert(t[a].0 == s[a1].0);
        assert(t[b].0 == s[b1].0);
    }
    assert forall|x: Seq<char>| has_key(t, x) <==> (has_key(s, x) && x != k) by {
        if has_key(t, x) {
            let j = choose|j: int| 0 <= j < t.len() && #[trigger] t[j].0 == x;
            let j1 = if j < i { j } else { j + 1 };
            assert(s[j1].0 == x);
            assert(j1 != i);
        }
        if has_key(s, x) && x != k {
            let j = choose|j: int| 0 <= j < s.len() && #[trigger] s[j].0 == x;
            assert(j != i);
            let j0 = if j < i { j } else { j - 1 };
            assert(t[j0].0 == x);
        }
    }
    assert forall|x: Seq<char>| #[trigger] map_of(t).dom().contains(x) implies map_of(t)[x]
        == map_of(s).remove(k)[x] by {
        let j = choose|j: int| 0 <= j < t.len() && #[trigger] t[j].0 == x;
        let j1 = if j < i { j } else { j + 1 };
        assert(s[j1].0 == x);
        lemma_map_of_entry(s, j1);
    }
    assert(map_of(t) =~= map_of(s).remove(k));
}

/// Appending an entry with a new key adds it to the map.
pub proof fn lemma_map_of_push<T>(s: Seq<(Seq<char>, T)>, k: Seq<char>, v: T)
    requires
        keys_distinct(s),
        !has_key(s, k),
    ensures
        keys_distinct(s.push((k, v))),
        map_of(s.push((k, v))) == map_of(s).insert(k, v),
{
    let t = s.push((k, v));
    assert forall|a: int, b: int|
        0 <= a < t.len() && 0 <= b < t.len() && #[trigger] t[a].0 == #[trigger] t[b].0 implies a
        == b by {
        if a < s.len() && b < s.len() {
            assert(t[a].0 == s[a].0);
            assert(t[b].0 == s[b].0);
        } else if a < s.len() {
            assert(s[a].0 == k);
        } else if b < s.len() {
            assert(s[b].0 == k);
        }
    }
    assert forall|x: Seq<char>| has_key(t, x) <==> (has_key(s, x) || x == k) by {
        if has_key(s, x) {
            let j = choose|j: int| 0 <= j < s.len() && #[trigger] s[j].0 == x;
            assert(t[j].0 == x);
        }
        if x == k {
            assert(t[s.len() as int].0 == x);
        }
        if has_key(t, x) && x != k {
            let j = choose|j: int| 0 <= j < t.len() && #[trigger] t[j].0 == x;
            assert(s[j].0 == x);
        }
    }
    assert forall|x: Seq<char>| #[trigger] map_of(t).dom().contains(x) implies map_of(t)[x]
        == map_of(s).insert(k, v)[x] by {
        let j = choose|j: int| 0 <= j < t.len() && #[trigger] t[j].0 == x;
        if x == k {
            assert(t[s.len() as int].0 == x);
        } else {
            assert(s[j].0 == x);
            lemma_map_of_entry(s, j);
        }
    }
    assert(map_of(t) =~= map_of(s).insert(k, v));
}

/// Two lists of entries with the same keys at each position stand for maps
/// with the same domain, each key taking its value from the second list.
pub proof fn lemma_map_of_same_keys<T>(s: Seq<(Seq<char>, T)>, t: Seq<(Seq<char>, T)>)
    requires
        keys_distinct(s),
        s.len() == t.len(),
        forall|i: int| 0 <= i < s.len() ==> #[trigger] t[i].0 == s[i].0,
    ensures
        keys_distinct(t),
        map_of(t).dom() == map_of(s).dom(),
        forall|i: int| 0 <= i < s.len() ==> #[trigger] map_of(t)[s[i].0] == t[i].1,
{
    assert forall|a: int, b: int|
        0 <= a < t.len() && 0 <= b < t.len() && #[trigger] t[a].0 == #[trigger] t[b].0 implies a
        == b by {
        assert(s[a].0 == t[a].0);
        assert(s[b].0 == t[b].0);
    }
    assert forall|k: Seq<char>| has_key(s, k) implies has_key(t, k) by {
        let j = choose|j: int| 0 <= j < s.len() && #[trigger] s[j].0 == k;
        assert(t[j].0 == k);
    }
    assert forall|k: Seq<char>| has_key(t, k) implies has_key(s, k) by {
        let j = choose|j: int| 0 <= j < t.len() && #[trigger] t[j].0 == k;
        assert(s[j].0 == k);
    }
    assert(map_of(t).dom() =~= map_of(s).dom());
    assert forall|i: int| 0 <= i < s.len() implies #[trigger] map_of(t)[s[i].0] == t[i].1 by {
        assert(t[i].0 == s[i].0);
        lemma_map_of_entry(t, i);
    }
}

/// A map from strings to values.
pub struct StrMap<V: DeepView> {
    entries: Vec<(String, V)>,
}

impl<V: DeepView> StrMap<V> {
    /// The entries, in the order in which their keys were first inserted.
    pub closed spec fn pairs(&self) -> Seq<(Seq<char>, V::V)> {
        self.entries@.map_values(|e: (String, V)| (e.0@, e.1.deep_view()))
    }

    #[verifier::type_invariant]
    closed spec fn distinct(&self) -> bool {
        keys_distinct(self.pairs())
    }

    /// The map that this value stands for.
    pub open spec fn map(&self) -> Map<Seq<char>, V::V> {
        map_of(self.pairs())
    }

    /// The empty map.
    pub fn new() -> (m: Self)
        ensures
            m.pairs() == Seq::<(Seq<char>, V::V)>::empty(),
            m.map() == Map::<Seq<char>, V::V>::empty(),
    {
        let m = StrMap { entries: Vec::new() };
        assert(m.pairs() =~= Seq::<(Seq<char>, V::V)>::empty());
        assert(m.map() =~= Map::<Seq<char>, V::V>::empty());
        m
    }

    /// The number of entries; the keys of the entries are distinct.
    pub fn len(&self) -> (n: usize)
        ensures
            n == self.pairs().len(),
            keys_distinct(self.pairs()),
    {
        proof {
            use_type_invariant(self);
        }
        self.entries.len()
    }

    /// The key of the `i`-th entry.
    pub fn key_at(&self, i: usize) -> (k: &String)
        requires
            i < self.pairs().len(),
        ensures
            k@ == self.pairs()[i as int].0,
    {
        &self.entries[i].0
    }

    /// The value of the `i`-th entry.
    pub fn value_at(&self, i: usize) -> (v: &V)
        requires
            i < self.pairs().len(),
        ensures
            v.deep_view() == self.pairs()[i as int].1,
    {
        &self.entries[i].1
    }

    /// The position of the entry with key `k`, if there is one.
    pub fn index_of(&self, k: &str) -> (r: Option<usize>)
        ensures
            match r {
                Some(i) => i < self.pairs().len() && self.pairs()[i as int].0 == k@,
                None => !has_key(self.pairs(), k@),
            },
    {
        let mut i: usize = 0;
        while i < self.entries.len()
            invariant
                i <= self.entries.len(),
                self.pairs().len() == self.entries.len(),
                forall|j: int| 0 <= j < i ==> #[trigger] self.pairs()[j].0 != k@,
            decreases self.entries.len() - i,
        {
            if crate::text::str_eq(self.entries[i].0.as_str(), k) {
                return Some(i);
            }
            i = i + 1;
        }
        proof {
            if has_key(self.pairs(), k@) {
                let j = choose|j: int| 0 <= j < self.pairs().len() && #[trigger] self.pairs()[j].0 == k@;
                assert(self.pairs()[j].0 != k@);
            }
        }
        None
    }

    /// The value stored under `k`.
    pub fn get(&self, k: &str) -> (r: Option<&V>)
        ensures
            match r {
                Some(v) => self.map().dom().contains(k@) && self.map()[k@] == v.deep_view(),
                None => !self.map().dom().contains(k@),
            },
    {
        proof {
            use_type_invariant(self);
        }
        match self.index_of(k) {
            Some(i) => {
                proof {
                    lemma_map_of_entry(self.pairs(), i as int);
                }
                Some(&self.entries[i].1)
            },
            None => None,
        }
    }

    /// Stores `v` under `k`: in place of the value stored there before,
    /// the entries keeping their order, or as a new last entry.
    pub fn insert(&mut self, k: String, v: V)
        ensures
            final(self).map() == old(self).map().insert(k@, v.deep_view()),
            has_key(old(self).pairs(), k@) ==> exists|i: int|
                0 <= i < old(self).pairs().len() && old(self).pairs()[i].0 == k@ && final(self).pairs()
                    == old(self).pairs().update(i, (k@, v.deep_view())),
            !has_key(old(self).pairs(), k@) ==> final(self).pairs() == old(self).pairs().push(
                (k@, v.deep_view()),
            ),
    {
        proof {
            use_type_invariant(&*self);
        }
        let ghost s = self.pairs();
        let idx = self.index_of(k.as_str());
        let mut entries: Vec<(String, V)> = Vec::new();
        std::mem::swap(&mut entries, &mut self.entries);
        match idx {
            Some(i) => {
                let ghost kv = (k@, v.deep_view());
                entries.set(i, (k, v));
                proof {
                    lemma_map_of_update(s, i as int, kv.1);
                    assert(entries@.map_values(|e: (String, V)| (e.0@, e.1.deep_view())) =~= s.update(
                        i as int,
                        kv,
                    ));
                }
            },
            None => {
                let ghost kv = (k@, v.deep_view());
                entries.push((k, v));
                proof {
                    lemma_map_of_push(s, kv.0, kv.1);
                    assert(entries@.map_values(|e: (String, V)| (e.0@, e.1.deep_view())) =~= s.push(
                        kv,
                    ));
                }
            },
        }
        self.entries = entries;
    }

    /// Removes the entry with key `k` and gives back its value; the other
    /// entries keep their order.
    pub fn remove(&mut self, k: &str) -> (r: Option<V>)
        ensures
            final(self).map() == old(self).map().remove(k@),
            match r {
                Some(v) => old(self).map().dom().contains(k@) && v.deep_view() == old(self).map()[k@],
                None => !old(self).map().dom().contains(k@) && final(self).pairs() == old(self).pairs(),
            },
    {
        proof {
            use_type_invariant(&*self);
        }
        let ghost s = self.pairs();
        match self.index_of(k) {
            Some(i) => {
                proof {
                    lemma_map_of_entry(s, i as int);
                    lemma_map_of_remove(s, i as int);
                }
                let mut entries: Vec<(String, V)> = Vec::new();
                std::mem::swap(&mut entries, &mut self.entries);
                let e = entries.remove(i);
                proof {
                    assert(entries@.map_values(|e: (String, V)| (e.0@, e.1.deep_view())) =~= s.remove(
                        i as int,
                    ));
                }
                self.entries = entries;
                Some(e.1)
            },
            None => {
                proof {
                    if s.len() > 0 {
                        assert(!map_of(s).dom().contains(k@));
                    }
                    assert(map_of(s).remove(k@) =~= map_of(s));
                }
                None
            },
        }
    }

    /// Replaces the value of the `i`-th entry; the keys stay as they were.
    pub fn set_value_at(&mut self, i: usize, v: V)
        requires
            i < old(self).pairs().len(),
        ensures
            final(self).pairs() == old(self).pairs().update(
                i as int,
                (old(self).pairs()[i as int].0, v.deep_view()),
            ),
            final(self).map() == old(self).map().insert(old(self).pairs()[i as int].0, v.deep_view()),
    {
        proof {
            use_type_invariant(&*self);
        }
        let ghost s = self.pairs();
        let ghost vv = v.deep_view();
        let mut entries: Vec<(String, V)> = Vec::new();
        std::mem::swap(&mut entries, &mut self.entries);
        let k = entries[i].0.clone();
        entries.set(i, (k, v));
        proof {
            lemma_map_of_update(s, i as int, vv);
            assert(entries@.map_values(|e: (String, V)| (e.0@, e.1.deep_view())) =~= s.update(
                i as int,
                (s[i as int].0, vv),
            ));
        }
        self.entries = entries;
    }
}

impl<V: DeepView> DeepView for StrMap<V> {
    type V = Map<Seq<char>, V::V>;

    open spec fn deep_view(&self) -> Map<Seq<char>, V::V> {
        self.map()
    }
}

impl StrMap<i64> {
    /// A copy of this map.
    pub fn duplicate(&self) -> (r: StrMap<i64>)
        ensures
            r.pairs() == self.pairs(),
            r.map() == self.map(),
    {
        proof {
            use_type_invariant(self);
        }
        let mut r: StrMap<i64> = StrMap::new();
        let mut i: usize = 0;
        while i < self.entries.len()
            invariant
                i <= self.entries.len(),
                self.pairs().len() == self.entries.len(),
                keys_distinct(self.pairs()),
                r.pairs() == self.pairs().take(i as int),
            decreases self.entries.len() - i,
        {
            let k = self.entries[i].0.clone();
            let v = self.entries[i].1;
            proof {
                let s = self.pairs();
                assert(s[i as int] == (k@, v));
                if has_key(r.pairs(), k@) {
                    let j = choose|j: int| 0 <= j < r.pairs().len() && #[trigger] r.pairs()[j].0 == k@;
                    assert(s[j].0 == s[i as int].0);
                }
            }
            r.insert(k, v);
            assert(r.pairs() =~= self.pairs().take(i + 1 as int));
            i = i + 1;
        }
        assert(self.pairs().take(self.entries.len() as int) =~= self.pairs());
        r
    }
}

} // verus!
