//! A map from names to values that keeps its entries in insertion order.

use vstd::prelude::*;

use crate::text::chars_eq;
use crate::text::chars_of;

verus! {

/// The index of the first entry with key `k`, or -1.
pub open spec fn find_key<T>(s: Seq<(Seq<char>, T)>, k: Seq<char>) -> int
    decreases s.len(),
{
    if s.len() == 0 {
        -1
    } else if s[0].0 == k {
        0
    } else {
        let r = find_key(s.drop_first(), k);
        if r < 0 { -1 } else { r + 1 }
    }
}

/// No key occurs twice.
pub open spec fn keys_distinct<T>(s: Seq<(Seq<char>, T)>) -> bool {
    forall|i: int, j: int| 0 <= i < s.len() && 0 <= j < s.len() && i != j ==> s[i].0 != s[j].0
}

/// The map that a sequence of entries with distinct keys describes.
pub open spec fn entries_map<T>(s: Seq<(Seq<char>, T)>) -> Map<Seq<char>, T> {
    Map::new(|k: Seq<char>| find_key(s, k) >= 0, |k: Seq<char>| s[find_key(s, k)].1)
}

pub proof fn lemma_find_key<T>(s: Seq<(Seq<char>, T)>, k: Seq<char>)
    ensures
        -1 <= find_key(s, k) < s.len(),
        find_key(s, k) == -1 <==> (forall|i: int| 0 <= i < s.len() ==> s[i].0 != k),
        find_key(s, k) >= 0 ==> s[find_key(s, k)].0 == k,
    decreases s.len(),
{
    if s.len() > 0 && s[0].0 != k {
        lemma_find_key(s.drop_first(), k);
        if find_key(s.drop_first(), k) == -1 {
            assert forall|i: int| 0 <= i < s.len() implies s[i].0 != k by {
                if i > 0 {
                    assert(s[i] == s.drop_first()[i - 1]);
                }
            }
        } else {
            let r = find_key(s.drop_first(), k);
            assert(s.drop_first()[r] == s[r + 1]);
        }
    }
}

/// With distinct keys, the entry with key `k` is the one at index `i`.
pub proof fn lemma_find_key_at<T>(s: Seq<(Seq<char>, T)>, i: int)
    requires
        keys_distinct(s),
        0 <= i < s.len(),
    ensures
        find_key(s, s[i].0) == i,
{
    lemma_find_key(s, s[i].0);
}

/// A map from names to values with distinct names, in insertion order.
pub struct NameMap<T: Copy> {
    entries: Vec<(String, T)>,
}

impl<T: Copy> NameMap<T> {
    /// The entries as (name, value) pairs, in order.
    pub closed spec fn pairs(self) -> Seq<(Seq<char>, T)> {
        self.entries@.map_values(|e: (String, T)| (e.0@, e.1))
    }

    #[verifier::type_invariant]
    pub open spec fn distinct(self) -> bool {
        keys_distinct(self.pairs())
    }

    /// The names and values as a map.
    pub open spec fn map(self) -> Map<Seq<char>, T> {
        entries_map(self.pairs())
    }

    pub fn new() -> (m: Self)
        ensures
            m.pairs() == Seq::<(Seq<char>, T)>::empty(),
    {
        let m = NameMap { entries: Vec::new() };
        assert(m.pairs() =~= Seq::<(Seq<char>, T)>::empty());
        m
    }

    pub fn len(&self) -> (n: usize)
        ensures
            n == self.pairs().len(),
    {
        self.entries.len()
    }

    /// The name of the entry at index `i`.
    pub fn name_at(&self, i: usize) -> (r: &String)
        requires
            i < self.pairs().len(),
        ensures
            r@ == self.pairs()[i as int].0,
    {
        &self.entries[i].0
    }

    /// The value of the entry at index `i`.
    pub fn value_at(&self, i: usize) -> (r: T)
        requires
            i < self.pairs().len(),
        ensures
            r == self.pairs()[i as int].1,
    {
        self.entries[i].1
    }

    /// The index of the entry named `key`.
    pub fn position(&self, key: &Vec<char>) -> (r: Option<usize>)
        ensures
            r is None ==> find_key(self.pairs(), key@) == -1,
            r matches Some(i) ==> i == find_key(self.pairs(), key@) && i < self.pairs().len()
                && self.pairs()[i as int].0 == key@,
    {
        proof {
            use_type_invariant(self);
            lemma_find_key(self.pairs(), key@);
        }
        let mut i: usize = 0;
        while i < self.entries.len()
            invariant
                i <= self.entries.len(),
                keys_distinct(self.pairs()),
                forall|j: int| 0 <= j < i ==> self.pairs()[j].0 != key@,
            decreases self.entries.len() - i,
        {
            let name = chars_of(self.entries[i].0.as_str());
            if chars_eq(&name, key) {
                proof {
                    lemma_find_key_at(self.pairs(), i as int);
                }
                return Some(i);
            }
            i = i + 1;
        }
        None
    }

    /// The value named `key`.
    pub fn get(&self, key: &str) -> (r: Option<T>)
        ensures
            r is Some <==> self.map().contains_key(key@),
            r matches Some(v) ==> v == self.map()[key@],
    {
        let k = chars_of(key);
        match self.position(&k) {
            Some(i) => Some(self.entries[i].1),
            None => None,
        }
    }

    /// Whether an entry is named `key`.
    pub fn contains_key(&self, key: &str) -> (r: bool)
        ensures
            r == self.map().contains_key(key@),
    {
        let k = chars_of(key);
        self.position(&k).is_some()
    }

    /// Sets the value named `key`: an existing entry keeps its place, a new
    /// one goes last.
    pub fn insert(&mut self, key: String, value: T)
        ensures
            final(self).map() == old(self).map().insert(key@, value),
            find_key(old(self).pairs(), key@) >= 0 ==> final(self).pairs() == old(self).pairs().update(
                find_key(old(self).pairs(), key@),
                (key@, value),
            ),
            find_key(old(self).pairs(), key@) < 0 ==> final(self).pairs() == old(self).pairs().push(
                (key@, value),
            ),
    {
        proof {
            use_type_invariant(&*self);
        }
        let k = chars_of(key.as_str());
        let ghost old_pairs = self.pairs();
        match self.position(&k) {
            Some(i) => {
                let mut entries: Vec<(String, T)> = Vec::new();
                std::mem::swap(&mut entries, &mut self.entries);
                entries.set(i, (key, value));
                proof {
                    let np = entries@.map_values(|e: (String, T)| (e.0@, e.1));
                    assert(np =~= old_pairs.update(i as int, (k@, value)));
                    assert(keys_distinct(np)) by {
                        assert forall|a: int, b: int| 0 <= a < np.len() && 0 <= b < np.len() && a != b
                            implies np[a].0 != np[b].0 by {
                            assert(np[a].0 == old_pairs[a].0);
                            assert(np[b].0 == old_pairs[b].0);
                        }
                    }
                    lemma_update_map(old_pairs, i as int, value);
                }
                self.entries = entries;
            },
            None => {
                let mut entries: Vec<(String, T)> = Vec::new();
                std::mem::swap(&mut entries, &mut self.entries);
                entries.push((key, value));
                proof {
                    let np = entries@.map_values(|e: (String, T)| (e.0@, e.1));
                    lemma_find_key(old_pairs, k@);
                    assert(np =~= old_pairs.push((k@, value)));
                    lemma_push_map(old_pairs, k@, value);
                }
                self.entries = entries;
            },
        }
    }

    /// Removes the entry named `key`, keeping the order of the others.
    pub fn remove(&mut self, key: &str)
        ensures
            final(self).map() == old(self).map().remove(key@),
            find_key(old(self).pairs(), key@) >= 0 ==> final(self).pairs() == old(self).pairs().remove(
                find_key(old(self).pairs(), key@),
            ),
            find_key(old(self).pairs(), key@) < 0 ==> final(self).pairs() == old(self).pairs(),
    {
        proof {
            use_type_invariant(&*self);
        }
        let k = chars_of(key);
        let ghost old_pairs = self.pairs();
        match self.position(&k) {
            Some(i) => {
                let mut entries: Vec<(String, T)> = Vec::new();
                std::mem::swap(&mut entries, &mut self.entries);
                let _ = entries.remove(i);
                proof {
                    let np = entries@.map_values(|e: (String, T)| (e.0@, e.1));
                    assert(np =~= old_pairs.remove(i as int));
                    lemma_remove_map(old_pairs, i as int);
                }
                self.entries = entries;
            },
            None => {
                proof {
                    lemma_find_key(old_pairs, k@);
                    assert(self.map() =~= self.map().remove(key@));
                }
            },
        }
    }
}

proof fn lemma_update_map<T>(s: Seq<(Seq<char>, T)>, i: int, v: T)
    requires
        keys_distinct(s),
        0 <= i < s.len(),
    ensures
        keys_distinct(s.update(i, (s[i].0, v))),
        entries_map(s.update(i, (s[i].0, v))) == entries_map(s).insert(s[i].0, v),
{
    let t = s.update(i, (s[i].0, v));
    assert(keys_distinct(t)) by {
        assert forall|a: int, b: int| 0 <= a < t.len() && 0 <= b < t.len() && a != b implies t[a].0 != t[b].0 by {
            assert(t[a].0 == s[a].0);
            assert(t[b].0 == s[b].0);
        }
    }
    assert forall|k: Seq<char>| #[trigger] find_key(t, k) == find_key(s, k) by {
        lemma_find_key(t, k);
        lemma_find_key(s, k);
        if find_key(s, k) >= 0 {
            lemma_find_key_at(t, find_key(s, k));
        } else if find_key(t, k) >= 0 {
            assert(t[find_key(t, k)].0 == s[find_key(t, k)].0);
        }
    }
    lemma_find_key_at(s, i);
    lemma_find_key_at(t, i);
    let m = entries_map(s).insert(s[i].0, v);
    assert forall|k: Seq<char>| #[trigger] entries_map(t).contains_key(k) implies entries_map(t)[k] == m[k] by {
        lemma_find_key(s, k);
        if k != s[i].0 {
            let j = find_key(s, k);
            assert(j != i);
            assert(t[j] == s[j]);
        }
    }
    assert forall|k: Seq<char>| #[trigger] m.contains_key(k) implies entries_map(t).contains_key(k) by {
        lemma_find_key(s, k);
    }
    assert(entries_map(t) =~= m);
}

pub proof fn lemma_push_map<T>(s: Seq<(Seq<char>, T)>, k: Seq<char>, v: T)
    requires
        keys_distinct(s),
        forall|i: int| 0 <= i < s.len() ==> s[i].0 != k,
    ensures
        keys_distinct(s.push((k, v))),
        entries_map(s.push((k, v))) == entries_map(s).insert(k, v),
{
    let t = s.push((k, v));
    assert(keys_distinct(t)) by {
        assert forall|a: int, b: int| 0 <= a < t.len() && 0 <= b < t.len() && a != b implies t[a].0 != t[b].0 by {
            if a < s.len() {
                assert(t[a] == s[a]);
            }
            if b < s.len() {
                assert(t[b] == s[b]);
            }
        }
    }
    assert forall|q: Seq<char>| q != k implies #[trigger] find_key(t, q) == find_key(s, q) by {
        lemma_find_key(t, q);
        lemma_find_key(s, q);
        if find_key(s, q) >= 0 {
            assert(t[find_key(s, q)] == s[find_key(s, q)]);
            lemma_find_key_at(t, find_key(s, q));
        } else if find_key(t, q) >= 0 {
            assert(find_key(t, q) < s.len());
            assert(t[find_key(t, q)] == s[find_key(t, q)]);
        }
    }
    lemma_find_key_at(t, s.len() as int);
    let m = entries_map(s).insert(k, v);
    assert forall|q: Seq<char>| #[trigger] entries_map(t).contains_key(q) implies entries_map(t)[q] == m[q] by {
        lemma_find_key(s, q);
        lemma_find_key(t, q);
        if q != k {
            assert(find_key(t, q) == find_key(s, q));
            assert(t[find_key(s, q)] == s[find_key(s, q)]);
        }
    }
    assert forall|q: Seq<char>| #[trigger] m.contains_key(q) implies entries_map(t).contains_key(q) by {
        lemma_find_key(s, q);
    }
    assert(entries_map(t) =~= m);
}

proof fn lemma_remove_map<T>(s: Seq<(Seq<char>, T)>, i: int)
    requires
        keys_distinct(s),
        0 <= i < s.len(),
    ensures
        keys_distinct(s.remove(i)),
        entries_map(s.remove(i)) == entries_map(s).remove(s[i].0),
{
    let t = s.remove(i);
    assert(forall|a: int| 0 <= a < t.len() ==> #[trigger] t[a] == if a < i { s[a] } else { s[a + 1] });
    assert(keys_distinct(t)) by {
        assert forall|a: int, b: int| 0 <= a < t.len() && 0 <= b < t.len() && a != b implies t[a].0 != t[b].0 by {
            let sa = if a < i { a } else { a + 1 };
            let sb = if b < i { b } else { b + 1 };
            assert(t[a] == s[sa]);
            assert(t[b] == s[sb]);
        }
    }
    let k = s[i].0;
    assert forall|q: Seq<char>| q != k implies (find_key(t, q) >= 0 <==> find_key(s, q) >= 0)
        && (find_key(s, q) >= 0 ==> t[find_key(t, q)].1 == s[find_key(s, q)].1) by {
        lemma_find_key(t, q);
        lemma_find_key(s, q);
        if find_key(s, q) >= 0 {
            let j = find_key(s, q);
            assert(j != i);
            let tj = if j < i { j } else { j - 1 };
            assert(t[tj] == s[j]);
            lemma_find_key_at(t, tj);
        } else if find_key(t, q) >= 0 {
            let a = find_key(t, q);
            let sa = if a < i { a } else { a + 1 };
            assert(t[a] == s[sa]);
        }
    }
    lemma_find_key(t, k);
    assert forall|a: int| 0 <= a < t.len() implies t[a].0 != k by {
        let sa = if a < i { a } else { a + 1 };
        assert(t[a] == s[sa]);
    }
    assert(entries_map(t) =~= entries_map(s).remove(k));
}

} // verus!
