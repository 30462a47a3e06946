//! A string-keyed association map with insertion-order iteration.
//!
//! The migration pipeline keys almost everything by record identifiers
//! (strings).  This map is a plain vector of `(key, value)` entries with
//! distinct keys; its mathematical view is a `Map<Seq<char>, V>`, and the
//! key sequence exposes the deterministic iteration order.

use vstd::prelude::*;
use vstd::string::*;

verus! {

/// Character-for-character string equality.
pub fn str_eq(a: &str, b: &str) -> (r: bool)
    ensures
        r == (a@ == b@),
{
    let na = a.unicode_len();
    let nb = b.unicode_len();
    if na != nb {
        return false;
    }
    let mut i: usize = 0;
    while i < na
        invariant
            0 <= i <= na,
            na == a@.len(),
            na == b@.len(),
            forall|j: int| 0 <= j < i ==> a@[j] == b@[j],
        decreases na - i,
    {
        if a.get_char(i) != b.get_char(i) {
            return false;
        }
        i += 1;
    }
    proof {
        assert(a@ =~= b@);
    }
    true
}

/// The map described by an entry sequence: later entries override earlier
/// ones, though a well-formed `StrMap` never has two entries with one key.
pub open spec fn map_of<V>(s: Seq<(String, V)>) -> Map<Seq<char>, V>
    decreases s.len(),
{
    if s.len() == 0 {
        Map::empty()
    } else {
        map_of(s.drop_last()).insert(s.last().0@, s.last().1)
    }
}

/// No two entries share a key.
pub open spec fn distinct_keys<V>(s: Seq<(String, V)>) -> bool {
    forall|i: int, j: int| 0 <= i < j < s.len() ==> s[i].0@ != s[j].0@
}

pub proof fn lemma_map_of_contains<V>(s: Seq<(String, V)>, k: Seq<char>)
    ensures
        map_of(s).contains_key(k) <==> exists|i: int| 0 <= i < s.len() && s[i].0@ == k,
    decreases s.len(),
{
    if s.len() > 0 {
        lemma_map_of_contains(s.drop_last(), k);
        if s.last().0@ == k {
            assert(s[s.len() - 1].0@ == k);
        } else {
            if map_of(s).contains_key(k) {
                let i = choose|i: int| 0 <= i < s.drop_last().len() && s.drop_last()[i].0@ == k;
                assert(s[i].0@ == k);
            }
            if exists|i: int| 0 <= i < s.len() && s[i].0@ == k {
                let i = choose|i: int| 0 <= i < s.len() && s[i].0@ == k;
                assert(s.drop_last()[i].0@ == k);
            }
        }
    }
}

pub proof fn lemma_map_of_index<V>(s: Seq<(String, V)>, i: int)
    requires
        distinct_keys(s),
        0 <= i < s.len(),
    ensures
        map_of(s).contains_key(s[i].0@),
        map_of(s)[s[i].0@] == s[i].1,
    decreases s.len(),
{
    if i == s.len() - 1 {
        lemma_map_of_contains(s, s[i].0@);
    } else {
        lemma_map_of_index(s.drop_last(), i);
        assert(s.drop_last()[i] == s[i]);
        assert(s.last().0@ != s[i].0@);
    }
}

/// A map from strings to values, kept as a vector of entries with distinct
/// keys, iterated in insertion order.
pub struct StrMap<V> {
    entries: Vec<(String, V)>,
}

impl<V> StrMap<V> {
    /// The entry sequence (the authoritative representation).
    pub closed spec fn entry_seq(&self) -> Seq<(String, V)> {
        self.entries@
    }

    /// Keys in insertion order.
    pub open spec fn key_seq(&self) -> Seq<Seq<char>> {
        self.entry_seq().map(|i: int, e: (String, V)| e.0@)
    }

    /// The mathematical map this collection represents.
    pub open spec fn view(&self) -> Map<Seq<char>, V> {
        map_of(self.entry_seq())
    }

    /// Well-formed: entry keys are distinct.
    pub open spec fn wf(&self) -> bool {
        distinct_keys(self.entry_seq())
    }

    pub fn new() -> (r: Self)
        ensures
            r.wf(),
            r@ == Map::<Seq<char>, V>::empty(),
            r.entry_seq().len() == 0,
    {
        StrMap { entries: Vec::new() }
    }

    /// Number of entries (= number of keys).
    pub fn len(&self) -> (r: usize)
        ensures
            r == self.entry_seq().len(),
    {
        self.entries.len()
    }

    pub fn is_empty(&self) -> (r: bool)
        ensures
            r == (self.entry_seq().len() == 0),
    {
        self.entries.len() == 0
    }

    /// Index of the entry holding `k`, if any.
    fn find(&self, k: &str) -> (r: Option<usize>)
        ensures
            match r {
                Some(i) => i < self.entry_seq().len() && self.entry_seq()[i as int].0@ == k@,
                None => forall|i: int|
                    0 <= i < self.entry_seq().len() ==> self.entry_seq()[i].0@ != k@,
            },
    {
        let n = self.entries.len();
        let mut i: usize = 0;
        while i < n
            invariant
                0 <= i <= n,
                n == self.entry_seq().len(),
                forall|j: int| 0 <= j < i ==> self.entry_seq()[j].0@ != k@,
            decreases n - i,
        {
            if str_eq(self.entries[i].0.as_str(), k) {
                return Some(i);
            }
            i += 1;
        }
        None
    }

    pub fn contains_key(&self, k: &str) -> (r: bool)
        ensures
            r == self@.contains_key(k@),
    {
        let found = self.find(k);
        proof {
            lemma_map_of_contains(self.entry_seq(), k@);
        }
        found.is_some()
    }

    pub fn get(&self, k: &str) -> (r: Option<&V>)
        requires
            self.wf(),
        ensures
            match r {
                Some(v) => self@.contains_key(k@) && *v == self@[k@],
                None => !self@.contains_key(k@),
            },
    {
        proof {
            lemma_map_of_contains(self.entry_seq(), k@);
        }
        match self.find(k) {
            Some(i) => {
                proof {
                    lemma_map_of_index(self.entry_seq(), i as int);
                }
                Some(&self.entries[i].1)
            },
            None => None,
        }
    }

    /// Insert `v` under `k`, replacing any previous value.  A new key is
    /// appended to the iteration order; an existing key keeps its place.
    pub fn insert(&mut self, k: String, v: V)
        requires
            old(self).wf(),
        ensures
            final(self).wf(),
            final(self)@ == old(self)@.insert(k@, v),
            old(self)@.contains_key(k@) ==> final(self).key_seq() == old(self).key_seq(),
            !old(self)@.contains_key(k@) ==> final(self).key_seq() == old(self).key_seq().push(
                k@,
            ),
    {
        proof {
            lemma_map_of_contains(self.entry_seq(), k@);
        }
        match self.find(k.as_str()) {
            Some(i) => {
                let ghost s0 = self.entry_seq();
                let ghost kv = (k, v);
                let _ = self.entries.remove(i);
                self.entries.insert(i, (k, v));
                proof {
                    let s1 = self.entry_seq();
                    assert(s1 =~= s0.update(i as int, kv));
                    lemma_map_of_update(s0, i as int, kv.0, kv.1);
                    assert(self.key_seq() =~= old(self).key_seq());
                }
            },
            None => {
                let ghost s0 = self.entry_seq();
                let ghost kk = k@;
                self.entries.push((k, v));
                proof {
                    assert(self.entry_seq().drop_last() =~= s0);
                    assert(self.key_seq() =~= old(self).key_seq().push(kk));
                }
            },
        }
    }

    /// Key of the `i`-th entry in insertion order.
    pub fn key_at(&self, i: usize) -> (r: &String)
        requires
            i < self.entry_seq().len(),
        ensures
            r@ == self.key_seq()[i as int],
    {
        &self.entries[i].0
    }

    /// Value of the `i`-th entry in insertion order.
    pub fn value_at(&self, i: usize) -> (r: &V)
        requires
            self.wf(),
            i < self.entry_seq().len(),
        ensures
            self@.contains_key(self.key_seq()[i as int]),
            *r == self@[self.key_seq()[i as int]],
    {
        proof {
            lemma_map_of_index(self.entry_seq(), i as int);
        }
        &self.entries[i].1
    }
}

impl<V> StrMap<V> {
    /// A key is in the map exactly when it is in the key sequence.
    pub proof fn lemma_dom_keys(&self)
        ensures
            forall|k: Seq<char>|
                self@.contains_key(k) <==> exists|i: int|
                    0 <= i < self.key_seq().len() && self.key_seq()[i] == k,
    {
        assert forall|k: Seq<char>| self@.contains_key(k) <==> exists|i: int|
            0 <= i < self.key_seq().len() && self.key_seq()[i] == k by {
            lemma_map_of_contains(self.entry_seq(), k);
            if self@.contains_key(k) {
                let i = choose|i: int|
                    0 <= i < self.entry_seq().len() && self.entry_seq()[i].0@ == k;
                assert(self.key_seq()[i] == k);
            }
            if exists|i: int| 0 <= i < self.key_seq().len() && self.key_seq()[i] == k {
                let i = choose|i: int| 0 <= i < self.key_seq().len() && self.key_seq()[i] == k;
                assert(self.entry_seq()[i].0@ == k);
            }
        }
    }
}

impl StrMap<usize> {
    /// Add one to the count held under `k`, starting at one for a new key.
    pub fn bump(&mut self, k: &str)
        requires
            old(self).wf(),
            old(self)@.contains_key(k@) ==> old(self)@[k@] < usize::MAX,
        ensures
            final(self).wf(),
            final(self)@ == old(self)@.insert(
                k@,
                if old(self)@.contains_key(k@) {
                    (old(self)@[k@] + 1) as usize
                } else {
                    1usize
                },
            ),
            old(self)@.contains_key(k@) ==> final(self).key_seq() == old(self).key_seq(),
            !old(self)@.contains_key(k@) ==> final(self).key_seq() == old(self).key_seq().push(
                k@,
            ),
    {
        let next: usize = match self.get(k) {
            Some(c) => *c + 1,
            None => 1,
        };
        self.insert(String::from_str(k), next);
    }
}

/// Updating one entry's value rewrites exactly that key's binding.
proof fn lemma_map_of_update<V>(s: Seq<(String, V)>, i: int, k: String, v: V)
    requires
        distinct_keys(s),
        0 <= i < s.len(),
        s[i].0@ == k@,
    ensures
        map_of(s.update(i, (k, v))) == map_of(s).insert(k@, v),
    decreases s.len(),
{
    let t = s.update(i, (k, v));
    if i == s.len() - 1 {
        assert(t.drop_last() =~= s.drop_last());
        assert(map_of(t) =~= map_of(s).insert(k@, v));
    } else {
        lemma_map_of_update(s.drop_last(), i, k, v);
        assert(t.drop_last() =~= s.drop_last().update(i, (k, v)));
        assert(t.last() == s.last());
        assert(s.last().0@ != k@);
        assert(map_of(t) =~= map_of(s).insert(k@, v));
    }
}

impl<T> StrMap<Vec<T>> {
    /// Append `item` to the vector held under `k`, starting a new vector if
    /// the key is absent.
    pub fn push_value(&mut self, k: &str, item: T)
        requires
            old(self).wf(),
        ensures
            final(self).wf(),
            final(self)@.dom() == old(self)@.dom().insert(k@),
            final(self)@[k@]@ == (if old(self)@.contains_key(k@) {
                old(self)@[k@]@
            } else {
                Seq::<T>::empty()
            }).push(item),
            forall|k2: Seq<char>|
                old(self)@.contains_key(k2) && k2 != k@ ==> final(self)@.contains_key(k2)
                    && final(self)@[k2] == old(self)@[k2],
            old(self)@.contains_key(k@) ==> final(self).key_seq() == old(self).key_seq(),
            !old(self)@.contains_key(k@) ==> final(self).key_seq() == old(self).key_seq().push(
                k@,
            ),
    {
        proof {
            lemma_map_of_contains(self.entry_seq(), k@);
        }
        match self.find(k) {
            Some(i) => {
                proof {
                    lemma_map_of_index(self.entry_seq(), i as int);
                }
                let ghost s0 = self.entry_seq();
                let (key, mut held) = self.entries.remove(i);
                held.push(item);
                self.entries.insert(i, (key, held));
                proof {
                    let s1 = self.entry_seq();
                    assert(s1 =~= s0.update(i as int, s1[i as int]));
                    lemma_map_of_update(s0, i as int, s1[i as int].0, s1[i as int].1);
                    assert(self@.dom() =~= old(self)@.dom().insert(k@));
                    assert(self.key_seq() =~= old(self).key_seq());
                }
            },
            None => {
                let ghost s0 = self.entry_seq();
                let mut fresh: Vec<T> = Vec::new();
                fresh.push(item);
                self.entries.push((String::from_str(k), fresh));
                proof {
                    assert(self.entry_seq().drop_last() =~= s0);
                    assert(self@.dom() =~= old(self)@.dom().insert(k@));
                    assert(self.key_seq() =~= old(self).key_seq().push(k@));
                }
            },
        }
    }
}

/// View of a vector of strings.
pub open spec fn strings_view(v: Vec<String>) -> Seq<Seq<char>> {
    v@.map(|i: int, s: String| s@)
}

/// Whether `v` holds a string whose characters equal `s`.
pub open spec fn seq_contains_string(v: Seq<String>, s: Seq<char>) -> bool {
    exists|i: int| 0 <= i < v.len() && v[i]@ == s
}

/// Linear search for `s` in a vector of strings.
pub fn vec_contains_str(v: &Vec<String>, s: &str) -> (r: bool)
    ensures
        r == seq_contains_string(v@, s@),
{
    let n = v.len();
    let mut i: usize = 0;
    while i < n
        invariant
            0 <= i <= n,
            n == v@.len(),
            forall|j: int| 0 <= j < i ==> v@[j]@ != s@,
        decreases n - i,
    {
        if str_eq(v[i].as_str(), s) {
            return true;
        }
        i += 1;
    }
    false
}

} // verus!
