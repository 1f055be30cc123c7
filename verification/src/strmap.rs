//! An insertion-ordered map from strings to strings.
//!
//! Keys are compared by their characters; inserting an existing key replaces
//! its value in place, inserting a new key appends it.
use vstd::prelude::*;

use crate::text::{chars_eq, chars_of, copy_pairs, pairs_view};

verus! {

/// Entries of a string map, as views.
pub type Entries = Seq<(Seq<char>, Seq<char>)>;

/// The index of the first entry with key `k`, or -1.
pub open spec fn find_key(m: Entries, k: Seq<char>) -> int
    decreases m.len(),
{
    if m.len() == 0 {
        -1
    } else {
        let r = find_key(m.drop_last(), k);
        if r >= 0 {
            r
        } else if m.last().0 == k {
            m.len() - 1
        } else {
            -1
        }
    }
}

/// The value stored under `k`, if any.
pub open spec fn lookup(m: Entries, k: Seq<char>) -> Option<Seq<char>> {
    let i = find_key(m, k);
    if i >= 0 {
        Some(m[i].1)
    } else {
        None
    }
}

/// `m` after storing `v` under `k`: an existing entry is updated in place,
/// otherwise a new entry is appended.
pub open spec fn insert_entry(m: Entries, k: Seq<char>, v: Seq<char>) -> Entries {
    let i = find_key(m, k);
    if i >= 0 {
        m.update(i, (k, v))
    } else {
        m.push((k, v))
    }
}

/// No key occurs twice.
pub open spec fn keys_distinct(m: Entries) -> bool {
    forall|i: int, j: int| 0 <= i < j < m.len() ==> m[i].0 != m[j].0
}

/// `find_key` is -1 or the first index holding `k`.
pub proof fn lemma_find_key(m: Entries, k: Seq<char>)
    ensures
        -1 <= find_key(m, k) < m.len(),
        find_key(m, k) >= 0 ==> m[find_key(m, k)].0 == k,
        forall|j: int|
            0 <= j < m.len() && (find_key(m, k) < 0 || j < find_key(m, k)) ==> m[j].0 != k,
    decreases m.len(),
{
    if m.len() > 0 {
        lemma_find_key(m.drop_last(), k);
        assert forall|j: int| 0 <= j < m.len() - 1 implies m[j] == m.drop_last()[j] by {}
    }
}

/// Reading back after an insertion gives the inserted value for the inserted
/// key and leaves every other key as it was.
pub proof fn lemma_lookup_insert(m: Entries, k: Seq<char>, v: Seq<char>, k2: Seq<char>)
    ensures
        lookup(insert_entry(m, k, v), k2) == (if k2 == k {
            Some(v)
        } else {
            lookup(m, k2)
        }),
{
    let m2 = insert_entry(m, k, v);
    lemma_find_key(m, k);
    lemma_find_key(m, k2);
    lemma_find_key(m2, k2);
    let i = find_key(m, k);
    let i2 = find_key(m2, k2);
    let j = find_key(m, k2);
    if k2 == k {
        if i >= 0 {
            assert(m2[i].0 == k);
            assert(i2 == i) by {
                if i2 < i {
                    assert(m2[i2] == m[i2]);
                }
            }
        } else {
            assert(m2[m.len() as int].0 == k);
            assert(i2 == m.len()) by {
                if i2 >= 0 && i2 < m.len() {
                    assert(m2[i2] == m[i2]);
                }
            }
        }
    } else {
        if j >= 0 {
            assert(m2[j] == m[j]) by {
                if i >= 0 && i == j {
                    assert(m[j].0 == k2);
                }
            }
            assert(i2 == j) by {
                if i2 < j && i2 >= 0 {
                    assert(m2[i2] == m[i2] || i2 == i);
                }
            }
        } else {
            assert(i2 < 0) by {
                if i2 >= 0 {
                    if i2 < m.len() {
                        assert(m2[i2] == m[i2] || i2 == i);
                    }
                }
            }
        }
    }
}

/// Insertion keeps keys distinct.
pub proof fn lemma_insert_keeps_keys_distinct(m: Entries, k: Seq<char>, v: Seq<char>)
    requires
        keys_distinct(m),
    ensures
        keys_distinct(insert_entry(m, k, v)),
{
    lemma_find_key(m, k);
    let m2 = insert_entry(m, k, v);
    assert forall|a: int, b: int| 0 <= a < b < m2.len() implies m2[a].0 != m2[b].0 by {
        let i = find_key(m, k);
        if i >= 0 {
            if a == i {
                assert(m[b].0 != m[i].0);
            } else if b == i {
                assert(m[a].0 != m[i].0);
            }
        } else {
            if b == m.len() {
                assert(m[a].0 != k);
            }
        }
    }
}

/// An insertion-ordered map from strings to strings with distinct keys.
pub struct StrMap {
    entries: Vec<(String, String)>,
}

impl View for StrMap {
    type V = Entries;

    closed spec fn view(&self) -> Entries {
        pairs_view(self.entries@)
    }
}

impl StrMap {
    /// The keys of the map are distinct.
    #[verifier::type_invariant]
    spec fn wf(&self) -> bool {
        keys_distinct(pairs_view(self.entries@))
    }

    /// An empty map.
    pub fn new() -> (r: Self)
        ensures
            r@ == Seq::<(Seq<char>, Seq<char>)>::empty(),
    {
        let v: Vec<(String, String)> = Vec::new();
        proof {
            assert(pairs_view(v@) =~= Seq::<(Seq<char>, Seq<char>)>::empty());
        }
        StrMap { entries: v }
    }

    /// A copy of the map.
    pub fn copy(&self) -> (r: Self)
        ensures
            r@ == self@,
    {
        proof {
            use_type_invariant(self);
        }
        let entries = copy_pairs(&self.entries);
        StrMap { entries }
    }

    /// The number of entries.
    pub fn len(&self) -> (r: usize)
        ensures
            r == self@.len(),
    {
        self.entries.len()
    }

    /// The entries, in insertion order; no key occurs twice.
    pub fn pairs(&self) -> (r: &Vec<(String, String)>)
        ensures
            pairs_view(r@) == self@,
            keys_distinct(self@),
    {
        proof {
            use_type_invariant(self);
        }
        &self.entries
    }

    /// The index of the entry with key `key`, if any.
    fn position(&self, key: &[char]) -> (r: Option<usize>)
        ensures
            match r {
                Some(i) => i as int == find_key(self@, key@),
                None => find_key(self@, key@) < 0,
            },
    {
        proof {
            lemma_find_key(self@, key@);
        }
        let mut i: usize = 0;
        while i < self.entries.len()
            invariant
                i <= self.entries@.len(),
                self@.len() == self.entries@.len(),
                forall|j: int| 0 <= j < i ==> self@[j].0 != key@,
                -1 <= find_key(self@, key@) < self@.len(),
                find_key(self@, key@) >= 0 ==> self@[find_key(self@, key@)].0 == key@,
                forall|j: int|
                    0 <= j < self@.len() && (find_key(self@, key@) < 0 || j < find_key(
                        self@,
                        key@,
                    )) ==> self@[j].0 != key@,
            decreases self.entries.len() - i,
        {
            let k = chars_of(self.entries[i].0.as_str());
            proof {
                assert(self@[i as int].0 == self.entries@[i as int].0@);
            }
            if chars_eq(&k, key) {
                return Some(i);
            }
            i = i + 1;
        }
        None
    }

    /// The value stored under `key`, if any.
    pub fn get(&self, key: &str) -> (r: Option<&String>)
        ensures
            match r {
                Some(v) => lookup(self@, key@) == Some(v@),
                None => lookup(self@, key@) is None,
            },
    {
        let k = chars_of(key);
        proof {
            lemma_find_key(self@, k@);
        }
        match self.position(&k) {
            Some(i) => {
                proof {
                    assert(self@[i as int].1 == self.entries@[i as int].1@);
                }
                Some(&self.entries[i].1)
            },
            None => None,
        }
    }

    /// Stores `value` under `key`, replacing any earlier value.
    pub fn insert(&mut self, key: String, value: String)
        ensures
            final(self)@ == insert_entry(old(self)@, key@, value@),
    {
        proof {
            use_type_invariant(&*self);
        }
        let k = chars_of(key.as_str());
        proof {
            lemma_insert_keeps_keys_distinct(self@, key@, value@);
        }
        let pos = self.position(&k);
        proof {
            lemma_find_key(self@, k@);
        }
        let mut entries: Vec<(String, String)> = Vec::new();
        std::mem::swap(&mut entries, &mut self.entries);
        match pos {
            Some(i) => {
                entries.set(i, (key, value));
            },
            None => {
                entries.push((key, value));
            },
        }
        proof {
            assert(pairs_view(entries@) =~= insert_entry(old(self)@, k@, value@));
        }
        self.entries = entries;
    }
}

} // verus!
