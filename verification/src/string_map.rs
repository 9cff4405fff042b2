//! Maps from strings to strings, each key held once.

use vstd::prelude::*;

verus! {

/// A map from strings to strings; each key occurs once.
#[derive(Debug)]
pub struct StringMap {
    entries: Vec<(String, String)>,
}

/// Whether some pair of `s` has the key `k`.
pub open spec fn has_key(s: Seq<(String, String)>, k: Seq<char>) -> bool {
    exists|i: int| 0 <= i < s.len() && #[trigger] s[i].0@ == k
}

impl StringMap {
    #[verifier::type_invariant]
    closed spec fn keys_unique(self) -> bool {
        forall|i: int, j: int|
            0 <= i < j < self.entries@.len() ==> self.entries@[i].0@ != self.entries@[j].0@
    }

    /// The entries as a map from keys to values.
    pub closed spec fn map(&self) -> Map<Seq<char>, Seq<char>> {
        Map::new(
            |k: Seq<char>| has_key(self.entries@, k),
            |k: Seq<char>|
                self.entries@[choose|i: int|
                    0 <= i < self.entries@.len() && self.entries@[i].0@ == k].1@,
        )
    }

    /// StringMap without entries.
    pub fn new() -> (m: Self)
        ensures
            m.map() == Map::<Seq<char>, Seq<char>>::empty(),
    {
        let m = StringMap { entries: Vec::new() };
        assert(m.map() =~= Map::<Seq<char>, Seq<char>>::empty());
        m
    }

    /// The entries, each key once, in the order they were first inserted.
    pub fn entries(&self) -> (e: &Vec<(String, String)>)
        ensures
            forall|i: int| 0 <= i < e@.len() ==> #[trigger] self.map().contains_key(e@[i].0@)
                && self.map()[e@[i].0@] == e@[i].1@,
            forall|k: Seq<char>| #[trigger] self.map().contains_key(k) ==> has_key(e@, k),
    {
        proof {
            use_type_invariant(self);
            assert forall|i: int| 0 <= i < self.entries@.len() implies #[trigger] self.map().contains_key(
                self.entries@[i].0@,
            ) && self.map()[self.entries@[i].0@] == self.entries@[i].1@ by {
                let k = self.entries@[i].0@;
                let j = choose|j: int| 0 <= j < self.entries@.len() && self.entries@[j].0@ == k;
                if j != i {
                    if j < i {
                        assert(self.entries@[j].0@ != self.entries@[i].0@);
                    } else {
                        assert(self.entries@[i].0@ != self.entries@[j].0@);
                    }
                }
            }
        }
        &self.entries
    }

    /// The position of `key` among the entries.
    fn position(&self, key: &str) -> (r: Option<usize>)
        ensures
            match r {
                Some(i) => i < self.entries.len() && self.entries@[i as int].0@ == key@,
                None => forall|i: int|
                    0 <= i < self.entries@.len() ==> self.entries@[i].0@ != key@,
            },
    {
        let mut i: usize = 0;
        while i < self.entries.len()
            invariant
                i <= self.entries.len(),
                forall|j: int| 0 <= j < i ==> self.entries@[j].0@ != key@,
            decreases self.entries.len() - i,
        {
            if str_eq(self.entries[i].0.as_str(), key) {
                return Some(i);
            }
            i += 1;
        }
        None
    }

    /// The value stored under `key`.
    pub fn get(&self, key: &str) -> (r: Option<&String>)
        ensures
            match r {
                Some(v) => self.map().contains_key(key@) && self.map()[key@] == v@,
                None => !self.map().contains_key(key@),
            },
    {
        proof {
            use_type_invariant(self);
        }
        match self.position(key) {
            Some(i) => {
                assert(self.map().contains_key(key@));
                let ghost j = choose|j: int|
                    0 <= j < self.entries@.len() && self.entries@[j].0@ == key@;
                assert(j == i as int);
                Some(&self.entries[i].1)
            },
            None => None,
        }
    }

    /// Stores `value` under `key`, replacing what was there.
    pub fn insert(&mut self, key: String, value: String)
        ensures
            final(self).map() == old(self).map().insert(key@, value@),
    {
        proof {
            use_type_invariant(&*self);
        }
        let ghost before = self.entries@;
        let ghost (k, v) = (key@, value@);
        let found = self.position(key.as_str());
        let mut entries: Vec<(String, String)> = Vec::new();
        std::mem::swap(&mut entries, &mut self.entries);
        match found {
            Some(i) => {
                entries.set(i, (key, value));
            },
            None => {
                entries.push((key, value));
            },
        }
        proof {
            assert forall|j: int| 0 <= j < before.len() implies #[trigger] entries@[j].0@ == before[j].0@ by {}
            let n = before.len() as int;
            assert forall|q: Seq<char>| #[trigger] has_key(entries@, q) <==> (q == k || has_key(before, q)) by {
                if has_key(before, q) {
                    let j = choose|j: int| 0 <= j < n && #[trigger] before[j].0@ == q;
                    assert(entries@[j].0@ == q);
                }
                if q == k {
                    match found {
                        Some(i) => assert(entries@[i as int].0@ == k),
                        None => assert(entries@[n].0@ == k),
                    }
                }
            }
        }
        self.entries = entries;
        proof {
            let after = self.entries@;
            let n = before.len() as int;
            assert forall|q: Seq<char>| #[trigger] self.map().contains_key(q) implies self.map()[q] == old(self).map().insert(k, v)[q] by {
                let j = choose|j: int| 0 <= j < after.len() && after[j].0@ == q;
                if q != k {
                    let j0 = choose|j: int| 0 <= j < n && before[j].0@ == q;
                    assert(after[j0].0@ == q);
                    assert(j == j0);
                } else {
                    match found {
                        Some(i) => assert(j == i),
                        None => assert(j == n),
                    }
                }
            }
            assert(self.map() =~= old(self).map().insert(k, v));
        }
    }
}

impl StringMap {
    /// Whether every entry of `self` is in `other` with the same value.
    fn entries_within(&self, other: &StringMap) -> (b: bool)
        ensures
            b == (forall|k: Seq<char>| #[trigger] self.map().contains_key(k) ==> other.map().contains_key(k)
                && other.map()[k] == self.map()[k]),
    {
        proof {
            use_type_invariant(self);
        }
        let mut i: usize = 0;
        while i < self.entries.len()
            invariant
                i <= self.entries.len(),
                self.keys_unique(),
                forall|j: int| 0 <= j < i ==> other.map().contains_key(#[trigger] self.entries@[j].0@)
                    && other.map()[self.entries@[j].0@] == self.entries@[j].1@,
            decreases self.entries.len() - i,
        {
            let (k, v) = (&self.entries[i].0, &self.entries[i].1);
            match other.get(k.as_str()) {
                Some(w) => {
                    if !str_eq(w.as_str(), v.as_str()) {
                        proof {
                            self.lemma_entry(i as int);
                        }
                        return false;
                    }
                },
                None => {
                    proof {
                        self.lemma_entry(i as int);
                    }
                    return false;
                },
            }
            i += 1;
        }
        assert forall|k: Seq<char>| #[trigger] self.map().contains_key(k) implies other.map().contains_key(k)
            && other.map()[k] == self.map()[k] by {
            let j = choose|j: int| 0 <= j < self.entries@.len() && self.entries@[j].0@ == k;
            self.lemma_entry(j);
        }
        true
    }

    /// The entry at position `i` is what the map holds for its key.
    proof fn lemma_entry(&self, i: int)
        requires
            self.keys_unique(),
            0 <= i < self.entries@.len(),
        ensures
            self.map().contains_key(self.entries@[i].0@),
            self.map()[self.entries@[i].0@] == self.entries@[i].1@,
    {
        let k = self.entries@[i].0@;
        let j = choose|j: int| 0 <= j < self.entries@.len() && self.entries@[j].0@ == k;
        assert(i == j);
    }

    /// Whether both maps hold the same entries.
    pub fn same_as(&self, other: &StringMap) -> (b: bool)
        ensures
            b == (self.map() == other.map()),
    {
        let r = self.entries_within(other) && other.entries_within(self);
        proof {
            if r {
                assert(self.map() =~= other.map());
            }
        }
        r
    }
}

impl Clone for StringMap {
    fn clone(&self) -> (c: Self)
        ensures
            c.map() == self.map(),
    {
        proof {
            use_type_invariant(self);
        }
        let mut entries: Vec<(String, String)> = Vec::new();
        let mut i: usize = 0;
        while i < self.entries.len()
            invariant
                i <= self.entries.len(),
                entries@ == self.entries@.take(i as int),
            decreases self.entries.len() - i,
        {
            let (k, v) = (&self.entries[i].0, &self.entries[i].1);
            entries.push((k.clone(), v.clone()));
            assert(entries@ =~= self.entries@.take(i + 1));
            i += 1;
        }
        assert(self.entries@.take(self.entries.len() as int) =~= self.entries@);
        StringMap { entries }
    }
}

/// Whether two strings are equal.
pub fn str_eq(a: &str, b: &str) -> (r: bool)
    ensures
        r == (a@ == b@),
{
    let x = crate::text::chars_of(a);
    let y = crate::text::chars_of(b);
    crate::text::chars_equal(&x, &y)
}


} // verus!
