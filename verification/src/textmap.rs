//! A small string-keyed map with unique keys, used for element attributes and
//! for response headers.

use vstd::prelude::*;

verus! {

/// Whether no two entries of `s` share a key.
pub open spec fn distinct_keys(s: Seq<(String, String)>) -> bool {
    forall|i: int, j: int| 0 <= i < j < s.len() ==> (#[trigger] s[i]).0@ != (#[trigger] s[j]).0@
}

/// Whether some entry of `s` has key `k`.
pub open spec fn has_key(s: Seq<(String, String)>, k: Seq<char>) -> bool {
    exists|i: int| 0 <= i < s.len() && (#[trigger] s[i]).0@ == k
}

/// The index of an entry of `s` with key `k`.
pub open spec fn index_of_key(s: Seq<(String, String)>, k: Seq<char>) -> int {
    choose|i: int| 0 <= i < s.len() && (#[trigger] s[i]).0@ == k
}

/// The mapping that a list of entries with distinct keys stands for.
pub open spec fn entries_map(s: Seq<(String, String)>) -> Map<Seq<char>, Seq<char>> {
    Map::new(|k: Seq<char>| has_key(s, k), |k: Seq<char>| s[index_of_key(s, k)].1@)
}

/// A list of entries with distinct keys has as many keys as entries.
pub proof fn lemma_entries_map_len(s: Seq<(String, String)>)
    requires
        distinct_keys(s),
    ensures
        entries_map(s).dom().finite(),
        entries_map(s).dom().len() == s.len(),
    decreases s.len(),
{
    if s.len() == 0 {
        assert(entries_map(s).dom() =~= Set::<Seq<char>>::empty());
    } else {
        let t = s.drop_last();
        let k = s.last().0@;
        lemma_entries_map_len(t);
        assert forall|x: Seq<char>| entries_map(s).dom().contains(x) <==> entries_map(t).dom().insert(
            k,
        ).contains(x) by {
            if has_key(s, x) {
                let i = index_of_key(s, x);
                if i < s.len() - 1 {
                    assert(t[i].0@ == x);
                }
            }
            if has_key(t, x) {
                let i = index_of_key(t, x);
                assert(s[i].0@ == x);
            }
            if x == k {
                assert(s[s.len() - 1].0@ == x);
            }
        }
        assert(entries_map(s).dom() =~= entries_map(t).dom().insert(k));
        if has_key(t, k) {
            let i = index_of_key(t, k);
            assert(s[i].0@ == k);
            assert(s[s.len() - 1].0@ == k);
        }
    }
}

/// A finite map from strings to strings.
#[derive(Debug)]
pub struct TextMap {
    entries: Vec<(String, String)>,
}

impl View for TextMap {
    type V = Map<Seq<char>, Seq<char>>;

    closed spec fn view(&self) -> Map<Seq<char>, Seq<char>> {
        entries_map(self.entries@)
    }
}

impl TextMap {
    #[verifier::type_invariant]
    spec fn keys_are_distinct(self) -> bool {
        distinct_keys(self.entries@)
    }

    /// The entries in storage order; `self@` is the mapping they stand for.
    pub closed spec fn pairs(&self) -> Seq<(String, String)> {
        self.entries@
    }

    /// The map without entries.
    pub fn new() -> (m: Self)
        ensures
            m@ == Map::<Seq<char>, Seq<char>>::empty(),
    {
        let m = TextMap { entries: Vec::new() };
        assert(m@ =~= Map::<Seq<char>, Seq<char>>::empty());
        m
    }

    /// The position of `key` among the entries, if it is there.
    fn position(&self, key: &String) -> (r: Option<usize>)
        ensures
            match r {
                Some(i) => i < self.entries@.len() && self.entries@[i as int].0@ == key@,
                None => !has_key(self.entries@, key@),
            },
    {
        let mut i: usize = 0;
        while i < self.entries.len()
            invariant
                i <= self.entries@.len(),
                forall|j: int| 0 <= j < i ==> (#[trigger] self.entries@[j]).0@ != key@,
            decreases self.entries@.len() - i,
        {
            if self.entries[i].0 == *key {
                return Some(i);
            }
            i = i + 1;
        }
        None
    }

    /// The value stored under `name`, if any.
    pub fn get(&self, name: &str) -> (r: Option<&String>)
        ensures
            r is Some <==> self@.contains_key(name@),
            r matches Some(v) ==> v@ == self@[name@],
    {
        proof {
            use_type_invariant(self);
        }
        let key = name.to_owned();
        match self.position(&key) {
            Some(i) => {
                assert(has_key(self.entries@, key@));
                Some(&self.entries[i].1)
            },
            None => None,
        }
    }

    /// Whether a value is stored under `name`.
    pub fn contains_key(&self, name: &str) -> (b: bool)
        ensures
            b == self@.contains_key(name@),
    {
        self.get(name).is_some()
    }

    /// Stores `value` under `key`, replacing what was stored there before.
    pub fn insert(&mut self, key: String, value: String)
        ensures
            final(self)@ == old(self)@.insert(key@, value@),
    {
        proof {
            use_type_invariant(&*self);
        }
        let found = self.position(&key);
        let ghost before = self.entries@;
        let ghost k = key@;
        let ghost v = value@;
        let mut entries: Vec<(String, String)> = Vec::new();
        std::mem::swap(&mut entries, &mut self.entries);
        match found {
            Some(i) => {
                entries.set(i, (key, value));
            },
            None => {
                entries.push((key, value));
            },
        }
        proof {
            let after = entries@;
            assert(distinct_keys(after));
            assert forall|x: Seq<char>| has_key(after, x) <==> (x == k || has_key(before, x)) by {
                if has_key(after, x) {
                    let j = index_of_key(after, x);
                    if x != k {
                        assert(before[j].0@ == x);
                    }
                }
                if has_key(before, x) {
                    let j = index_of_key(before, x);
                    assert(after[j].0@ == x);
                }
                if x == k {
                    match found {
                        Some(i) => {
                            assert(after[i as int].0@ == x);
                        },
                        None => {
                            assert(after[after.len() - 1].0@ == x);
                        },
                    }
                }
            }
            assert forall|x: Seq<char>| has_key(after, x) implies #[trigger] entries_map(after)[x]
                == entries_map(before).insert(k, v)[x] by {
                let j = index_of_key(after, x);
                if x != k {
                    assert(before[j].0@ == x);
                    let j2 = index_of_key(before, x);
                    assert(after[j2].0@ == x);
                }
            }
            assert(entries_map(after) =~= entries_map(before).insert(k, v));
        }
        self.entries = entries;
    }

    /// The number of keys.
    pub fn len(&self) -> (n: usize)
        ensures
            self@.dom().finite(),
            n == self@.dom().len(),
            n == self.pairs().len(),
    {
        proof {
            use_type_invariant(self);
            lemma_entries_map_len(self.entries@);
        }
        self.entries.len()
    }

    /// The entry at position `i` of the storage order.
    pub fn entry(&self, i: usize) -> (r: (&String, &String))
        requires
            i < self.pairs().len(),
        ensures
            r.0@ == self.pairs()[i as int].0@,
            r.1@ == self.pairs()[i as int].1@,
            self@.contains_key(r.0@),
            self@[r.0@] == r.1@,
    {
        proof {
            use_type_invariant(self);
            assert(has_key(self.entries@, self.entries@[i as int].0@));
        }
        (&self.entries[i].0, &self.entries[i].1)
    }
}

} // verus!
