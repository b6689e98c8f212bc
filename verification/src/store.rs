//! The key/value data of the server: a finite map from keys to stored
//! values, kept as a vector of entries in which no key occurs twice.
use crate::app_state::RedisStateValue;
use vstd::prelude::*;

verus! {

/// The stored value under `k` in the first entry with that key.
pub open spec fn lookup(s: Seq<(String, RedisStateValue)>, k: Seq<char>) -> Option<(Seq<char>, Option<u128>)>
    decreases s.len(),
{
    if s.len() == 0 {
        None
    } else if s[0].0@ == k {
        Some(s[0].1@)
    } else {
        lookup(s.drop_first(), k)
    }
}

/// No key occurs in two entries.
pub open spec fn distinct_keys(s: Seq<(String, RedisStateValue)>) -> bool {
    forall|i: int, j: int| 0 <= i < j < s.len() ==> #[trigger] s[i].0@ != #[trigger] s[j].0@
}

/// With distinct keys, the entry that holds `k` gives its value, and a key
/// that no entry holds has none.
pub proof fn lemma_lookup(s: Seq<(String, RedisStateValue)>, k: Seq<char>)
    requires
        distinct_keys(s),
    ensures
        forall|i: int| 0 <= i < s.len() && #[trigger] s[i].0@ == k ==> lookup(s, k) == Some(s[i].1@),
        (forall|i: int| 0 <= i < s.len() ==> #[trigger] s[i].0@ != k) ==> lookup(s, k) is None,
    decreases s.len(),
{
    if s.len() > 0 {
        let t = s.drop_first();
        assert forall|i: int, j: int| 0 <= i < j < t.len() implies #[trigger] t[i].0@ != #[trigger] t[j].0@ by {
            assert(t[i] == s[i + 1] && t[j] == s[j + 1]);
        }
        lemma_lookup(t, k);
        assert forall|i: int| 0 <= i < s.len() && #[trigger] s[i].0@ == k implies lookup(s, k) == Some(s[i].1@) by {
            if i > 0 {
                assert(t[i - 1] == s[i]);
                assert(s[0].0@ != s[i].0@);
            }
        }
        if forall|i: int| 0 <= i < s.len() ==> #[trigger] s[i].0@ != k {
            assert forall|i: int| 0 <= i < t.len() implies #[trigger] t[i].0@ != k by {
                assert(t[i] == s[i + 1]);
            }
        }
    }
}

/// The data of the server.
pub struct RedisStore {
    entries: Vec<(String, RedisStateValue)>,
}

impl View for RedisStore {
    type V = Map<Seq<char>, (Seq<char>, Option<u128>)>;

    closed spec fn view(&self) -> Map<Seq<char>, (Seq<char>, Option<u128>)> {
        Map::new(|k: Seq<char>| lookup(self.entries@, k) is Some, |k: Seq<char>| lookup(self.entries@, k)->0)
    }
}

impl RedisStore {
    #[verifier::type_invariant]
    spec fn inv(self) -> bool {
        distinct_keys(self.entries@)
    }

    /// An empty store.
    pub fn new() -> (r: Self)
        ensures
            r@ == Map::<Seq<char>, (Seq<char>, Option<u128>)>::empty(),
    {
        let r = RedisStore { entries: Vec::new() };
        assert(r@ =~= Map::<Seq<char>, (Seq<char>, Option<u128>)>::empty());
        r
    }

    /// The index of the entry with key `key`, if there is one.
    fn find(&self, key: &String) -> (r: Option<usize>)
        ensures
            match r {
                Some(i) => i < self.entries@.len() && self.entries@[i as int].0@ == key@,
                None => forall|i: int| 0 <= i < self.entries@.len() ==> #[trigger] self.entries@[i].0@ != key@,
            },
    {
        let mut i: usize = 0;
        while i < self.entries.len()
            invariant
                0 <= i <= self.entries@.len(),
                forall|j: int| 0 <= j < i ==> #[trigger] self.entries@[j].0@ != key@,
            decreases self.entries.len() - i,
        {
            if self.entries[i].0 == *key {
                return Some(i);
            }
            i = i + 1;
        }
        None
    }

    /// The value stored under `key`.
    pub fn get(&self, key: &String) -> (r: Option<&RedisStateValue>)
        ensures
            match r {
                Some(v) => self@.contains_key(key@) && self@[key@] == v@,
                None => !self@.contains_key(key@),
            },
    {
        proof {
            use_type_invariant(self);
            lemma_lookup(self.entries@, key@);
        }
        match self.find(key) {
            Some(i) => Some(&self.entries[i].1),
            None => None,
        }
    }

    /// Stores `value` under `key`, in place of what was stored there.
    pub fn insert(&mut self, key: String, value: RedisStateValue)
        ensures
            final(self)@ == old(self)@.insert(key@, value@),
    {
        proof {
            use_type_invariant(&*self);
        }
        let ghost k = key@;
        let ghost v = value@;
        let ghost old_entries = self.entries@;
        let found = self.find(&key);
        let mut entries: Vec<(String, RedisStateValue)> = Vec::new();
        std::mem::swap(&mut entries, &mut self.entries);
        match found {
            Some(i) => {
                entries.set(i, (key, value));
            },
            None => {
                entries.push((key, value));
            },
        }
        let ghost s = entries@;
        assert(distinct_keys(s)) by {
            assert forall|a: int, b: int| 0 <= a < b < s.len() implies #[trigger] s[a].0@ != #[trigger] s[b].0@ by {
                if found is None && b == s.len() - 1 {
                    assert(s[a] == old_entries[a]);
                } else if found is Some && (a == found->0 || b == found->0) {
                    if a == found->0 {
                        assert(s[b] == old_entries[b]);
                    } else {
                        assert(s[a] == old_entries[a]);
                    }
                } else {
                    assert(s[a] == old_entries[a] && s[b] == old_entries[b]);
                }
            }
        }
        self.entries = entries;
        proof {
            assert forall|q: Seq<char>| true implies lookup(s, q) == (if q == k { Some(v) } else { lookup(old_entries, q) }) by {
                lemma_lookup(s, q);
                lemma_lookup(old_entries, q);
                if q == k {
                    if found is Some {
                        assert(s[found->0 as int].0@ == k);
                    } else {
                        assert(s[s.len() - 1].0@ == k);
                    }
                } else {
                    if exists|i: int| 0 <= i < old_entries.len() && old_entries[i].0@ == q {
                        let i = choose|i: int| 0 <= i < old_entries.len() && old_entries[i].0@ == q;
                        assert(s[i] == old_entries[i]);
                    } else {
                        assert forall|i: int| 0 <= i < s.len() implies #[trigger] s[i].0@ != q by {
                            if i < old_entries.len() && !(found is Some && i == found->0) {
                                assert(s[i] == old_entries[i]);
                            }
                        }
                    }
                }
            }
            assert(self@ =~= old(self)@.insert(k, v));
        }
    }

    /// Removes what is stored under `key`.
    pub fn remove(&mut self, key: &String)
        ensures
            final(self)@ == old(self)@.remove(key@),
    {
        proof {
            use_type_invariant(&*self);
        }
        let ghost k = key@;
        let ghost old_entries = self.entries@;
        let found = self.find(key);
        if let Some(i) = found {
            let mut entries: Vec<(String, RedisStateValue)> = Vec::new();
            std::mem::swap(&mut entries, &mut self.entries);
            let _ = entries.remove(i);
            let ghost s = entries@;
            assert(forall|j: int| 0 <= j < s.len() ==> #[trigger] s[j] == old_entries[if j < i { j } else { j + 1 }]);
            assert(distinct_keys(s)) by {
                assert forall|a: int, b: int| 0 <= a < b < s.len() implies #[trigger] s[a].0@ != #[trigger] s[b].0@ by {
                    assert(s[a] == old_entries[if a < i { a } else { a + 1 }]);
                    assert(s[b] == old_entries[if b < i { b } else { b + 1 }]);
                }
            }
            self.entries = entries;
            proof {
                assert forall|q: Seq<char>| true implies lookup(s, q) == (if q == k { None } else { lookup(old_entries, q) }) by {
                    lemma_lookup(s, q);
                    lemma_lookup(old_entries, q);
                    if q == k {
                        assert forall|j: int| 0 <= j < s.len() implies #[trigger] s[j].0@ != q by {
                            assert(s[j] == old_entries[if j < i { j } else { j + 1 }]);
                        }
                    } else {
                        if exists|j: int| 0 <= j < old_entries.len() && old_entries[j].0@ == q {
                            let j = choose|j: int| 0 <= j < old_entries.len() && old_entries[j].0@ == q;
                            assert(j != i);
                            let j2 = if j < i { j } else { j - 1 };
                            assert(s[j2] == old_entries[j]);
                        } else {
                            assert forall|j: int| 0 <= j < s.len() implies #[trigger] s[j].0@ != q by {
                                assert(s[j] == old_entries[if j < i { j } else { j + 1 }]);
                            }
                        }
                    }
                }
                assert(self@ =~= old(self)@.remove(k));
            }
        } else {
            proof {
                lemma_lookup(old_entries, k);
                assert(self@ =~= old(self)@.remove(k));
            }
        }
    }
}

} // verus!
