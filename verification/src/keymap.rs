//! A map keyed by 32-byte keys, kept as a list of entries in which no key
//! appears twice.

use vstd::prelude::*;
use crate::bytes::{Pubkey, key_eq};

verus! {

/// No key appears twice among the entries.
pub open spec fn keys_distinct<V>(s: Seq<(Pubkey, V)>) -> bool {
    forall|i: int, j: int| 0 <= i < j < s.len() ==> #[trigger] s[i].0 != #[trigger] s[j].0
}

/// Some entry has key `k`.
pub open spec fn has_key<V>(s: Seq<(Pubkey, V)>, k: Pubkey) -> bool {
    exists|i: int| 0 <= i < s.len() && #[trigger] s[i].0 == k
}

/// The map the entries stand for.
pub open spec fn entries_map<V>(s: Seq<(Pubkey, V)>) -> Map<Pubkey, V> {
    Map::new(
        |k: Pubkey| has_key(s, k),
        |k: Pubkey| s[choose|i: int| 0 <= i < s.len() && #[trigger] s[i].0 == k].1,
    )
}

pub proof fn lemma_entries_map_at<V>(s: Seq<(Pubkey, V)>, i: int)
    requires
        keys_distinct(s),
        0 <= i < s.len(),
    ensures
        entries_map(s).dom().contains(s[i].0),
        entries_map(s)[s[i].0] == s[i].1,
{
    assert(has_key(s, s[i].0));
    let j = choose|j: int| 0 <= j < s.len() && #[trigger] s[j].0 == s[i].0;
    if j < i {
        assert(s[j].0 != s[i].0);
    } else if j > i {
        assert(s[i].0 != s[j].0);
    }
}

/// A map from keys to values.
pub struct KeyMap<V> {
    entries: Vec<(Pubkey, V)>,
}

impl<V> View for KeyMap<V> {
    type V = Map<Pubkey, V>;

    closed spec fn view(&self) -> Map<Pubkey, V> {
        entries_map(self.entries@)
    }
}

impl<V> KeyMap<V> {
    /// Each key is stored once.
    pub closed spec fn wf(&self) -> bool {
        keys_distinct(self.entries@)
    }

    /// An empty map.
    pub fn new() -> (r: Self)
        ensures
            r.wf(),
            r@ == Map::<Pubkey, V>::empty(),
    {
        let r = KeyMap { entries: Vec::new() };
        assert(r@ =~= Map::<Pubkey, V>::empty());
        r
    }

    /// The position of `k` among the entries, if present.
    fn find(&self, k: &Pubkey) -> (r: Option<usize>)
        requires
            self.wf(),
        ensures
            match r {
                Some(i) => i < self.entries@.len() && self.entries@[i as int].0 == *k,
                None => !has_key(self.entries@, *k),
            },
    {
        let mut i: usize = 0;
        while i < self.entries.len()
            invariant
                0 <= i <= self.entries@.len(),
                forall|j: int| 0 <= j < i ==> #[trigger] self.entries@[j].0 != *k,
            decreases self.entries@.len() - i,
        {
            if key_eq(&self.entries[i].0, k) {
                return Some(i);
            }
            i = i + 1;
        }
        None
    }

    /// Is `k` a key of the map?
    pub fn contains_key(&self, k: &Pubkey) -> (r: bool)
        requires
            self.wf(),
        ensures
            r == self@.dom().contains(*k),
    {
        match self.find(k) {
            Some(i) => {
                proof {
                    lemma_entries_map_at(self.entries@, i as int);
                }
                true
            },
            None => false,
        }
    }

    /// The value stored under `k`, if any.
    pub fn get(&self, k: &Pubkey) -> (r: Option<&V>)
        requires
            self.wf(),
        ensures
            match r {
                Some(v) => self@.dom().contains(*k) && *v == self@[*k],
                None => !self@.dom().contains(*k),
            },
    {
        match self.find(k) {
            Some(i) => {
                proof {
                    lemma_entries_map_at(self.entries@, i as int);
                }
                Some(&self.entries[i].1)
            },
            None => None,
        }
    }

    /// Stores `v` under `k`, replacing what was there.
    pub fn insert(&mut self, k: Pubkey, v: V)
        requires
            old(self).wf(),
        ensures
            final(self).wf(),
            final(self)@ == old(self)@.insert(k, v),
    {
        let ghost s0 = self.entries@;
        match self.find(&k) {
            Some(i) => {
                self.entries.set(i, (k, v));
                proof {
                    let s1 = self.entries@;
                    assert(keys_distinct(s1)) by {
                        assert forall|a: int, b: int| 0 <= a < b < s1.len() implies #[trigger] s1[a].0 != #[trigger] s1[b].0 by {
                            assert(s0[a].0 != s0[b].0);
                        }
                    }
                    lemma_entries_map_at(s1, i as int);
                    assert forall|q: Pubkey| q != k implies (#[trigger] has_key(s1, q) == has_key(s0, q)) by {
                        if has_key(s0, q) {
                            let j = choose|j: int| 0 <= j < s0.len() && #[trigger] s0[j].0 == q;
                            assert(s1[j].0 == q);
                        }
                        if has_key(s1, q) {
                            let j = choose|j: int| 0 <= j < s1.len() && #[trigger] s1[j].0 == q;
                            assert(s0[j].0 == q);
                        }
                    }
                    assert forall|q: Pubkey| q != k && has_key(s0, q) implies #[trigger] entries_map(s1)[q] == entries_map(s0)[q] by {
                        let j = choose|j: int| 0 <= j < s0.len() && #[trigger] s0[j].0 == q;
                        lemma_entries_map_at(s0, j);
                        lemma_entries_map_at(s1, j);
                    }
                    assert(entries_map(s1) =~= entries_map(s0).insert(k, v));
                }
            },
            None => {
                self.entries.push((k, v));
                proof {
                    let s1 = self.entries@;
                    assert(keys_distinct(s1)) by {
                        assert forall|a: int, b: int| 0 <= a < b < s1.len() implies #[trigger] s1[a].0 != #[trigger] s1[b].0 by {
                            if b == s0.len() {
                                assert(s0[a].0 != k);
                            } else {
                                assert(s0[a].0 != s0[b].0);
                            }
                        }
                    }
                    lemma_entries_map_at(s1, s0.len() as int);
                    assert forall|q: Pubkey| q != k implies (#[trigger] has_key(s1, q) == has_key(s0, q)) by {
                        if has_key(s0, q) {
                            let j = choose|j: int| 0 <= j < s0.len() && #[trigger] s0[j].0 == q;
                            assert(s1[j].0 == q);
                        }
                        if has_key(s1, q) {
                            let j = choose|j: int| 0 <= j < s1.len() && #[trigger] s1[j].0 == q;
                            assert(s0[j].0 == q);
                        }
                    }
                    assert forall|q: Pubkey| q != k && has_key(s0, q) implies #[trigger] entries_map(s1)[q] == entries_map(s0)[q] by {
                        let j = choose|j: int| 0 <= j < s0.len() && #[trigger] s0[j].0 == q;
                        lemma_entries_map_at(s0, j);
                        lemma_entries_map_at(s1, j);
                    }
                    assert(entries_map(s1) =~= entries_map(s0).insert(k, v));
                }
            },
        }
    }

    /// Removes `k`, returning the value that was stored under it.
    pub fn remove(&mut self, k: &Pubkey) -> (r: Option<V>)
        requires
            old(self).wf(),
        ensures
            final(self).wf(),
            final(self)@ == old(self)@.remove(*k),
            match r {
                Some(v) => old(self)@.dom().contains(*k) && v == old(self)@[*k],
                None => !old(self)@.dom().contains(*k),
            },
    {
        let ghost s0 = self.entries@;
        match self.find(k) {
            Some(i) => {
                proof {
                    lemma_entries_map_at(s0, i as int);
                    s0.remove_ensures(i as int);
                }
                let (_, v) = self.entries.remove(i);
                proof {
                    let s1 = self.entries@;
                    assert(keys_distinct(s1)) by {
                        assert forall|a: int, b: int| 0 <= a < b < s1.len() implies #[trigger] s1[a].0 != #[trigger] s1[b].0 by {
                            let a0 = if a < i { a } else { a + 1 };
                            let b0 = if b < i { b } else { b + 1 };
                            assert(s1[a] == s0[a0]);
                            assert(s1[b] == s0[b0]);
                            assert(s0[a0].0 != s0[b0].0);
                        }
                    }
                    assert forall|q: Pubkey| q != *k implies (#[trigger] has_key(s1, q) == has_key(s0, q)) by {
                        if has_key(s0, q) {
                            let j = choose|j: int| 0 <= j < s0.len() && #[trigger] s0[j].0 == q;
                            if j < i {
                                assert(s1[j].0 == q);
                            } else {
                                assert(j != i);
                                assert(s1[j - 1] == s0[j]);
                            }
                        }
                        if has_key(s1, q) {
                            let j = choose|j: int| 0 <= j < s1.len() && #[trigger] s1[j].0 == q;
                            if j < i {
                                assert(s0[j].0 == q);
                            } else {
                                assert(s0[j + 1].0 == q);
                            }
                        }
                    }
                    assert(!has_key(s1, *k)) by {
                        if has_key(s1, *k) {
                            let j = choose|j: int| 0 <= j < s1.len() && #[trigger] s1[j].0 == *k;
                            if j < i {
                                assert(s0[j].0 != s0[i as int].0);
                            } else {
                                assert(s1[j] == s0[j + 1]);
                                assert(s0[i as int].0 != s0[j + 1].0);
                            }
                        }
                    }
                    assert forall|q: Pubkey| q != *k && has_key(s0, q) implies #[trigger] entries_map(s1)[q] == entries_map(s0)[q] by {
                        let j = choose|j: int| 0 <= j < s0.len() && #[trigger] s0[j].0 == q;
                        lemma_entries_map_at(s0, j);
                        if j < i {
                            lemma_entries_map_at(s1, j);
                        } else {
                            assert(j != i);
                            assert(s1[j - 1] == s0[j]);
                            lemma_entries_map_at(s1, j - 1);
                        }
                    }
                    assert(entries_map(s1) =~= entries_map(s0).remove(*k));
                }
                Some(v)
            },
            None => {
                assert(entries_map(s0) =~= entries_map(s0).remove(*k));
                None
            },
        }
    }
}

} // verus!
