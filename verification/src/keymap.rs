//! Association map from 64-bit identifiers to owned values.
//!
//! The renderer keys everything — registry objects, mesh layout cache
//! entries, transform and material slots — by opaque integer
//! identifiers.  This small verified map stores the entries in a vector
//! with pairwise-distinct keys and is viewed as a mathematical `Map`.

use vstd::prelude::*;

verus! {

pub struct KeyMap<V> {
    entries: Vec<(u64, V)>,
}

/// No key occurs twice in the entry list.
pub open spec fn distinct_keys<V>(s: Seq<(u64, V)>) -> bool {
    forall|i: int, j: int| 0 <= i < j < s.len() ==> s[i].0 != s[j].0
}

/// The mathematical map an entry list denotes; later entries win.
pub open spec fn map_of<V>(s: Seq<(u64, V)>) -> Map<u64, V>
    decreases s.len(),
{
    if s.len() == 0 {
        Map::empty()
    } else {
        map_of(s.drop_last()).insert(s.last().0, s.last().1)
    }
}

pub proof fn lemma_map_of_contains<V>(s: Seq<(u64, V)>, k: u64)
    ensures
        map_of(s).dom().contains(k) <==> exists|i: int| 0 <= i < s.len() && s[i].0 == k,
    decreases s.len(),
{
    if s.len() > 0 {
        lemma_map_of_contains(s.drop_last(), k);
        if s.last().0 == k {
            assert(s[s.len() - 1].0 == k);
        } else if map_of(s).dom().contains(k) {
            let i = choose|i: int| 0 <= i < s.drop_last().len() && s.drop_last()[i].0 == k;
            assert(s[i].0 == k);
        } else {
            assert forall|i: int| 0 <= i < s.len() implies s[i].0 != k by {
                if i < s.len() - 1 {
                    assert(s.drop_last()[i].0 == s[i].0);
                }
            }
        }
    }
}

pub proof fn lemma_map_of_index<V>(s: Seq<(u64, V)>, i: int)
    requires
        distinct_keys(s),
        0 <= i < s.len(),
    ensures
        map_of(s).dom().contains(s[i].0),
        map_of(s)[s[i].0] == s[i].1,
    decreases s.len(),
{
    if i == s.len() - 1 {
        assert(s.last() == s[i]);
    } else {
        assert(s.drop_last()[i] == s[i]);
        assert(distinct_keys(s.drop_last())) by {
            assert forall|p: int, q: int|
                0 <= p < q < s.drop_last().len() implies s.drop_last()[p].0 != s.drop_last()[q].0
            by {
                assert(s.drop_last()[p] == s[p] && s.drop_last()[q] == s[q]);
            }
        }
        lemma_map_of_index(s.drop_last(), i);
        assert(s.last().0 == s[s.len() - 1].0);
        assert(s[i].0 != s[s.len() - 1].0);
    }
}

pub proof fn lemma_distinct_drop_last<V>(s: Seq<(u64, V)>)
    requires
        distinct_keys(s),
        s.len() > 0,
    ensures
        distinct_keys(s.drop_last()),
{
    assert forall|p: int, q: int|
        0 <= p < q < s.drop_last().len() implies s.drop_last()[p].0 != s.drop_last()[q].0 by {
        assert(s.drop_last()[p] == s[p] && s.drop_last()[q] == s[q]);
    }
}

pub proof fn lemma_map_of_len<V>(s: Seq<(u64, V)>)
    requires
        distinct_keys(s),
    ensures
        map_of(s).dom().finite(),
        map_of(s).dom().len() == s.len(),
    decreases s.len(),
{
    if s.len() > 0 {
        lemma_distinct_drop_last(s);
        lemma_map_of_len(s.drop_last());
        lemma_map_of_contains(s.drop_last(), s.last().0);
        assert forall|i: int| 0 <= i < s.drop_last().len() implies s.drop_last()[i].0 != s.last().0
        by {
            assert(s.drop_last()[i] == s[i]);
            assert(s.last() == s[s.len() - 1]);
        }
        assert(!map_of(s.drop_last()).dom().contains(s.last().0));
        assert(map_of(s).dom() =~= map_of(s.drop_last()).dom().insert(s.last().0));
    }
}

/// Replacing the value stored at position `i` updates the map at that
/// entry's key and nothing else.
pub proof fn lemma_map_of_update<V>(s: Seq<(u64, V)>, i: int, v: V)
    requires
        distinct_keys(s),
        0 <= i < s.len(),
    ensures
        map_of(s.update(i, (s[i].0, v))) == map_of(s).insert(s[i].0, v),
        distinct_keys(s.update(i, (s[i].0, v))),
    decreases s.len(),
{
    let t = s.update(i, (s[i].0, v));
    assert forall|p: int, q: int| 0 <= p < q < t.len() implies t[p].0 != t[q].0 by {
        assert(t[p].0 == s[p].0 && t[q].0 == s[q].0);
    }
    if i == s.len() - 1 {
        assert(t.drop_last() =~= s.drop_last());
        assert(t.last() == (s[i].0, v));
        assert(map_of(t) == map_of(s.drop_last()).insert(s[i].0, v));
        assert(map_of(s.drop_last()).insert(s[i].0, s[i].1).insert(s[i].0, v) =~= map_of(
            s.drop_last(),
        ).insert(s[i].0, v));
        assert(s.last() == s[i]);
    } else {
        lemma_distinct_drop_last(s);
        assert(t.drop_last() =~= s.drop_last().update(i, (s[i].0, v)));
        assert(s.drop_last()[i] == s[i]);
        lemma_map_of_update(s.drop_last(), i, v);
        assert(t.last() == s.last());
        assert(s[i].0 != s.last().0) by {
            assert(s.last() == s[s.len() - 1]);
        }
        assert(map_of(s.drop_last()).insert(s[i].0, v).insert(s.last().0, s.last().1) =~= map_of(
            s.drop_last(),
        ).insert(s.last().0, s.last().1).insert(s[i].0, v));
    }
}

impl<V> View for KeyMap<V> {
    type V = Map<u64, V>;

    closed spec fn view(&self) -> Map<u64, V> {
        map_of(self.entries@)
    }
}

impl<V> KeyMap<V> {
    /// Keys in the backing vector are pairwise distinct.
    pub closed spec fn wf(&self) -> bool {
        distinct_keys(self.entries@)
    }

    /// Number of stored entries.
    pub closed spec fn spec_len(&self) -> nat {
        self.entries@.len()
    }

    pub proof fn lemma_len(&self)
        requires
            self.wf(),
        ensures
            self@.dom().finite(),
            self@.dom().len() == self.spec_len(),
    {
        lemma_map_of_len(self.entries@);
    }

    pub fn new() -> (r: Self)
        ensures
            r.wf(),
            r@ == Map::<u64, V>::empty(),
            r.spec_len() == 0,
    {
        KeyMap { entries: Vec::new() }
    }

    pub fn len(&self) -> (r: usize)
        ensures
            r == self.spec_len(),
    {
        self.entries.len()
    }

    fn find(&self, key: u64) -> (r: Option<usize>)
        requires
            self.wf(),
        ensures
            match r {
                Some(i) => i < self.entries@.len() && self.entries@[i as int].0 == key,
                None => !self@.dom().contains(key),
            },
    {
        let mut i: usize = 0;
        while i < self.entries.len()
            invariant
                i <= self.entries@.len(),
                forall|j: int| 0 <= j < i ==> self.entries@[j].0 != key,
            decreases self.entries@.len() - i,
        {
            if self.entries[i].0 == key {
                return Some(i);
            }
            i = i + 1;
        }
        proof {
            lemma_map_of_contains(self.entries@, key);
        }
        None
    }

    pub fn contains_key(&self, key: u64) -> (r: bool)
        requires
            self.wf(),
        ensures
            r == self@.dom().contains(key),
    {
        let r = self.find(key);
        proof {
            if r is Some {
                lemma_map_of_index(self.entries@, r.unwrap() as int);
            }
        }
        r.is_some()
    }

    pub fn get(&self, key: u64) -> (r: Option<&V>)
        requires
            self.wf(),
        ensures
            match r {
                Some(v) => self@.dom().contains(key) && *v == self@[key],
                None => !self@.dom().contains(key),
            },
    {
        match self.find(key) {
            Some(i) => {
                proof {
                    lemma_map_of_index(self.entries@, i as int);
                }
                Some(&self.entries[i].1)
            },
            None => None,
        }
    }

    /// Mutable access to the value stored under `key`, if any.
    pub fn get_mut(&mut self, key: u64) -> (r: Option<&mut V>)
        requires
            old(self).wf(),
        ensures
            match r {
                Some(v) => old(self)@.dom().contains(key) && *v == old(self)@[key]
                    && final(self).wf() && final(self)@ == old(self)@.insert(key, *final(v))
                    && final(self).spec_len() == old(self).spec_len(),
                None => !old(self)@.dom().contains(key) && *final(self) == *old(self),
            },
    {
        match self.find(key) {
            Some(i) => {
                proof {
                    lemma_map_of_index(self.entries@, i as int);
                    assert forall|v: V|
                        map_of(#[trigger] old(self).entries@.update(i as int, (key, v))) == map_of(
                            old(self).entries@,
                        ).insert(key, v) && distinct_keys(
                            old(self).entries@.update(i as int, (key, v)),
                        ) by {
                        lemma_map_of_update(old(self).entries@, i as int, v);
                    }
                }
                let entry = &mut self.entries[i];
                Some(&mut entry.1)
            },
            None => None,
        }
    }

    /// Inserts or overwrites the value stored under `key`.
    pub fn insert(&mut self, key: u64, value: V)
        requires
            old(self).wf(),
        ensures
            final(self).wf(),
            final(self)@ == old(self)@.insert(key, value),
            final(self).spec_len() == if old(self)@.dom().contains(key) {
                old(self).spec_len()
            } else {
                old(self).spec_len() + 1
            },
    {
        proof {
            lemma_map_of_contains(self.entries@, key);
        }
        match self.find(key) {
            Some(i) => {
                proof {
                    lemma_map_of_index(self.entries@, i as int);
                    lemma_map_of_update(self.entries@, i as int, value);
                }
                self.entries[i] = (key, value);
            },
            None => {
                let ghost prev = self.entries@;
                self.entries.push((key, value));
                proof {
                    assert(self.entries@.drop_last() =~= prev);
                    assert(self.entries@.last() == (key, value));
                    assert forall|p: int, q: int|
                        0 <= p < q < self.entries@.len() implies self.entries@[p].0
                        != self.entries@[q].0 by {
                        if q < self.entries@.len() - 1 {
                            assert(self.entries@[p] == prev[p] && self.entries@[q] == prev[q]);
                        } else {
                            assert(self.entries@[p] == prev[p]);
                            assert(!map_of(prev).dom().contains(key));
                            lemma_map_of_contains(prev, key);
                        }
                    }
                }
            },
        }
    }
}

impl<V: Copy> KeyMap<V> {
    /// A fresh map holding the same entries.
    pub fn duplicate(&self) -> (r: Self)
        ensures
            r@ == self@,
            r.wf() == self.wf(),
            r.spec_len() == self.spec_len(),
    {
        let mut entries: Vec<(u64, V)> = Vec::new();
        let mut i: usize = 0;
        while i < self.entries.len()
            invariant
                i <= self.entries@.len(),
                entries@ == self.entries@.take(i as int),
            decreases self.entries@.len() - i,
        {
            let e = self.entries[i];
            entries.push(e);
            proof {
                assert(entries@ =~= self.entries@.take(i + 1));
            }
            i = i + 1;
        }
        assert(entries@ =~= self.entries@);
        KeyMap { entries }
    }
}

} // verus!
