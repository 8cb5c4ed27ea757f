//! A small association map with `u32` keys, kept as a vector of entries in
//! insertion order.
//!
//! The wiring context keys its deferred port lists by hyperedge value and
//! the call registry keys its port lists by function index; both need a
//! deterministic iteration order besides map lookup, so the entries stay in
//! a vector and the map view is derived from it.

use vstd::prelude::*;

verus! {

/// One key/value entry.
pub struct AEntry<V> {
    /// The key.
    pub key: u32,
    /// The value.
    pub value: V,
}

/// The map described by a sequence of entries: later entries win, though
/// the list keeps its keys distinct so the case never arises.
pub open spec fn map_of<T>(s: Seq<(u32, T)>) -> Map<u32, T>
    decreases s.len(),
{
    if s.len() == 0 {
        Map::empty()
    } else {
        map_of(s.drop_last()).insert(s.last().0, s.last().1)
    }
}

/// Membership in `map_of` is membership among the keys.
pub proof fn lemma_map_of_dom<T>(s: Seq<(u32, T)>, k: u32)
    ensures
        map_of(s).contains_key(k) <==> exists|i: int| 0 <= i < s.len() && s[i].0 == k,
    decreases s.len(),
{
    if s.len() > 0 {
        lemma_map_of_dom(s.drop_last(), k);
        if map_of(s).contains_key(k) {
            if s.last().0 != k {
                let i = choose|i: int| 0 <= i < s.drop_last().len() && s.drop_last()[i].0 == k;
                assert(s[i].0 == k);
            }
        }
        if exists|i: int| 0 <= i < s.len() && s[i].0 == k {
            let i = choose|i: int| 0 <= i < s.len() && s[i].0 == k;
            if i < s.len() - 1 {
                assert(s.drop_last()[i].0 == k);
            }
        }
    }
}

/// Whether the keys of `s` are distinct.
pub open spec fn distinct_keys<T>(s: Seq<(u32, T)>) -> bool {
    forall|i: int, j: int| 0 <= i < j < s.len() ==> s[i].0 != s[j].0
}

/// With distinct keys, `map_of` looks an entry up by its key.
pub proof fn lemma_map_of_index<T>(s: Seq<(u32, T)>, i: int)
    requires
        distinct_keys(s),
        0 <= i < s.len(),
    ensures
        map_of(s).contains_key(s[i].0),
        map_of(s)[s[i].0] == s[i].1,
    decreases s.len(),
{
    if i == s.len() - 1 {
        lemma_map_of_dom(s, s[i].0);
    } else {
        lemma_map_of_index(s.drop_last(), i);
        assert(s.drop_last()[i] == s[i]);
        assert(s.last().0 != s[i].0);
    }
}

/// An association map from `u32` keys to values, with distinct keys and a
/// deterministic entry order.
pub struct AList<V> {
    /// The entries, in insertion order.
    pub entries: Vec<AEntry<V>>,
}

impl<V: View> AList<V> {
    /// The entries as key/value-view pairs, in order.
    pub open spec fn entry_seq(self) -> Seq<(u32, V::V)> {
        self.entries@.map_values(|e: AEntry<V>| (e.key, e.value@))
    }

    /// The map described by the entries.
    pub open spec fn as_map(self) -> Map<u32, V::V> {
        map_of(self.entry_seq())
    }

    /// The keys are distinct.
    pub open spec fn wf(self) -> bool {
        distinct_keys(self.entry_seq())
    }

    /// An empty map.
    pub fn new() -> (r: Self)
        ensures
            r.wf(),
            r.entry_seq() == Seq::<(u32, V::V)>::empty(),
            r.as_map() == Map::<u32, V::V>::empty(),
    {
        let r = AList { entries: Vec::new() };
        proof {
            assert(r.entry_seq() =~= Seq::<(u32, V::V)>::empty());
        }
        r
    }

    /// The number of entries.
    pub fn len(&self) -> (r: usize)
        ensures
            r == self.entry_seq().len(),
    {
        self.entries.len()
    }

    /// The key of the entry at `i`.
    pub fn key_at(&self, i: usize) -> (r: u32)
        requires
            i < self.entry_seq().len(),
        ensures
            r == self.entry_seq()[i as int].0,
    {
        self.entries[i].key
    }

    /// The value of the entry at `i`.
    pub fn value_at(&self, i: usize) -> (r: &V)
        requires
            i < self.entry_seq().len(),
        ensures
            r@ == self.entry_seq()[i as int].1,
    {
        &self.entries[i].value
    }

    /// The position of `k` among the entries, if present.
    pub fn index_of(&self, k: u32) -> (r: Option<usize>)
        ensures
            match r {
                Some(i) => i < self.entry_seq().len() && self.entry_seq()[i as int].0 == k,
                None => forall|i: int| 0 <= i < self.entry_seq().len() ==> self.entry_seq()[i].0 != k,
            },
    {
        for i in 0..self.entries.len()
            invariant
                forall|j: int| 0 <= j < i ==> self.entry_seq()[j].0 != k,
        {
            if self.entries[i].key == k {
                return Some(i);
            }
        }
        None
    }

    /// Whether `k` is present.
    pub fn contains_key(&self, k: u32) -> (r: bool)
        ensures
            r == self.as_map().contains_key(k),
    {
        let r = self.index_of(k);
        proof {
            lemma_map_of_dom(self.entry_seq(), k);
        }
        r.is_some()
    }

    /// Look the value for `k` up.
    pub fn get(&self, k: u32) -> (r: Option<&V>)
        requires
            self.wf(),
        ensures
            match r {
                Some(v) => self.as_map().contains_key(k) && v@ == self.as_map()[k],
                None => !self.as_map().contains_key(k),
            },
    {
        proof {
            lemma_map_of_dom(self.entry_seq(), k);
        }
        match self.index_of(k) {
            Some(i) => {
                proof {
                    lemma_map_of_index(self.entry_seq(), i as int);
                }
                Some(&self.entries[i].value)
            },
            None => None,
        }
    }

    /// Add an entry for a key that is not present.
    pub fn insert_new(&mut self, k: u32, v: V)
        requires
            old(self).wf(),
            !old(self).as_map().contains_key(k),
        ensures
            (*final(self)).wf(),
            (*final(self)).entry_seq() == old(self).entry_seq().push((k, v@)),
            (*final(self)).as_map() == old(self).as_map().insert(k, v@),
    {
        proof {
            lemma_map_of_dom(self.entry_seq(), k);
        }
        let ghost pre = self.entry_seq();
        self.entries.push(AEntry { key: k, value: v });
        proof {
            assert(self.entry_seq() =~= pre.push((k, v@)));
            assert(self.entry_seq().drop_last() =~= pre);
            assert(self.as_map() == old(self).as_map().insert(k, v@));
        }
    }

    /// Remove the entry for `k`, if present, and hand its value back.
    pub fn remove(&mut self, k: u32) -> (r: Option<V>)
        requires
            old(self).wf(),
        ensures
            (*final(self)).wf(),
            (*final(self)).as_map() == old(self).as_map().remove(k),
            match r {
                Some(v) => old(self).as_map().contains_key(k) && v@ == old(self).as_map()[k],
                None => !old(self).as_map().contains_key(k) && *final(self) == *old(self),
            },
    {
        proof {
            lemma_map_of_dom(self.entry_seq(), k);
        }
        match self.index_of(k) {
            Some(i) => {
                proof {
                    lemma_map_of_index(self.entry_seq(), i as int);
                }
                let ghost pre = self.entry_seq();
                let e = self.entries.remove(i);
                proof {
                    assert(self.entry_seq() =~= pre.remove(i as int));
                    lemma_map_of_remove(pre, i as int);
                }
                Some(e.value)
            },
            None => {
                proof {
                    assert(self.as_map() =~= self.as_map().remove(k)) by {
                        lemma_map_of_dom(self.entry_seq(), k);
                    }
                }
                None
            },
        }
    }
}

/// Removing the entry at `i` removes its key from the map.
pub proof fn lemma_map_of_remove<T>(s: Seq<(u32, T)>, i: int)
    requires
        distinct_keys(s),
        0 <= i < s.len(),
    ensures
        distinct_keys(s.remove(i)),
        map_of(s.remove(i)) == map_of(s).remove(s[i].0),
    decreases s.len(),
{
    let k = s[i].0;
    if i == s.len() - 1 {
        assert(s.remove(i) =~= s.drop_last());
        lemma_map_of_dom(s.drop_last(), k);
        assert(map_of(s.drop_last()) =~= map_of(s).remove(k));
    } else {
        lemma_map_of_remove(s.drop_last(), i);
        assert(s.remove(i).drop_last() =~= s.drop_last().remove(i));
        assert(s.remove(i).last() == s.last());
        assert(map_of(s.remove(i)) == map_of(s.drop_last().remove(i)).insert(
            s.last().0,
            s.last().1,
        ));
        assert(s.last().0 != k);
        assert(map_of(s.drop_last()).remove(k).insert(s.last().0, s.last().1) =~= map_of(
            s,
        ).remove(k));
    }
}

} // verus!
