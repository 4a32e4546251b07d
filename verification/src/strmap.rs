//! A map from string keys to values, kept as a list of entries with distinct keys.
//!
//! Its model is a finite `Map` from character sequences to values. Entries keep the
//! order in which their keys were first inserted.
use vstd::prelude::*;
use crate::text::str_equal;

verus! {

/// A map from strings to values.
#[derive(Debug)]
pub struct StrMap<V> {
    entries: Vec<(String, V)>,
}

/// The keys of a list of entries are pairwise distinct.
pub open spec fn keys_distinct<V>(s: Seq<(String, V)>) -> bool {
    forall|i: int, j: int|
        0 <= i < s.len() && 0 <= j < s.len() && i != j ==> #[trigger] s[i].0@ != #[trigger] s[j].0@
}

/// The map that a list of entries with distinct keys stands for.
pub open spec fn entries_map<V>(s: Seq<(String, V)>) -> Map<Seq<char>, V> {
    Map::new(
        |k: Seq<char>| exists|i: int| 0 <= i < s.len() && #[trigger] s[i].0@ == k,
        |k: Seq<char>| s[choose|i: int| 0 <= i < s.len() && #[trigger] s[i].0@ == k].1,
    )
}

impl<V> View for StrMap<V> {
    type V = Map<Seq<char>, V>;

    closed spec fn view(&self) -> Map<Seq<char>, V> {
        entries_map(self.entries@)
    }
}

impl<V> StrMap<V> {
    /// Keys are distinct.
    #[verifier::type_invariant]
    spec fn wf(&self) -> bool {
        keys_distinct(self.entries@)
    }

    /// The entries in order.
    pub closed spec fn entry_seq(&self) -> Seq<(String, V)> {
        self.entries@
    }

    /// How the entries stand for the map: each entry's key maps to its value, every
    /// key of the map is some entry's key, and no two entries share a key.
    pub proof fn lemma_entries(&self)
        requires
            keys_distinct(self.entry_seq()),
        ensures
            forall|i: int|
                0 <= i < self.entry_seq().len() ==> self@.contains_key(
                    #[trigger] self.entry_seq()[i].0@,
                ) && self@[self.entry_seq()[i].0@] == self.entry_seq()[i].1,
            forall|k: Seq<char>|
                #[trigger] self@.contains_key(k) ==> exists|i: int|
                    0 <= i < self.entry_seq().len() && #[trigger] self.entry_seq()[i].0@ == k,
    {
        let s = self.entries@;
        assert forall|i: int| 0 <= i < s.len() implies self@.contains_key(#[trigger] s[i].0@)
            && self@[s[i].0@] == s[i].1 by {
            assert(self@.dom().contains(s[i].0@));
            let c = choose|j: int| 0 <= j < s.len() && #[trigger] s[j].0@ == s[i].0@;
            assert(c == i);
        }
    }

    /// An empty map.
    pub fn new() -> (m: Self)
        ensures
            m@ == Map::<Seq<char>, V>::empty(),
            m.entry_seq().len() == 0,
    {
        let m = StrMap { entries: Vec::new() };
        assert(m@ =~= Map::<Seq<char>, V>::empty());
        m
    }

    /// The number of keys.
    pub fn len(&self) -> (n: usize)
        ensures
            n == self.entry_seq().len(),
            keys_distinct(self.entry_seq()),
    {
        proof {
            use_type_invariant(self);
        }
        self.entries.len()
    }

    /// The entries, in order.
    pub fn entries(&self) -> (e: &Vec<(String, V)>)
        ensures
            e@ == self.entry_seq(),
            keys_distinct(self.entry_seq()),
    {
        proof {
            use_type_invariant(self);
        }
        &self.entries
    }

    /// Position of `key` among the entries.
    fn find(&self, key: &str) -> (r: Option<usize>)
        ensures
            match r {
                Some(i) => i < self.entries@.len() && self.entries@[i as int].0@ == key@,
                None => forall|i: int|
                    0 <= i < self.entries@.len() ==> #[trigger] self.entries@[i].0@ != key@,
            },
    {
        let mut i: usize = 0;
        while i < self.entries.len()
            invariant
                i <= self.entries@.len(),
                forall|j: int| 0 <= j < i ==> #[trigger] self.entries@[j].0@ != key@,
            decreases self.entries@.len() - i,
        {
            if str_equal(self.entries[i].0.as_str(), key) {
                return Some(i);
            }
            i = i + 1;
        }
        None
    }

    /// Whether `key` has a value.
    pub fn contains_key(&self, key: &str) -> (b: bool)
        ensures
            b == self@.contains_key(key@),
    {
        match self.find(key) {
            Some(i) => {
                assert(self@.dom().contains(key@));
                true
            },
            None => false,
        }
    }

    /// The value of `key`, if any.
    pub fn get(&self, key: &str) -> (r: Option<&V>)
        ensures
            match r {
                Some(v) => self@.contains_key(key@) && *v == self@[key@],
                None => !self@.contains_key(key@),
            },
    {
        proof {
            use_type_invariant(self);
        }
        match self.find(key) {
            Some(i) => {
                let ghost s = self.entries@;
                assert(self@.dom().contains(key@));
                let ghost c = choose|j: int| 0 <= j < s.len() && #[trigger] s[j].0@ == key@;
                assert(c == i);
                Some(&self.entries[i].1)
            },
            None => None,
        }
    }

    /// Sets the value of `key`; a key already present keeps its position.
    pub fn insert(&mut self, key: String, value: V)
        ensures
            final(self)@ == old(self)@.insert(key@, value),
            old(self)@.contains_key(key@) ==> exists|i: int|
                0 <= i < old(self).entry_seq().len() && #[trigger] old(self).entry_seq()[i].0@
                    == key@ && final(self).entry_seq() == old(self).entry_seq().update(
                    i,
                    (key, value),
                ),
            !old(self)@.contains_key(key@) ==> final(self).entry_seq() == old(
                self,
            ).entry_seq().push((key, value)),
    {
        proof {
            use_type_invariant(&*self);
        }
        let ghost s0 = self.entries@;
        let ghost k = key@;
        let ghost kv = (key, value);
        match self.find(key.as_str()) {
            Some(i) => {
                let ghost m0 = self@;
                let mut es: Vec<(String, V)> = Vec::new();
                std::mem::swap(&mut es, &mut self.entries);
                es.set(i, (key, value));
                proof {
                    assert(es@ == s0.update(i as int, (key, value)));
                    assert(keys_distinct(es@));
                }
                self.entries = es;
                let ghost s1 = self.entries@;
                proof {
                    assert(s1 == s0.update(i as int, kv));
                    assert(s0[i as int].0@ == k);
                    assert(old(self).entry_seq()[i as int].0@ == k && self.entry_seq() == old(
                        self,
                    ).entry_seq().update(i as int, kv));
                    assert(keys_distinct(s1));
                    assert forall|q: Seq<char>| #[trigger] self@.dom().contains(q) <==> m0.insert(
                        k,
                        value,
                    ).dom().contains(q) by {
                        if q == k {
                            assert(s1[i as int].0@ == q);
                        } else if m0.dom().contains(q) {
                            let j = choose|j: int| 0 <= j < s0.len() && #[trigger] s0[j].0@ == q;
                            assert(s1[j].0@ == q);
                        }
                    }
                    assert forall|q: Seq<char>| #[trigger] self@.dom().contains(q) implies self@[q]
                        == m0.insert(k, value)[q] by {
                        let j1 = choose|j: int| 0 <= j < s1.len() && #[trigger] s1[j].0@ == q;
                        if q != k {
                            let j0 = choose|j: int| 0 <= j < s0.len() && #[trigger] s0[j].0@ == q;
                            assert(s1[j0].0@ == q);
                        }
                    }
                    assert(self@ =~= m0.insert(k, value));
                }
            },
            None => {
                let ghost m0 = self@;
                let mut es: Vec<(String, V)> = Vec::new();
                std::mem::swap(&mut es, &mut self.entries);
                es.push((key, value));
                proof {
                    assert(es@ == s0.push((key, value)));
                    assert(keys_distinct(es@));
                }
                self.entries = es;
                let ghost s1 = self.entries@;
                proof {
                    assert(s1 == s0.push((key, value)));
                    assert(keys_distinct(s1));
                    assert forall|q: Seq<char>| #[trigger] self@.dom().contains(q) <==> m0.insert(
                        k,
                        value,
                    ).dom().contains(q) by {
                        if q == k {
                            assert(s1[s0.len() as int].0@ == q);
                        } else if m0.dom().contains(q) {
                            let j = choose|j: int| 0 <= j < s0.len() && #[trigger] s0[j].0@ == q;
                            assert(s1[j].0@ == q);
                        }
                    }
                    assert forall|q: Seq<char>| #[trigger] self@.dom().contains(q) implies self@[q]
                        == m0.insert(k, value)[q] by {
                        let j1 = choose|j: int| 0 <= j < s1.len() && #[trigger] s1[j].0@ == q;
                        if q != k {
                            let j0 = choose|j: int| 0 <= j < s0.len() && #[trigger] s0[j].0@ == q;
                            assert(s1[j0].0@ == q);
                        }
                    }
                    assert(self@ =~= m0.insert(k, value));
                }
            },
        }
    }
}

impl<V> StrMap<V> {
    /// Sets every key of `other` to its value there.
    pub fn extend(&mut self, other: StrMap<V>)
        ensures
            final(self)@ == old(self)@.union_prefer_right(other@),
    {
        proof {
            use_type_invariant(&other);
            other.lemma_entries();
        }
        let ghost om = other@;
        let ghost o = other.entries@;
        let ghost m0 = self@;
        let mut rest = other.entries;
        assert(rest@ == o.take(o.len() as int));
        while rest.len() > 0
            invariant
                rest@ == o.take(rest@.len() as int),
                rest@.len() <= o.len(),
                keys_distinct(o),
                forall|j: int|
                    0 <= j < o.len() ==> om.contains_key(#[trigger] o[j].0@) && om[o[j].0@] == o[j].1,
                forall|k: Seq<char>|
                    #[trigger] om.contains_key(k) ==> exists|j: int| 0 <= j < o.len() && #[trigger] o[j].0@ == k,
                forall|k: Seq<char>|
                    #[trigger] self@.contains_key(k) <==> (m0.contains_key(k) || exists|j: int|
                        rest@.len() <= j < o.len() && #[trigger] o[j].0@ == k),
                forall|j: int| rest@.len() <= j < o.len() ==> self@[#[trigger] o[j].0@] == o[j].1,
                forall|k: Seq<char>|
                    #[trigger] m0.contains_key(k) && !(exists|j: int|
                        rest@.len() <= j < o.len() && #[trigger] o[j].0@ == k) ==> self@[k] == m0[k],
            decreases rest@.len(),
        {
            let ghost p = rest@.len() - 1;
            let ghost before = self@;
            assert(rest@[p] == o[p]);
            let (k, v) = rest.pop().unwrap();
            assert(rest@ =~= o.take(p));
            self.insert(k, v);
            proof {
                let kp = o[p].0@;
                assert forall|q: Seq<char>| #[trigger] self@.contains_key(q) <==> (m0.contains_key(q)
                    || exists|j: int| p <= j < o.len() && #[trigger] o[j].0@ == q) by {
                    if q != kp {
                        if exists|j: int| p <= j < o.len() && #[trigger] o[j].0@ == q {
                            let j = choose|j: int| p <= j < o.len() && #[trigger] o[j].0@ == q;
                            assert(j != p);
                        }
                    }
                }
                assert forall|j: int| p <= j < o.len() implies self@[#[trigger] o[j].0@] == o[j].1 by {
                    if j != p {
                        assert(o[j].0@ != kp);
                    }
                }
                assert forall|q: Seq<char>| #[trigger] m0.contains_key(q) && !(exists|j: int|
                    p <= j < o.len() && #[trigger] o[j].0@ == q) implies self@[q] == m0[q] by {
                    assert(q != kp);
                    if exists|j: int| p + 1 <= j < o.len() && #[trigger] o[j].0@ == q {
                        let j = choose|j: int| p + 1 <= j < o.len() && #[trigger] o[j].0@ == q;
                        assert(p <= j < o.len() && o[j].0@ == q);
                    }
                }
            }
        }
        proof {
            let target = m0.union_prefer_right(om);
            assert forall|q: Seq<char>| #[trigger] self@.contains_key(q) <==> target.contains_key(q) by {
                if om.contains_key(q) {
                    let j = choose|j: int| 0 <= j < o.len() && #[trigger] o[j].0@ == q;
                }
                if exists|j: int| 0 <= j < o.len() && #[trigger] o[j].0@ == q {
                    let j = choose|j: int| 0 <= j < o.len() && #[trigger] o[j].0@ == q;
                    assert(om.contains_key(o[j].0@));
                }
            }
            assert forall|q: Seq<char>| #[trigger] self@.contains_key(q) implies self@[q] == target[q] by {
                if om.contains_key(q) {
                    let j = choose|j: int| 0 <= j < o.len() && #[trigger] o[j].0@ == q;
                    assert(self@[o[j].0@] == o[j].1);
                } else {
                    if exists|j: int| 0 <= j < o.len() && #[trigger] o[j].0@ == q {
                        let j = choose|j: int| 0 <= j < o.len() && #[trigger] o[j].0@ == q;
                        assert(om.contains_key(o[j].0@));
                    }
                }
            }
            assert(self@ =~= target);
        }
    }
}

impl<V> StrMap<V> {
    /// A key that both maps have, the first in this map's order; none where their
    /// keys are disjoint.
    pub fn common_key<W>(&self, other: &StrMap<W>) -> (r: Option<&String>)
        ensures
            match r {
                Some(k) => self@.contains_key(k@) && other@.contains_key(k@),
                None => self@.dom().disjoint(other@.dom()),
            },
    {
        proof {
            use_type_invariant(self);
            self.lemma_entries();
        }
        let mut i: usize = 0;
        while i < self.entries.len()
            invariant
                i <= self.entries@.len(),
                keys_distinct(self.entries@),
                forall|j: int|
                    0 <= j < self.entries@.len() ==> self@.contains_key(
                        #[trigger] self.entries@[j].0@,
                    ),
                forall|k: Seq<char>|
                    #[trigger] self@.contains_key(k) ==> exists|j: int|
                        0 <= j < self.entries@.len() && #[trigger] self.entries@[j].0@ == k,
                forall|j: int| 0 <= j < i ==> !other@.contains_key(#[trigger] self.entries@[j].0@),
            decreases self.entries@.len() - i,
        {
            if other.contains_key(self.entries[i].0.as_str()) {
                return Some(&self.entries[i].0);
            }
            i = i + 1;
        }
        assert forall|k: Seq<char>| #[trigger] self@.contains_key(k) implies !other@.contains_key(k) by {
            let j = choose|j: int| 0 <= j < self.entries@.len() && #[trigger] self.entries@[j].0@ == k;
        }
        assert(self@.dom().disjoint(other@.dom()));
        None
    }
}

impl<V: Clone> Clone for StrMap<V> {
    /// A map with the same keys, in the same order, and clones of the values.
    fn clone(&self) -> (r: Self)
        ensures
            r@.dom() == self@.dom(),
    {
        proof {
            use_type_invariant(self);
        }
        let mut es: Vec<(String, V)> = Vec::new();
        let mut i: usize = 0;
        while i < self.entries.len()
            invariant
                i <= self.entries@.len(),
                keys_distinct(self.entries@),
                es@.len() == i,
                forall|j: int| 0 <= j < i ==> #[trigger] es@[j].0@ == self.entries@[j].0@,
            decreases self.entries@.len() - i,
        {
            let k = self.entries[i].0.clone();
            let v = self.entries[i].1.clone();
            es.push((k, v));
            i = i + 1;
        }
        assert(keys_distinct(es@)) by {
            assert forall|a: int, b: int|
                0 <= a < es@.len() && 0 <= b < es@.len() && a != b implies #[trigger] es@[a].0@
                != #[trigger] es@[b].0@ by {
                assert(es@[a].0@ == self.entries@[a].0@);
                assert(es@[b].0@ == self.entries@[b].0@);
            }
        }
        let r = StrMap { entries: es };
        proof {
            assert forall|q: Seq<char>| r@.dom().contains(q) <==> self@.dom().contains(q) by {
                if r@.dom().contains(q) {
                    let j = choose|j: int| 0 <= j < es@.len() && #[trigger] es@[j].0@ == q;
                    assert(self.entries@[j].0@ == q);
                }
                if self@.dom().contains(q) {
                    let j = choose|j: int| 0 <= j < self.entries@.len() && #[trigger] self.entries@[j].0@ == q;
                    assert(es@[j].0@ == q);
                }
            }
            assert(r@.dom() =~= self@.dom());
        }
        r
    }
}

} // verus!
