//! A map from string keys to values, kept as a vector of entries with each
//! key once. Its view is a mathematical map from key text to value.

use vstd::prelude::*;
use crate::text::str_equal;

verus! {

/// Key texts of a sequence of entries.
pub open spec fn entry_keys<V>(e: Seq<(String, V)>) -> Seq<Seq<char>> {
    e.map_values(|p: (String, V)| p.0@)
}

/// A string-keyed map.
pub struct StrMap<V> {
    entries: Vec<(String, V)>,
}

impl<V> View for StrMap<V> {
    type V = Map<Seq<char>, V>;

    closed spec fn view(&self) -> Map<Seq<char>, V> {
        Map::new(
            |k: Seq<char>| entry_keys(self.entries@).contains(k),
            |k: Seq<char>| self.entries@[entry_keys(self.entries@).index_of(k)].1,
        )
    }
}

impl<V> StrMap<V> {
    #[verifier::type_invariant]
    spec fn keys_unique(&self) -> bool {
        entry_keys(self.entries@).no_duplicates()
    }

    /// Keys in the order they were first inserted.
    pub closed spec fn key_order(&self) -> Seq<Seq<char>> {
        entry_keys(self.entries@)
    }

    /// The map's keys are exactly the keys listed by `key_order`.
    pub proof fn lemma_key_order(&self)
        ensures
            forall|k: Seq<char>| #[trigger] self@.dom().contains(k) <==> self.key_order().contains(k),
            self@.dom().finite(),
    {
        let ks = entry_keys(self.entries@);
        assert(self@.dom() =~= ks.to_set());
    }

    /// An empty map.
    pub fn new() -> (m: Self)
        ensures
            m@ == Map::<Seq<char>, V>::empty(),
            m.key_order() == Seq::<Seq<char>>::empty(),
    {
        let m = StrMap { entries: Vec::new() };
        assert(m@ =~= Map::<Seq<char>, V>::empty());
        assert(m.key_order() =~= Seq::<Seq<char>>::empty());
        m
    }

    fn find(&self, k: &str) -> (r: Option<usize>)
        ensures
            r is None ==> !self@.dom().contains(k@),
            r matches Some(i) ==> i < self.entries@.len() && self.entries@[i as int].0@ == k@
                && self@.dom().contains(k@) && entry_keys(self.entries@).index_of(k@) == i,
    {
        proof { use_type_invariant(self); }
        let ghost ks = entry_keys(self.entries@);
        let mut i: usize = 0;
        while i < self.entries.len()
            invariant
                i <= self.entries@.len(),
                ks == entry_keys(self.entries@),
                ks.no_duplicates(),
                forall|j: int| 0 <= j < i ==> self.entries@[j].0@ != k@,
            decreases self.entries.len() - i,
        {
            if str_equal(self.entries[i].0.as_str(), k) {
                proof {
                    assert(ks[i as int] == k@);
                    let c = ks.index_of(k@);
                    assert(0 <= c < ks.len() && ks[c] == k@);
                }
                return Some(i);
            }
            i = i + 1;
        }
        proof {
            if ks.contains(k@) {
                let c = choose|c: int| 0 <= c < ks.len() && ks[c] == k@;
                assert(self.entries@[c].0@ == k@);
            }
        }
        None
    }

    /// Whether `k` is a key.
    pub fn contains_key(&self, k: &str) -> (r: bool)
        ensures
            r == self@.dom().contains(k@),
    {
        self.find(k).is_some()
    }

    /// The value at `k`, if any.
    pub fn get(&self, k: &str) -> (r: Option<&V>)
        ensures
            r is Some == self@.dom().contains(k@),
            r matches Some(v) ==> *v == self@[k@],
    {
        match self.find(k) {
            Some(i) => Some(&self.entries[i].1),
            None => None,
        }
    }

    /// Sets the value at `k`; a new key goes after the existing ones.
    pub fn insert(&mut self, k: String, v: V)
        ensures
            final(self)@ == old(self)@.insert(k@, v),
            old(self)@.dom().contains(k@) ==> final(self).key_order() == old(self).key_order(),
            !old(self)@.dom().contains(k@) ==> final(self).key_order() == old(self).key_order().push(k@),
    {
        proof { use_type_invariant(&*self); }
        let found = self.find(k.as_str());
        let ghost old_map = self@;
        let ghost old_e = self.entries@;
        let mut e: Vec<(String, V)> = Vec::new();
        std::mem::swap(&mut e, &mut self.entries);
        let ghost kv = k@;
        match found {
            Some(i) => {
                e.set(i, (k, v));
                proof {
                    let ks = entry_keys(e@);
                    assert(ks =~= entry_keys(old_e));
                }
            },
            None => {
                e.push((k, v));
                proof {
                    let ks = entry_keys(e@);
                    assert(ks =~= entry_keys(old_e).push(kv));
                }
            },
        }
        self.entries = e;
        proof {
            let ks = entry_keys(self.entries@);
            let oks = entry_keys(old_e);
            assert forall|q: Seq<char>| #[trigger] self@.dom().contains(q) <==> old_map.insert(kv, v).dom().contains(q) by {
                if q == kv {
                    match found {
                        Some(i) => { assert(ks[i as int] == kv); },
                        None => { assert(ks[oks.len() as int] == kv); },
                    }
                } else if oks.contains(q) {
                    let c = choose|c: int| 0 <= c < oks.len() && oks[c] == q;
                    assert(ks[c] == q);
                } else if ks.contains(q) {
                    let c = choose|c: int| 0 <= c < ks.len() && ks[c] == q;
                    match found {
                        Some(i) => { assert(oks[c] == q); },
                        None => { if c < oks.len() { assert(oks[c] == q); } },
                    }
                }
            }
            assert forall|q: Seq<char>| #[trigger] self@.dom().contains(q) implies self@[q] == old_map.insert(kv, v)[q] by {
                let c = ks.index_of(q);
                assert(0 <= c < ks.len() && ks[c] == q);
                if q == kv {
                    match found {
                        Some(i) => { assert(ks[i as int] == kv); assert(c == i); },
                        None => { assert(ks[oks.len() as int] == kv); assert(c == oks.len()); },
                    }
                } else {
                    let oc = oks.index_of(q);
                    assert(oks[c] == q);
                    assert(0 <= oc < oks.len() && oks[oc] == q);
                    assert(oc == c);
                }
            }
            assert(self@ =~= old_map.insert(kv, v));
        }
    }

    /// Removes `k`, returning its value if it was present.
    pub fn remove(&mut self, k: &str) -> (r: Option<V>)
        ensures
            final(self)@ == old(self)@.remove(k@),
            r is Some == old(self)@.dom().contains(k@),
            r matches Some(v) ==> v == old(self)@[k@],
            old(self)@.dom().contains(k@) ==> final(self).key_order() == old(self).key_order().remove(
                old(self).key_order().index_of(k@),
            ),
            !old(self)@.dom().contains(k@) ==> final(self).key_order() == old(self).key_order(),
    {
        proof { use_type_invariant(&*self); }
        let found = self.find(k);
        match found {
            None => {
                proof {
                    assert(self@ =~= self@.remove(k@));
                    let ks = entry_keys(self.entries@);
                }
                None
            },
            Some(i) => {
                let ghost old_map = self@;
                let ghost old_e = self.entries@;
                let mut e: Vec<(String, V)> = Vec::new();
                std::mem::swap(&mut e, &mut self.entries);
                let (_key, val) = e.remove(i);
                proof {
                    let ks = entry_keys(e@);
                    let oks = entry_keys(old_e);
                    assert(ks =~= oks.remove(i as int));
                    assert(oks.index_of(k@) == i);
                    assert(ks.no_duplicates()) by {
                        assert forall|a: int, b: int| 0 <= a < ks.len() && 0 <= b < ks.len() && a != b implies ks[a] != ks[b] by {
                            let oa = if a < i { a } else { a + 1 };
                            let ob = if b < i { b } else { b + 1 };
                            assert(ks[a] == oks[oa]);
                            assert(ks[b] == oks[ob]);
                        }
                    }
                }
                self.entries = e;
                proof {
                    let ks = entry_keys(self.entries@);
                    let oks = entry_keys(old_e);
                    assert forall|q: Seq<char>| #[trigger] self@.dom().contains(q) <==> old_map.remove(k@).dom().contains(q) by {
                        if ks.contains(q) {
                            let c = choose|c: int| 0 <= c < ks.len() && ks[c] == q;
                            let oc = if c < i { c } else { c + 1 };
                            assert(oks[oc] == q);
                            if q == k@ { assert(oks[i as int] == k@); }
                        } else if oks.contains(q) && q != k@ {
                            let c = choose|c: int| 0 <= c < oks.len() && oks[c] == q;
                            if c < i { assert(ks[c] == q); } else { assert(c != i); assert(ks[c - 1] == q); }
                        }
                    }
                    assert forall|q: Seq<char>| #[trigger] self@.dom().contains(q) implies self@[q] == old_map.remove(k@)[q] by {
                        let c = ks.index_of(q);
                        assert(0 <= c < ks.len() && ks[c] == q);
                        let oc = if c < i { c } else { c + 1 };
                        assert(oks[oc] == q);
                        let oi = oks.index_of(q);
                        assert(0 <= oi < oks.len() && oks[oi] == q);
                        assert(oi == oc);
                    }
                    assert(self@ =~= old_map.remove(k@));
                }
                Some(val)
            },
        }
    }

    /// Number of keys.
    pub fn len(&self) -> (r: usize)
        ensures
            r == self@.dom().len(),
            r == self.key_order().len(),
            self.key_order().no_duplicates(),
    {
        proof {
            use_type_invariant(self);
            let ks = entry_keys(self.entries@);
            assert(self@.dom() =~= ks.to_set());
            ks.unique_seq_to_set();
        }
        self.entries.len()
    }

    /// The key at `i` in insertion order, and its value.
    pub fn entry_at(&self, i: usize) -> (r: (&String, &V))
        requires
            i < self.key_order().len(),
        ensures
            r.0@ == self.key_order()[i as int],
            *r.1 == self@[r.0@],
    {
        proof {
            use_type_invariant(self);
            let ks = entry_keys(self.entries@);
            assert(ks[i as int] == self.entries@[i as int].0@);
            let c = ks.index_of(ks[i as int]);
            assert(0 <= c < ks.len() && ks[c] == ks[i as int]);
        }
        (&self.entries[i].0, &self.entries[i].1)
    }

    /// Moves every entry of `other` into this map; `other`'s values win on shared keys.
    pub fn extend_from(&mut self, other: StrMap<V>)
        ensures
            final(self)@ == old(self)@.union_prefer_right(other@),
    {
        proof { use_type_invariant(&other); }
        let ghost om = other@;
        let ghost oe = other.entries@;
        let ghost oks = entry_keys(oe);
        let ghost start = self@;
        let mut e = other.entries;
        while e.len() > 0
            invariant
                oks == entry_keys(oe),
                oks.no_duplicates(),
                e@ == oe.subrange(0, e@.len() as int),
                e@.len() <= oe.len(),
                om == Map::new(|k: Seq<char>| oks.contains(k), |k: Seq<char>| oe[oks.index_of(k)].1),
                forall|k: Seq<char>| #[trigger] self@.dom().contains(k) <==> (start.dom().contains(k)
                    || oks.subrange(e@.len() as int, oe.len() as int).contains(k)),
                forall|k: Seq<char>| #[trigger] self@.dom().contains(k) ==> self@[k] == if oks.subrange(
                    e@.len() as int,
                    oe.len() as int,
                ).contains(k) {
                    om[k]
                } else {
                    start[k]
                },
            decreases e.len(),
        {
            let ghost n = e@.len() as int;
            let (k, v) = e.pop().unwrap();
            proof {
                assert(e@ =~= oe.subrange(0, n - 1));
                assert(k@ == oks[n - 1]);
                assert(v == oe[n - 1].1);
                let c = oks.index_of(k@);
                assert(0 <= c < oks.len() && oks[c] == k@);
                assert(c == n - 1);
                assert(om[k@] == v);
            }
            let ghost before = self@;
            self.insert(k, v);
            proof {
                let kk = oks[n - 1];
                let sub1 = oks.subrange(n - 1, oe.len() as int);
                let sub0 = oks.subrange(n, oe.len() as int);
                assert(sub1[0] == kk);
                assert forall|q: Seq<char>| sub1.contains(q) && q != kk implies sub0.contains(q) by {
                    let c = choose|c: int| 0 <= c < sub1.len() && sub1[c] == q;
                    assert(c != 0);
                    assert(sub0[c - 1] == q);
                }
                assert forall|q: Seq<char>| sub0.contains(q) implies sub1.contains(q) by {
                    let c = choose|c: int| 0 <= c < sub0.len() && sub0[c] == q;
                    assert(sub1[c + 1] == q);
                }
                assert(sub1.contains(kk));
            }
        }
        proof {
            assert(oks.subrange(0, oe.len() as int) =~= oks);
            assert(self@ =~= start.union_prefer_right(om));
        }
    }
}

} // verus!
