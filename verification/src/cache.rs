//! A bounded, least-recently-used cache from a namespaced object name to
//! its resolved owner chain.
//!
//! Entries are never invalidated during a capture session; when the cache
//! is full, the entry that was touched longest ago leaves.  The model is an
//! association list ordered most-recently-used first.

use vstd::prelude::*;

use crate::alist::{
    alist_lookup, alist_wf, lemma_lookup_first_match, lemma_lookup_none, lemma_lookup_remove_at,
    lemma_lookup_take, lemma_wf_insert_front, lemma_wf_remove_at,
};
use crate::objects::{clone_chain, OwnerRef, OwnerRefView};

verus! {

/// Bounded owner-chain cache, most-recently-used entry first.
pub struct OwnerCache {
    entries: Vec<(String, Vec<OwnerRef>)>,
    capacity: usize,
}

impl View for OwnerCache {
    type V = Seq<(Seq<char>, Seq<OwnerRefView>)>;

    closed spec fn view(&self) -> Seq<(Seq<char>, Seq<OwnerRefView>)> {
        self.entries@.map_values(|e: (String, Vec<OwnerRef>)| (e.0@, e.1.deep_view()))
    }
}

impl OwnerCache {
    /// Keys are distinct and the bound is respected.
    pub closed spec fn wf(&self) -> bool {
        &&& alist_wf(self@)
        &&& self@.len() <= self.capacity
        &&& self.capacity >= 1
    }

    pub closed spec fn spec_capacity(&self) -> usize {
        self.capacity
    }

    /// The chain bound to `key`, if any.
    pub open spec fn spec_get(&self, key: Seq<char>) -> Option<Seq<OwnerRefView>> {
        alist_lookup(self@, key)
    }

    pub fn new(capacity: usize) -> (r: OwnerCache)
        requires
            capacity >= 1,
        ensures
            r.wf(),
            r@ == Seq::<(Seq<char>, Seq<OwnerRefView>)>::empty(),
            r.spec_capacity() == capacity,
    {
        let r = OwnerCache { entries: Vec::new(), capacity };
        proof {
            assert(r@ =~= Seq::<(Seq<char>, Seq<OwnerRefView>)>::empty());
        }
        r
    }

    /// Look `key` up; a hit hands a copy of the cached chain back and marks
    /// the entry most recently used, which changes no binding.
    pub fn get(&mut self, key: &String) -> (r: Option<Vec<OwnerRef>>)
        requires
            old(self).wf(),
        ensures
            final(self).wf(),
            final(self).spec_capacity() == old(self).spec_capacity(),
            forall|k: Seq<char>| final(self).spec_get(k) == old(self).spec_get(k),
            match r {
                None => old(self).spec_get(key@) is None && final(self)@ == old(self)@,
                Some(c) => old(self).spec_get(key@) == Some(c.deep_view()),
            },
    {
        let ghost m = self@;
        let mut i: usize = 0;
        while i < self.entries.len()
            invariant
                old(self).wf(),
                *self == *old(self),
                m == self@,
                i <= self.entries.len(),
                forall|j: int| 0 <= j < i ==> m[j].0 != key@,
            decreases self.entries.len() - i,
        {
            if self.entries[i].0.eq(key) {
                proof {
                    lemma_lookup_first_match(m, key@, i as int);
                }
                let e = self.entries.remove(i);
                let chain = clone_chain(&e.1);
                self.entries.insert(0, e);
                proof {
                    lemma_wf_remove_at(m, i as int);
                    let mr = m.remove(i as int);
                    assert(forall|j: int| 0 <= j < mr.len() ==> #[trigger] mr[j].0 != m[i as int].0);
                    lemma_wf_insert_front(mr, m[i as int]);
                    let m2 = mr.insert(0, m[i as int]);
                    assert(self@ =~= m2);
                    assert forall|k: Seq<char>| alist_lookup(m2, k) == alist_lookup(m, k) by {
                        assert(m2.first() == m[i as int]);
                        assert(m2.drop_first() =~= mr);
                        if k != key@ {
                            lemma_lookup_remove_at(m, i as int, k);
                        }
                    }
                }
                return Some(chain);
            }
            i = i + 1;
        }
        proof {
            lemma_lookup_none(m, key@);
        }
        None
    }

    /// The position of the first entry for `key`, if one stands in the list.
    fn find_key(&self, key: &String) -> (r: Option<usize>)
        ensures
            match r {
                Some(i) => (i as int) < self@.len() && self@[i as int].0 == key@ && (forall|j: int|
                    0 <= j < i ==> self@[j].0 != key@),
                None => forall|j: int| 0 <= j < self@.len() ==> self@[j].0 != key@,
            },
    {
        let mut i: usize = 0;
        while i < self.entries.len()
            invariant
                i <= self.entries.len(),
                forall|j: int| 0 <= j < i ==> self@[j].0 != key@,
            decreases self.entries.len() - i,
        {
            if self.entries[i].0.eq(key) {
                return Some(i);
            }
            i = i + 1;
        }
        None
    }

    /// Bind `key` to `chain` and mark it most recently used; when the cache
    /// is over its bound the least recently used entry leaves.  Every other
    /// binding is kept or evicted, never changed.
    pub fn put(&mut self, key: String, chain: Vec<OwnerRef>)
        requires
            old(self).wf(),
        ensures
            final(self).wf(),
            final(self).spec_capacity() == old(self).spec_capacity(),
            final(self).spec_get(key@) == Some(chain.deep_view()),
            forall|k: Seq<char>|
                k != key@ ==> final(self).spec_get(k) == old(self).spec_get(k)
                    || final(self).spec_get(k) is None,
    {
        let ghost m0 = self@;
        let ghost kv = key@;
        let ghost cv = chain.deep_view();
        let idx = self.find_key(&key);
        let ghost m1 = match idx {
            Some(i) => m0.remove(i as int),
            None => m0,
        };
        if let Some(i) = idx {
            self.entries.remove(i);
            proof {
                assert(self@ =~= m0.remove(i as int));
                lemma_wf_remove_at(m0, i as int);
                assert forall|k: Seq<char>|
                    k != kv implies alist_lookup(m1, k) == alist_lookup(m0, k) by {
                    lemma_lookup_remove_at(m0, i as int, k);
                }
                assert(forall|j: int| 0 <= j < m1.len() ==> #[trigger] m1[j].0 != kv);
            }
        }
        self.entries.insert(0, (key, chain));
        let ghost m2 = m1.insert(0, (kv, cv));
        proof {
            assert(self@ =~= m2);
            lemma_wf_insert_front(m1, (kv, cv));
            lemma_lookup_first_match(m2, kv, 0);
            assert forall|k: Seq<char>|
                k != kv implies alist_lookup(m2, k) == alist_lookup(m1, k) by {
                assert(m2.drop_first() =~= m1);
            }
        }
        if self.entries.len() > self.capacity {
            let _ = self.entries.pop();
            proof {
                let m3 = m2.take(m2.len() - 1);
                assert(self@ =~= m3);
                assert(m3.first() == m2.first());
                lemma_lookup_first_match(m3, kv, 0);
                assert forall|k: Seq<char>|
                    k != kv implies alist_lookup(m3, k) == alist_lookup(m0, k) || alist_lookup(
                    m3,
                    k,
                ) is None by {
                    lemma_lookup_take(m2, m2.len() - 1, k);
                }
                assert(alist_wf(m3)) by {
                    assert forall|a: int, b: int|
                        0 <= a < b < m3.len() implies m3[a].0 != m3[b].0 by {
                        assert(m3[a] == m2[a]);
                        assert(m3[b] == m2[b]);
                    }
                }
            }
        }
    }
}

} // verus!
