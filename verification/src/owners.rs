//! Incremental owner-chain resolution with memoization.
//!
//! Resolving an object's ancestor chain may require fetching owner objects
//! from the cluster, which this library cannot do itself.  The resolver is
//! therefore a state machine: [`ChainResolver::start`] answers from the
//! cache (a hit never asks for anything), answers the no-owner case with
//! the empty chain, or asks the caller to fetch the first owner reference;
//! each [`ChainResolver::step`] consumes the fetched owner's name and owner
//! references and either asks for the next ancestor or finishes.  On
//! finishing, every object along the walk has its chain cached, the
//! original object's binding last (so it is the freshest entry), and the
//! full chain is returned.
//!
//! Ancestors are resolved in the original object's namespace, and only the
//! first owner reference of each object is followed: multiple owners are
//! not disambiguated, even where a later reference is the controlling one.

use vstd::prelude::*;

use crate::alist::alist_lookup;
use crate::cache::OwnerCache;
use crate::objects::{clone_chain, namespaced_name_of, ns_name_of, OwnerRef, OwnerRefView};

verus! {

/// What the caller must fetch next: one owner object, by API version,
/// kind, namespace and name.
pub struct OwnerQuery {
    pub api_version: String,
    pub kind: String,
    pub namespace: String,
    pub name: String,
}

/// `q` asks for the object `r` points at, in namespace `ns`.
pub open spec fn query_for(q: &OwnerQuery, r: OwnerRefView, ns: Seq<char>) -> bool {
    &&& q.api_version@ == r.api_version
    &&& q.kind@ == r.kind
    &&& q.namespace@ == ns
    &&& q.name@ == r.name
}

/// One turn of the resolver: either the full chain, or the next owner
/// object to fetch.
pub enum ResolveProgress {
    Resolved(Vec<OwnerRef>),
    Fetch(OwnerQuery),
}

/// The chain that a walk whose collected links are `refs` resolves to for
/// the object at depth `i`, once the walk ends in the chain `tail`.
pub open spec fn resolved_chain(
    refs: Seq<OwnerRefView>,
    i: int,
    tail: Seq<OwnerRefView>,
) -> Seq<OwnerRefView> {
    refs.skip(i) + tail
}

/// Law: resolution composes across ancestor levels — an object's chain is
/// its first owner reference followed by that owner's own chain.
pub proof fn lemma_chain_composes(refs: Seq<OwnerRefView>, i: int, tail: Seq<OwnerRefView>)
    requires
        0 <= i < refs.len(),
    ensures
        resolved_chain(refs, i, tail) == seq![refs[i]] + resolved_chain(refs, i + 1, tail),
{
    assert(refs.skip(i) + tail =~= seq![refs[i]] + (refs.skip(i + 1) + tail));
}

/// An in-flight resolution: the objects awaiting their chains, outermost
/// first, and the owner reference each contributed.
pub struct ChainResolver {
    namespace: String,
    names: Vec<String>,
    refs: Vec<OwnerRef>,
}

impl ChainResolver {
    /// The namespace the walk stays in.
    pub closed spec fn spec_namespace(&self) -> Seq<char> {
        self.namespace@
    }

    /// The namespaced names awaiting their chains, outermost first.
    pub closed spec fn spec_names(&self) -> Seq<Seq<char>> {
        self.names.deep_view()
    }

    /// The collected links: `spec_refs()[i]` is the first owner reference
    /// of the object named `spec_names()[i]`.
    pub closed spec fn spec_refs(&self) -> Seq<OwnerRefView> {
        self.refs.deep_view()
    }

    pub open spec fn wf(&self) -> bool {
        self.spec_names().len() == self.spec_refs().len()
    }

    /// A walk is in progress: at least one object awaits its chain.
    pub open spec fn in_progress(&self) -> bool {
        self.spec_names().len() > 0
    }

    /// Begin resolving the chain of the object `namespace/name` whose own
    /// owner references are `owner_refs`.  A cache hit answers at once,
    /// changes no binding, and asks for nothing; an object without owners
    /// resolves to the empty chain, which is cached; otherwise the caller
    /// must fetch the first owner.
    pub fn start(
        cache: &mut OwnerCache,
        namespace: &String,
        name: &String,
        owner_refs: &Vec<OwnerRef>,
    ) -> (r: (ChainResolver, ResolveProgress))
        requires
            old(cache).wf(),
        ensures
            final(cache).wf(),
            final(cache).spec_capacity() == old(cache).spec_capacity(),
            r.0.wf(),
            ({
                let key = ns_name_of(namespace@, name@);
                match old(cache).spec_get(key) {
                    Some(c) => {
                        &&& r.1 matches ResolveProgress::Resolved(ch) && ch.deep_view() == c
                        &&& forall|k: Seq<char>|
                            final(cache).spec_get(k) == old(cache).spec_get(k)
                        &&& !r.0.in_progress()
                    },
                    None => if owner_refs.len() == 0 {
                        &&& r.1 matches ResolveProgress::Resolved(ch) && ch.deep_view()
                            == Seq::<OwnerRefView>::empty()
                        &&& final(cache).spec_get(key) == Some(Seq::<OwnerRefView>::empty())
                        &&& forall|k: Seq<char>|
                            k != key ==> final(cache).spec_get(k) == old(cache).spec_get(k)
                                || final(cache).spec_get(k) is None
                        &&& !r.0.in_progress()
                    } else {
                        &&& r.1 matches ResolveProgress::Fetch(q) && query_for(
                            &q,
                            owner_refs.deep_view()[0],
                            namespace@,
                        )
                        &&& forall|k: Seq<char>|
                            final(cache).spec_get(k) == old(cache).spec_get(k)
                        &&& r.0.in_progress()
                        &&& r.0.spec_names() == seq![key]
                        &&& r.0.spec_refs() == seq![owner_refs.deep_view()[0]]
                        &&& r.0.spec_namespace() == namespace@
                    },
                }
            }),
    {
        let key = namespaced_name_of(namespace, name);
        let idle = ChainResolver {
            namespace: namespace.clone(),
            names: Vec::new(),
            refs: Vec::new(),
        };
        proof {
            assert(idle.spec_names() =~= Seq::<Seq<char>>::empty());
            assert(idle.spec_refs() =~= Seq::<OwnerRefView>::empty());
        }
        match cache.get(&key) {
            Some(c) => (idle, ResolveProgress::Resolved(c)),
            None => {
                if owner_refs.len() == 0 {
                    let empty: Vec<OwnerRef> = Vec::new();
                    proof {
                        assert(empty.deep_view() =~= Seq::<OwnerRefView>::empty());
                    }
                    cache.put(key, clone_chain(&empty));
                    (idle, ResolveProgress::Resolved(empty))
                } else {
                    let first = owner_refs[0].clone();
                    let q = OwnerQuery {
                        api_version: first.api_version.clone(),
                        kind: first.kind.clone(),
                        namespace: namespace.clone(),
                        name: first.name.clone(),
                    };
                    let mut names: Vec<String> = Vec::new();
                    names.push(key);
                    let mut refs: Vec<OwnerRef> = Vec::new();
                    refs.push(first);
                    let st = ChainResolver { namespace: namespace.clone(), names, refs };
                    proof {
                        assert(st.spec_names() =~= seq![ns_name_of(namespace@, name@)]);
                        assert(st.spec_refs() =~= seq![owner_refs.deep_view()[0]]);
                    }
                    (st, ResolveProgress::Fetch(q))
                }
            },
        }
    }

    /// Consume the owner object the last `Fetch` asked for: its plain name
    /// and its own owner references.  A cached chain or an owner without
    /// owners ends the walk; otherwise the caller must fetch the next
    /// ancestor.  On finishing, each walked object's chain is cached (the
    /// original object's binding freshest and guaranteed present) and the
    /// original object's full chain is returned.
    pub fn step(
        &mut self,
        cache: &mut OwnerCache,
        name: &String,
        owner_refs: &Vec<OwnerRef>,
    ) -> (r: ResolveProgress)
        requires
            old(self).wf(),
            old(self).in_progress(),
            old(cache).wf(),
        ensures
            final(self).wf(),
            final(cache).wf(),
            final(cache).spec_capacity() == old(cache).spec_capacity(),
            final(self).spec_namespace() == old(self).spec_namespace(),
            ({
                let fkey = ns_name_of(old(self).spec_namespace(), name@);
                let tail = match old(cache).spec_get(fkey) {
                    Some(c) => Some(c),
                    None => if owner_refs.len() == 0 {
                        Some(Seq::<OwnerRefView>::empty())
                    } else {
                        None::<Seq<OwnerRefView>>
                    },
                };
                match tail {
                    Some(t) => {
                        &&& r matches ResolveProgress::Resolved(ch) && ch.deep_view()
                            == resolved_chain(old(self).spec_refs(), 0, t)
                        &&& final(cache).spec_get(old(self).spec_names()[0]) == Some(
                            resolved_chain(old(self).spec_refs(), 0, t),
                        )
                        &&& !final(self).in_progress()
                    },
                    None => {
                        &&& r matches ResolveProgress::Fetch(q) && query_for(
                            &q,
                            owner_refs.deep_view()[0],
                            old(self).spec_namespace(),
                        )
                        &&& forall|k: Seq<char>|
                            final(cache).spec_get(k) == old(cache).spec_get(k)
                        &&& final(self).in_progress()
                        &&& final(self).spec_names() == old(self).spec_names().push(fkey)
                        &&& final(self).spec_refs() == old(self).spec_refs().push(
                            owner_refs.deep_view()[0],
                        )
                    },
                }
            }),
    {
        let fkey = namespaced_name_of(&self.namespace, name);
        let hit = cache.get(&fkey);
        let tail: Vec<OwnerRef> = match hit {
            Some(c) => c,
            None => {
                if owner_refs.len() == 0 {
                    Vec::new()
                } else {
                    let first = owner_refs[0].clone();
                    let q = OwnerQuery {
                        api_version: first.api_version.clone(),
                        kind: first.kind.clone(),
                        namespace: self.namespace.clone(),
                        name: first.name.clone(),
                    };
                    self.names.push(fkey);
                    self.refs.push(first);
                    proof {
                        assert(self.spec_names() =~= old(self).spec_names().push(
                            ns_name_of(old(self).spec_namespace(), name@),
                        ));
                        assert(self.spec_refs() =~= old(self).spec_refs().push(
                            owner_refs.deep_view()[0],
                        ));
                        assert forall|k: Seq<char>|
                            cache.spec_get(k) == old(cache).spec_get(k) by {}
                    }
                    return ResolveProgress::Fetch(q);
                }
            },
        };
        let ghost tail_v = tail.deep_view();
        proof {
            if old(cache).spec_get(ns_name_of(old(self).spec_namespace(), name@)) is None {
                assert(tail_v =~= Seq::<OwnerRefView>::empty());
            }
        }
        let ghost names_v = self.spec_names();
        let ghost refs_v = self.spec_refs();
        let mut chain = tail;
        let mut i: usize = self.names.len();
        proof {
            assert(chain.deep_view() =~= refs_v.skip(i as int) + tail_v);
        }
        while i > 0
            invariant
                self.wf(),
                cache.wf(),
                *self == *old(self),
                names_v == self.spec_names(),
                refs_v == self.spec_refs(),
                i <= names_v.len(),
                cache.spec_capacity() == old(cache).spec_capacity(),
                chain.deep_view() == refs_v.skip(i as int) + tail_v,
                i < names_v.len() ==> cache.spec_get(names_v[i as int]) == Some(
                    resolved_chain(refs_v, i as int, tail_v),
                ),
            decreases i,
        {
            i = i - 1;
            chain.insert(0, self.refs[i].clone());
            proof {
                assert(chain.deep_view() =~= seq![refs_v[i as int]] + (refs_v.skip(i + 1 as int)
                    + tail_v));
                assert(seq![refs_v[i as int]] + (refs_v.skip(i + 1 as int) + tail_v) =~= refs_v.skip(
                    i as int,
                ) + tail_v);
            }
            let copy = clone_chain(&chain);
            cache.put(self.names[i].clone(), copy);
        }
        self.names = Vec::new();
        self.refs = Vec::new();
        proof {
            assert(self.spec_names() =~= Seq::<Seq<char>>::empty());
            assert(self.spec_refs() =~= Seq::<OwnerRefView>::empty());
            assert(chain.deep_view() =~= resolved_chain(refs_v, 0, tail_v)) by {
                assert(refs_v.skip(0) =~= refs_v);
            }
        }
        ResolveProgress::Resolved(chain)
    }
}

} // verus!
