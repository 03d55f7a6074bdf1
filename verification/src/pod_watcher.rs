//! The pod lifecycle watcher: reconciles a stream of pod watch events into
//! closed run intervals.
//!
//! The watcher keeps an index of pods whose lifecycle is not yet finalized.
//! An `Applied` observation can start tracking a pod or, when its start
//! timestamp matches the tracked one, close the interval; a `Deleted` event
//! closes a running interval at the current clock reading; a `Restarted`
//! resynchronization replays its listing as `Applied` events and then
//! finalizes every tracked pod the listing no longer names.  A closed
//! interval is recorded to the trace store together with the pod's owner
//! chain and the pod leaves the index.
//!
//! Owner chains come from the [`crate::cache::OwnerCache`]: when a pod has
//! owner references whose chain is not cached yet, the handler changes
//! nothing and reports that resolution is needed; the caller resolves the
//! chain (see [`crate::owners`]) and delivers the event again.

use vstd::prelude::*;

use crate::alist::{
    alist_lookup, alist_remove, alist_wf, lemma_lookup_first_match, lemma_lookup_none,
    lemma_lookup_push, lemma_remove_key_at, lemma_wf_remove_key,
};
use crate::cache::OwnerCache;
use crate::lifecycle::{container_lifecycle, lifecycle_of, PodLifecycleData};
use crate::objects::{namespaced_name_of, ns_name_of, OwnerRefView, PodRecord, PodRecordView};
use crate::store::{record_model, PodEntryView, TraceStore};

verus! {

/// Mathematical view of one index entry.
pub struct TrackedPodView {
    pub namespace: Seq<char>,
    pub name: Seq<char>,
    pub data: PodLifecycleData,
}

struct TrackedPod {
    namespace: String,
    name: String,
    data: PodLifecycleData,
}

/// The watcher index model: namespaced name to tracked state.
pub type IndexModel = Seq<(Seq<char>, TrackedPodView)>;

/// The pod map model of the store.
pub type PodsModel = Seq<(Seq<char>, PodEntryView)>;

/// The owner-chain cache model.
pub type CacheModel = Seq<(Seq<char>, Seq<OwnerRefView>)>;

/// What an `Applied` observation does to a tracked pod.
pub enum ApplyAction {
    /// Leave the index and the store alone.
    Ignore,
    /// Start tracking the observed state.
    Track,
    /// The lifecycle closed: record it and stop tracking.
    Record,
}

/// The transition table for an `Applied` observation: an untracked pod with
/// a non-empty observation is tracked; a tracked running pod whose new
/// observation is finished with the same start timestamp is recorded; every
/// other combination is ignored.
pub open spec fn apply_action(cur: Option<TrackedPodView>, obs: PodLifecycleData) -> ApplyAction {
    match cur {
        None => if obs is Empty {
            ApplyAction::Ignore
        } else {
            ApplyAction::Track
        },
        Some(t) => match (t.data, obs) {
            (PodLifecycleData::Running(s), PodLifecycleData::Finished(s2, _)) => if s2 == s {
                ApplyAction::Record
            } else {
                ApplyAction::Ignore
            },
            _ => ApplyAction::Ignore,
        },
    }
}

/// The owner chain that can be determined without fetching anything: a
/// cached chain, or the empty chain for a pod without owner references.
pub open spec fn chain_avail(
    cm: CacheModel,
    key: Seq<char>,
    owner_refs: Seq<OwnerRefView>,
) -> Option<Seq<OwnerRefView>> {
    match alist_lookup(cm, key) {
        Some(c) => Some(c),
        None => if owner_refs.len() == 0 {
            Some(Seq::empty())
        } else {
            None
        },
    }
}

/// Result of one event step over the models.
pub struct StepResult {
    pub index: IndexModel,
    pub pods: PodsModel,
    /// The step needed an owner chain that was not available and changed
    /// nothing.
    pub pending: bool,
}

/// One `Applied` observation over the models.
pub open spec fn apply_step(
    idx: IndexModel,
    pods: PodsModel,
    cm: CacheModel,
    p: PodRecordView,
) -> StepResult {
    let key = ns_name_of(p.namespace, p.name);
    let obs = lifecycle_of(p.containers);
    match apply_action(alist_lookup(idx, key), obs) {
        ApplyAction::Ignore => StepResult { index: idx, pods, pending: false },
        ApplyAction::Track => StepResult {
            index: idx.push((key, TrackedPodView { namespace: p.namespace, name: p.name, data: obs })),
            pods,
            pending: false,
        },
        ApplyAction::Record => match chain_avail(cm, key, p.owner_refs) {
            Some(c) => StepResult {
                index: alist_remove(idx, key),
                pods: record_model(
                    pods,
                    key,
                    PodEntryView { namespace: p.namespace, name: p.name, chain: c, data: obs },
                ),
                pending: false,
            },
            None => StepResult { index: idx, pods, pending: true },
        },
    }
}

/// One `Deleted` event over the models: an untracked pod is a no-op, a
/// tracked finished pod just leaves the index, and a tracked running pod is
/// finalized at `now` whether or not the deleted object carries container
/// data.
pub open spec fn delete_step(
    idx: IndexModel,
    pods: PodsModel,
    cm: CacheModel,
    p: PodRecordView,
    now: i64,
) -> StepResult {
    let key = ns_name_of(p.namespace, p.name);
    match alist_lookup(idx, key) {
        None => StepResult { index: idx, pods, pending: false },
        Some(t) => match t.data {
            PodLifecycleData::Finished(_, _) => StepResult {
                index: alist_remove(idx, key),
                pods,
                pending: false,
            },
            PodLifecycleData::Running(s) => match chain_avail(cm, key, p.owner_refs) {
                Some(c) => StepResult {
                    index: alist_remove(idx, key),
                    pods: record_model(
                        pods,
                        key,
                        PodEntryView {
                            namespace: t.namespace,
                            name: t.name,
                            chain: c,
                            data: PodLifecycleData::Finished(s, now),
                        },
                    ),
                    pending: false,
                },
                None => StepResult { index: idx, pods, pending: true },
            },
            PodLifecycleData::Empty => StepResult { index: idx, pods, pending: false },
        },
    }
}

/// A `Restarted` listing replayed as `Applied` observations, in order.
pub open spec fn apply_list(
    idx: IndexModel,
    pods: PodsModel,
    cm: CacheModel,
    list: Seq<PodRecordView>,
) -> (IndexModel, PodsModel)
    decreases list.len(),
{
    if list.len() == 0 {
        (idx, pods)
    } else {
        let prev = apply_list(idx, pods, cm, list.drop_last());
        let st = apply_step(prev.0, prev.1, cm, list.last());
        (st.index, st.pods)
    }
}

/// The positions in a `Restarted` listing whose step needed an owner chain
/// that was not available.
pub open spec fn pended_indices(
    idx: IndexModel,
    pods: PodsModel,
    cm: CacheModel,
    list: Seq<PodRecordView>,
) -> Seq<int>
    decreases list.len(),
{
    if list.len() == 0 {
        Seq::empty()
    } else {
        let prev = apply_list(idx, pods, cm, list.drop_last());
        let p = pended_indices(idx, pods, cm, list.drop_last());
        if apply_step(prev.0, prev.1, cm, list.last()).pending {
            p.push(list.len() - 1)
        } else {
            p
        }
    }
}

/// Does the listing name this key?
pub open spec fn in_list(list: Seq<PodRecordView>, key: Seq<char>) -> bool {
    exists|i: int| 0 <= i < list.len() && ns_name_of(list[i].namespace, list[i].name) == key
}

/// Finalize one implicitly-gone pod: its chain is whatever the cache holds
/// (a disappeared pod can no longer be fetched), its interval is closed at
/// `now`.
pub open spec fn sweep_record(
    pods: PodsModel,
    cm: CacheModel,
    key: Seq<char>,
    t: TrackedPodView,
    now: i64,
) -> PodsModel {
    let chain = match alist_lookup(cm, key) {
        Some(c) => c,
        None => Seq::empty(),
    };
    record_model(
        pods,
        key,
        PodEntryView {
            namespace: t.namespace,
            name: t.name,
            chain,
            data: t.data.spec_finalized(now),
        },
    )
}

/// After a `Restarted` listing is replayed, every tracked pod the listing
/// does not name is finalized and leaves the index, in index order.
pub open spec fn sweep_model(
    idx: IndexModel,
    pods: PodsModel,
    cm: CacheModel,
    list: Seq<PodRecordView>,
    now: i64,
) -> (IndexModel, PodsModel)
    decreases idx.len(),
{
    if idx.len() == 0 {
        (idx, pods)
    } else {
        let e = idx.first();
        if in_list(list, e.0) {
            let r = sweep_model(idx.drop_first(), pods, cm, list, now);
            (seq![e] + r.0, r.1)
        } else {
            let pods1 = sweep_record(pods, cm, e.0, e.1, now);
            let r = sweep_model(idx.drop_first(), pods1, cm, list, now);
            (r.0, r.1)
        }
    }
}

/// Two cache states that bind every key alike.
pub open spec fn same_bindings(a: CacheModel, b: CacheModel) -> bool {
    forall|k: Seq<char>| alist_lookup(a, k) == alist_lookup(b, k)
}

/// What an event handler reports.
pub enum ApplyOutcome {
    /// The event was handled; the index and the store reflect it.
    Handled,
    /// The event needs the pod's owner chain, which is not cached: nothing
    /// changed; resolve the chain and deliver the event again.
    NeedsOwnerChain,
}

/// A pod watch event, as the watch stream delivers it.
pub enum Event {
    Applied(PodRecord),
    Deleted(PodRecord),
    Restarted(Vec<PodRecord>),
}

/// The pod lifecycle watcher's index of pods not yet finalized.
pub struct PodWatcher {
    index: Vec<(String, TrackedPod)>,
}

impl PodWatcher {
    /// How an index entry is read as its model.
    spec fn entry_view() -> spec_fn((String, TrackedPod)) -> (Seq<char>, TrackedPodView) {
        |e: (String, TrackedPod)|
            (
                e.0@,
                TrackedPodView { namespace: e.1.namespace@, name: e.1.name@, data: e.1.data },
            )
    }

    /// The index as an association list.
    pub closed spec fn index_model(&self) -> IndexModel {
        self.index@.map_values(Self::entry_view())
    }

    /// The tracked state for a namespaced name, if any.
    pub open spec fn spec_tracked(&self, key: Seq<char>) -> Option<TrackedPodView> {
        alist_lookup(self.index_model(), key)
    }

    /// Keys are distinct, every tracked state is non-empty and well formed,
    /// and each key spells the entry's `namespace/name`.
    pub open spec fn wf(&self) -> bool {
        &&& alist_wf(self.index_model())
        &&& forall|i: int|
            0 <= i < self.index_model().len() ==> !((#[trigger] self.index_model()[i]).1.data
                is Empty)
        &&& forall|i: int|
            0 <= i < self.index_model().len() ==> (#[trigger] self.index_model()[i]).1.data.valid()
        &&& forall|i: int|
            0 <= i < self.index_model().len() ==> (#[trigger] self.index_model()[i]).0
                == ns_name_of(self.index_model()[i].1.namespace, self.index_model()[i].1.name)
    }

    /// Every tracked start timestamp is at or before `ts`: what a monotone
    /// clock guarantees for observations made in the past.
    pub open spec fn starts_before(&self, ts: i64) -> bool {
        forall|i: int|
            0 <= i < self.index_model().len() ==> (#[trigger] self.index_model()[i]).1
                .data.starts_before(ts)
    }

    pub fn new() -> (r: PodWatcher)
        ensures
            r.wf(),
            r.index_model() == Seq::<(Seq<char>, TrackedPodView)>::empty(),
    {
        let r = PodWatcher { index: Vec::new() };
        proof {
            assert(r.index_model() =~= Seq::<(Seq<char>, TrackedPodView)>::empty());
        }
        r
    }

    /// Is every tracked start timestamp at or before `ts`?  Callers of the
    /// clock-driven handlers can check their clock against this.
    pub fn all_starts_before(&self, ts: i64) -> (r: bool)
        ensures
            r == self.starts_before(ts),
    {
        let mut i: usize = 0;
        while i < self.index.len()
            invariant
                i <= self.index.len(),
                forall|j: int|
                    0 <= j < i ==> (#[trigger] self.index_model()[j]).1.data.starts_before(ts),
            decreases self.index.len() - i,
        {
            let ok = match self.index[i].1.data {
                PodLifecycleData::Empty => true,
                PodLifecycleData::Running(s) => s <= ts,
                PodLifecycleData::Finished(s, _) => s <= ts,
            };
            if !ok {
                proof {
                    assert(!(self.index_model()[i as int].1.data.starts_before(ts)));
                }
                return false;
            }
            i = i + 1;
        }
        true
    }

    /// The position of the first index entry for `key`, if one exists.
    fn find_tracked(&self, key: &String) -> (r: Option<usize>)
        ensures
            match r {
                Some(i) => (i as int) < self.index_model().len() && self.index_model()[i as int].0
                    == key@ && (forall|j: int| 0 <= j < i ==> self.index_model()[j].0 != key@),
                None => forall|j: int|
                    0 <= j < self.index_model().len() ==> self.index_model()[j].0 != key@,
            },
    {
        let mut i: usize = 0;
        while i < self.index.len()
            invariant
                i <= self.index.len(),
                forall|j: int| 0 <= j < i ==> self.index_model()[j].0 != key@,
            decreases self.index.len() - i,
        {
            if self.index[i].0.eq(key) {
                return Some(i);
            }
            i = i + 1;
        }
        None
    }

    /// The tracked lifecycle for a namespaced name, if any.
    pub fn get_owned_pod_lifecycle(&self, ns_name: &String) -> (r: Option<PodLifecycleData>)
        ensures
            r == match self.spec_tracked(ns_name@) {
                Some(t) => Some(t.data),
                None => None::<PodLifecycleData>,
            },
    {
        match self.find_tracked(ns_name) {
            Some(i) => {
                proof {
                    lemma_lookup_first_match(self.index_model(), ns_name@, i as int);
                }
                Some(self.index[i].1.data)
            },
            None => {
                proof {
                    lemma_lookup_none(self.index_model(), ns_name@);
                }
                None
            },
        }
    }

    /// Start tracking a pod in a known state; an existing entry is left
    /// alone.  This is how a watcher is rebuilt from a prior view.
    pub fn insert_tracked(
        &mut self,
        namespace: String,
        name: String,
        data: PodLifecycleData,
    ) -> (inserted: bool)
        requires
            old(self).wf(),
            !(data is Empty),
            data.valid(),
        ensures
            final(self).wf(),
            inserted == (old(self).spec_tracked(ns_name_of(namespace@, name@)) is None),
            final(self).index_model() == if inserted {
                old(self).index_model().push(
                    (
                        ns_name_of(namespace@, name@),
                        TrackedPodView { namespace: namespace@, name: name@, data },
                    ),
                )
            } else {
                old(self).index_model()
            },
    {
        let ghost m = self.index_model();
        let key = namespaced_name_of(&namespace, &name);
        match self.find_tracked(&key) {
            Some(i) => {
                proof {
                    lemma_lookup_first_match(m, key@, i as int);
                }
                false
            },
            None => {
                proof {
                    lemma_lookup_none(m, key@);
                }
                self.index.push((key, TrackedPod { namespace, name, data }));
                proof {
                    let t = TrackedPodView {
                        namespace: self.index_model().last().1.namespace,
                        name: self.index_model().last().1.name,
                        data,
                    };
                    assert(self.index_model() =~= m.push((ns_name_of(t.namespace, t.name), t)));
                    assert(alist_wf(self.index_model())) by {
                        assert forall|a: int, b: int|
                            0 <= a < b < self.index_model().len() implies self.index_model()[a].0
                            != self.index_model()[b].0 by {
                            if b == self.index_model().len() - 1 {
                                assert(m[a].0 != ns_name_of(t.namespace, t.name));
                            }
                        }
                    }
                }
                true
            },
        }
    }

    /// Handle one `Applied` observation, per the transition table of
    /// [`apply_action`]: track, ignore, or record-and-remove.  When the
    /// terminal transition needs an owner chain that is not available the
    /// handler changes nothing and asks the caller to resolve it.
    pub fn handle_pod_applied(
        &mut self,
        pod: &PodRecord,
        cache: &mut OwnerCache,
        store: &mut TraceStore,
    ) -> (r: ApplyOutcome)
        requires
            old(self).wf(),
            old(cache).wf(),
            old(store).wf(),
        ensures
            final(self).wf(),
            final(cache).wf(),
            final(store).wf(),
            final(cache).spec_capacity() == old(cache).spec_capacity(),
            same_bindings(final(cache)@, old(cache)@),
            final(store)@.events == old(store)@.events,
            ({
                let st = apply_step(
                    old(self).index_model(),
                    old(store)@.pods,
                    old(cache)@,
                    pod.deep_view(),
                );
                &&& final(self).index_model() == st.index
                &&& final(store)@.pods == st.pods
                &&& (r is NeedsOwnerChain <==> st.pending)
            }),
    {
        let ghost m = self.index_model();
        let ghost pv = pod.deep_view();
        let ghost st = apply_step(m, store@.pods, cache@, pv);
        let key = pod.namespaced_name();
        let obs = container_lifecycle(&pod.containers);
        match self.find_tracked(&key) {
            None => {
                proof {
                    lemma_lookup_none(m, key@);
                }
                if !matches!(obs, PodLifecycleData::Empty) {
                    self.index.push(
                        (
                            key,
                            TrackedPod {
                                namespace: pod.namespace.clone(),
                                name: pod.name.clone(),
                                data: obs,
                            },
                        ),
                    );
                    proof {
                        assert(self.index_model() =~= m.push(
                            (
                                ns_name_of(pv.namespace, pv.name),
                                TrackedPodView { namespace: pv.namespace, name: pv.name, data: obs },
                            ),
                        ));
                        assert(alist_wf(self.index_model())) by {
                            assert forall|a: int, b: int|
                                0 <= a < b < self.index_model().len() implies self.index_model()[a].0
                                != self.index_model()[b].0 by {
                                if b == self.index_model().len() - 1 {
                                    assert(m[a].0 != key@);
                                }
                            }
                        }
                    }
                }
                ApplyOutcome::Handled
            },
            Some(i) => {
                proof {
                    lemma_lookup_first_match(m, key@, i as int);
                }
                let cur = self.index[i].1.data;
                let is_terminal = match (cur, obs) {
                    (PodLifecycleData::Running(s), PodLifecycleData::Finished(s2, _)) => s2 == s,
                    _ => false,
                };
                if is_terminal {
                    let chain = match cache.get(&key) {
                        Some(c) => c,
                        None => {
                            if pod.owner_refs.len() == 0 {
                                Vec::new()
                            } else {
                                proof {
                                    assert forall|k: Seq<char>|
                                        alist_lookup(cache@, k) == alist_lookup(
                                            old(cache)@,
                                            k,
                                        ) by {
                                        assert(cache.spec_get(k) == old(cache).spec_get(k));
                                    }
                                }
                                return ApplyOutcome::NeedsOwnerChain;
                            }
                        },
                    };
                    proof {
                        assert forall|k: Seq<char>|
                            alist_lookup(cache@, k) == alist_lookup(old(cache)@, k) by {
                            assert(cache.spec_get(k) == old(cache).spec_get(k));
                        }
                        assert(chain_avail(old(cache)@, key@, pv.owner_refs)
                            == Some(chain.deep_view())) by {
                            if old(cache).spec_get(key@) is None {
                                assert(chain.deep_view() =~= Seq::<OwnerRefView>::empty());
                            }
                        }
                    }
                    let _ = store.record_pod_lifecycle(
                        pod.namespace.clone(),
                        pod.name.clone(),
                        chain,
                        obs,
                    );
                    self.index.remove(i);
                    proof {
                        assert(self.index_model() =~= m.remove(i as int));
                        lemma_remove_key_at(m, i as int);
                        lemma_wf_remove_key(m, key@);
                        assert(self.index_model() =~= alist_remove(m, key@));
                    }
                    ApplyOutcome::Handled
                } else {
                    ApplyOutcome::Handled
                }
            },
        }
    }

    /// Handle one `Deleted` event: an untracked pod is a no-op, a tracked
    /// finished pod leaves the index with no store write, and a tracked
    /// running pod is finalized at `now` and recorded — whether or not the
    /// deleted object itself carries container data.
    pub fn handle_pod_deleted(
        &mut self,
        pod: &PodRecord,
        now: i64,
        cache: &mut OwnerCache,
        store: &mut TraceStore,
    ) -> (r: ApplyOutcome)
        requires
            old(self).wf(),
            old(cache).wf(),
            old(store).wf(),
            old(self).starts_before(now),
        ensures
            final(self).wf(),
            final(cache).wf(),
            final(store).wf(),
            final(cache).spec_capacity() == old(cache).spec_capacity(),
            same_bindings(final(cache)@, old(cache)@),
            final(store)@.events == old(store)@.events,
            ({
                let st = delete_step(
                    old(self).index_model(),
                    old(store)@.pods,
                    old(cache)@,
                    pod.deep_view(),
                    now,
                );
                &&& final(self).index_model() == st.index
                &&& final(store)@.pods == st.pods
                &&& (r is NeedsOwnerChain <==> st.pending)
            }),
    {
        let ghost m = self.index_model();
        let ghost pv = pod.deep_view();
        let key = pod.namespaced_name();
        match self.find_tracked(&key) {
            None => {
                proof {
                    lemma_lookup_none(m, key@);
                }
                ApplyOutcome::Handled
            },
            Some(i) => {
                proof {
                    lemma_lookup_first_match(m, key@, i as int);
                }
                let cur = self.index[i].1.data;
                match cur {
                    PodLifecycleData::Finished(_, _) => {
                        self.index.remove(i);
                        proof {
                            assert(self.index_model() =~= m.remove(i as int));
                            lemma_remove_key_at(m, i as int);
                            lemma_wf_remove_key(m, key@);
                            assert(self.index_model() =~= alist_remove(m, key@));
                        }
                        ApplyOutcome::Handled
                    },
                    PodLifecycleData::Running(s) => {
                        let chain = match cache.get(&key) {
                            Some(c) => c,
                            None => {
                                if pod.owner_refs.len() == 0 {
                                    Vec::new()
                                } else {
                                    proof {
                                        assert forall|k: Seq<char>|
                                            alist_lookup(cache@, k) == alist_lookup(
                                                old(cache)@,
                                                k,
                                            ) by {
                                            assert(cache.spec_get(k) == old(cache).spec_get(k));
                                        }
                                    }
                                    return ApplyOutcome::NeedsOwnerChain;
                                }
                            },
                        };
                        proof {
                            assert forall|k: Seq<char>|
                                alist_lookup(cache@, k) == alist_lookup(old(cache)@, k) by {
                                assert(cache.spec_get(k) == old(cache).spec_get(k));
                            }
                            assert(chain_avail(old(cache)@, key@, pv.owner_refs)
                                == Some(chain.deep_view())) by {
                                if old(cache).spec_get(key@) is None {
                                    assert(chain.deep_view() =~= Seq::<OwnerRefView>::empty());
                                }
                            }
                        }
                        let namespace = self.index[i].1.namespace.clone();
                        let name = self.index[i].1.name.clone();
                        let _ = store.record_pod_lifecycle(
                            namespace,
                            name,
                            chain,
                            PodLifecycleData::Finished(s, now),
                        );
                        self.index.remove(i);
                        proof {
                            assert(self.index_model() =~= m.remove(i as int));
                            lemma_remove_key_at(m, i as int);
                            lemma_wf_remove_key(m, key@);
                            assert(self.index_model() =~= alist_remove(m, key@));
                        }
                        ApplyOutcome::Handled
                    },
                    PodLifecycleData::Empty => ApplyOutcome::Handled,
                }
            },
        }
    }

    /// Handle one `Restarted` resynchronization: replay the listing as
    /// `Applied` observations in order, then finalize every tracked pod the
    /// listing no longer names at `now` (its chain is whatever the cache
    /// holds: a disappeared pod can no longer be fetched).  The returned
    /// positions name the listed pods whose terminal transition needed an
    /// owner chain that was not cached; those were left unchanged and can
    /// be delivered again once resolved.
    pub fn handle_pod_restarted(
        &mut self,
        pods_list: &Vec<PodRecord>,
        now: i64,
        cache: &mut OwnerCache,
        store: &mut TraceStore,
    ) -> (r: Vec<usize>)
        requires
            old(self).wf(),
            old(cache).wf(),
            old(store).wf(),
            old(self).starts_before(now),
        ensures
            final(self).wf(),
            final(cache).wf(),
            final(store).wf(),
            final(cache).spec_capacity() == old(cache).spec_capacity(),
            same_bindings(final(cache)@, old(cache)@),
            final(store)@.events == old(store)@.events,
            ({
                let after = apply_list(
                    old(self).index_model(),
                    old(store)@.pods,
                    old(cache)@,
                    pods_list.deep_view(),
                );
                let swept = sweep_model(
                    after.0,
                    after.1,
                    old(cache)@,
                    pods_list.deep_view(),
                    now,
                );
                &&& final(self).index_model() == swept.0
                &&& final(store)@.pods == swept.1
            }),
            r@.map_values(|u: usize| u as int) == pended_indices(
                old(self).index_model(),
                old(store)@.pods,
                old(cache)@,
                pods_list.deep_view(),
            ),
    {
        let ghost m0 = self.index_model();
        let ghost p0 = store@.pods;
        let ghost cm0 = cache@;
        let ghost listv = pods_list.deep_view();
        let mut pended: Vec<usize> = Vec::new();
        let mut i: usize = 0;
        proof {
            assert(listv.take(0) =~= Seq::<PodRecordView>::empty());
            assert(pended@.map_values(|u: usize| u as int) =~= Seq::<int>::empty());
        }
        while i < pods_list.len()
            invariant
                self.wf(),
                cache.wf(),
                store.wf(),
                m0 == old(self).index_model(),
                p0 == old(store)@.pods,
                cm0 == old(cache)@,
                listv == pods_list.deep_view(),
                old(self).starts_before(now),
                i <= pods_list.len(),
                cache.spec_capacity() == old(cache).spec_capacity(),
                same_bindings(cache@, cm0),
                store@.events == old(store)@.events,
                (self.index_model(), store@.pods) == apply_list(m0, p0, cm0, listv.take(i as int)),
                pended@.map_values(|u: usize| u as int) == pended_indices(
                    m0,
                    p0,
                    cm0,
                    listv.take(i as int),
                ),
                forall|j: int|
                    0 <= j < self.index_model().len() ==> m0.contains(
                        #[trigger] self.index_model()[j],
                    ) || in_list(listv, self.index_model()[j].0),
            decreases pods_list.len() - i,
        {
            let ghost pre_idx = self.index_model();
            let ghost pre_pods = store@.pods;
            let ghost pre_cm = cache@;
            let outcome = self.handle_pod_applied(&pods_list[i], cache, store);
            proof {
                let pv = listv[i as int];
                let key = ns_name_of(pv.namespace, pv.name);
                assert(alist_lookup(pre_cm, key) == alist_lookup(cm0, key));
                assert(chain_avail(pre_cm, key, pv.owner_refs) == chain_avail(
                    cm0,
                    key,
                    pv.owner_refs,
                ));
                let st_pre = apply_step(pre_idx, pre_pods, pre_cm, pv);
                let st0 = apply_step(pre_idx, pre_pods, cm0, pv);
                assert(st_pre == st0);
                assert(listv.take(i + 1 as int).drop_last() =~= listv.take(i as int));
                assert(listv.take(i + 1 as int).last() == listv[i as int]);
                assert((self.index_model(), store@.pods) == apply_list(
                    m0,
                    p0,
                    cm0,
                    listv.take(i + 1 as int),
                ));
                // Each entry of the new index stood there before or is
                // named by the listing.
                match apply_action(alist_lookup(pre_idx, key), lifecycle_of(pv.containers)) {
                    ApplyAction::Track => {
                        assert(in_list(listv, key)) by {
                            assert(ns_name_of(listv[i as int].namespace, listv[i as int].name)
                                == key);
                        }
                        assert forall|j: int|
                            0 <= j < self.index_model().len() implies m0.contains(
                            #[trigger] self.index_model()[j],
                        ) || in_list(listv, self.index_model()[j].0) by {
                            if j < self.index_model().len() - 1 {
                                assert(self.index_model()[j] == pre_idx[j]);
                            }
                        }
                    },
                    ApplyAction::Record => {
                        if !st0.pending {
                            lemma_wf_remove_key(pre_idx, key);
                            assert forall|j: int|
                                0 <= j < self.index_model().len() implies m0.contains(
                                #[trigger] self.index_model()[j],
                            ) || in_list(listv, self.index_model()[j].0) by {
                                assert(pre_idx.contains(self.index_model()[j]));
                                let w = choose|w: int|
                                    0 <= w < pre_idx.len() && pre_idx[w]
                                        == self.index_model()[j];
                                assert(m0.contains(pre_idx[w]) || in_list(listv, pre_idx[w].0));
                            }
                        }
                    },
                    ApplyAction::Ignore => {},
                }
                // The pended positions extend exactly when this step pended.
                if st0.pending {
                    assert(pended_indices(m0, p0, cm0, listv.take(i + 1 as int))
                        == pended_indices(m0, p0, cm0, listv.take(i as int)).push(i as int));
                } else {
                    assert(pended_indices(m0, p0, cm0, listv.take(i + 1 as int))
                        == pended_indices(m0, p0, cm0, listv.take(i as int)));
                }
            }
            if matches!(outcome, ApplyOutcome::NeedsOwnerChain) {
                let ghost pre_pended = pended@.map_values(|u: usize| u as int);
                pended.push(i);
                proof {
                    assert(pended@.map_values(|u: usize| u as int) =~= pre_pended.push(i as int));
                }
            }
            i = i + 1;
        }
        proof {
            assert(listv.take(pods_list.len() as int) =~= listv);
        }
        // Sweep: every tracked pod the listing does not name disappeared
        // between watch connections; finalize it now.
        let ghost mid_idx = self.index_model();
        let ghost mid_pods = store@.pods;
        let ghost mut j: int = 0;
        let mut kept: Vec<(String, TrackedPod)> = Vec::new();
        proof {
            assert(kept@.map_values(Self::entry_view()) =~= Seq::<(Seq<char>, TrackedPodView)>::empty());
            assert(mid_idx.skip(0) =~= mid_idx);
        }
        while self.index.len() > 0
            invariant
                cache.wf(),
                store.wf(),
                m0 == old(self).index_model(),
                cm0 == old(cache)@,
                listv == pods_list.deep_view(),
                old(self).starts_before(now),
                cache.spec_capacity() == old(cache).spec_capacity(),
                same_bindings(cache@, cm0),
                store@.events == old(store)@.events,
                alist_wf(mid_idx),
                forall|w: int|
                    0 <= w < mid_idx.len() ==> !((#[trigger] mid_idx[w]).1.data is Empty),
                forall|w: int| 0 <= w < mid_idx.len() ==> (#[trigger] mid_idx[w]).1.data.valid(),
                forall|w: int|
                    0 <= w < mid_idx.len() ==> (#[trigger] mid_idx[w]).0 == ns_name_of(
                        mid_idx[w].1.namespace,
                        mid_idx[w].1.name,
                    ),
                forall|w: int|
                    0 <= w < mid_idx.len() ==> in_list(listv, (#[trigger] mid_idx[w]).0)
                        || mid_idx[w].1.data.starts_before(now),
                0 <= j <= mid_idx.len(),
                self.index_model() =~= mid_idx.skip(j),
                alist_wf(kept@.map_values(Self::entry_view())),
                forall|a: int|
                    0 <= a < kept@.map_values(Self::entry_view()).len() ==> exists|w: int|
                        0 <= w < j && mid_idx[w] == #[trigger] kept@.map_values(
                            Self::entry_view(),
                        )[a],
                sweep_model(mid_idx, mid_pods, cm0, listv, now) == (
                    kept@.map_values(Self::entry_view()) + sweep_model(
                        mid_idx.skip(j),
                        store@.pods,
                        cm0,
                        listv,
                        now,
                    ).0,
                    sweep_model(mid_idx.skip(j), store@.pods, cm0, listv, now).1,
                ),
            decreases self.index.len(),
        {
            let ghost cur_pods = store@.pods;
            let ghost rem = mid_idx.skip(j);
            let e = self.index.remove(0);
            proof {
                assert(rem.first() == mid_idx[j]);
                assert(self.index_model() =~= rem.drop_first());
                assert(rem.drop_first() =~= mid_idx.skip(j + 1));
            }
            if list_contains(pods_list, &e.0) {
                let ghost pre_kept = kept@.map_values(Self::entry_view());
                kept.push(e);
                proof {
                    assert(kept@.map_values(Self::entry_view()) =~= pre_kept.push(mid_idx[j]));
                    assert forall|a: int| 0 <= a < pre_kept.len() implies pre_kept[a].0
                        != mid_idx[j].0 by {
                        let w = choose|w: int| 0 <= w < j && mid_idx[w] == pre_kept[a];
                        assert(mid_idx[w].0 != mid_idx[j].0);
                    }
                    assert(alist_wf(pre_kept.push(mid_idx[j]))) by {
                        let km = pre_kept.push(mid_idx[j]);
                        assert forall|a: int, b: int|
                            0 <= a < b < km.len() implies km[a].0 != km[b].0 by {
                            if b == km.len() - 1 {
                                assert(km[a] == pre_kept[a]);
                            }
                        }
                    }
                    assert(pre_kept.push(mid_idx[j]) + sweep_model(
                        mid_idx.skip(j + 1),
                        store@.pods,
                        cm0,
                        listv,
                        now,
                    ).0 =~= pre_kept + (seq![mid_idx[j]] + sweep_model(
                        mid_idx.skip(j + 1),
                        store@.pods,
                        cm0,
                        listv,
                        now,
                    ).0));
                    j = j + 1;
                }
            } else {
                let ghost t = mid_idx[j].1;
                let ghost key = mid_idx[j].0;
                let ghost cm_pre = cache@;
                let chain = match cache.get(&e.0) {
                    Some(c) => c,
                    None => Vec::new(),
                };
                proof {
                    assert forall|k: Seq<char>| alist_lookup(cache@, k) == alist_lookup(cm0, k) by {
                        assert(cache.spec_get(k) == alist_lookup(cm_pre, k));
                        assert(alist_lookup(cm_pre, k) == alist_lookup(cm0, k));
                    }
                    assert(chain.deep_view() == match alist_lookup(cm0, key) {
                        Some(c) => c,
                        None => Seq::<OwnerRefView>::empty(),
                    }) by {
                        if alist_lookup(cm0, key) is None {
                            assert(chain.deep_view() =~= Seq::<OwnerRefView>::empty());
                        }
                    }
                    assert(t.data.starts_before(now));
                    assert(t.data.spec_finalized(now) is Finished);
                    assert(t.data.spec_finalized(now).valid());
                }
                let data = e.1.data.finalized(now);
                let _ = store.record_pod_lifecycle(e.1.namespace, e.1.name, chain, data);
                proof {
                    assert(store@.pods == sweep_record(cur_pods, cm0, key, t, now));
                    j = j + 1;
                }
            }
        }
        proof {
            assert(self.index_model().len() == 0);
            assert(mid_idx.skip(j) =~= self.index_model());
            assert(sweep_model(mid_idx.skip(j), store@.pods, cm0, listv, now) == (
                mid_idx.skip(j),
                store@.pods,
            ));
            assert(kept@.map_values(Self::entry_view()) + mid_idx.skip(j) =~= kept@.map_values(
                Self::entry_view(),
            ));
        }
        self.index = kept;
        proof {
            // The swept index keeps exactly the listed pods, with keys
            // still distinct and entries still well formed.
            let km = self.index_model();
            assert(km == sweep_model(mid_idx, mid_pods, cm0, listv, now).0);
            assert forall|w: int|
                0 <= w < km.len() implies !((#[trigger] km[w]).1.data is Empty) && km[w].1
                .data.valid() && km[w].0 == ns_name_of(km[w].1.namespace, km[w].1.name) by {
                let wa = choose|v: int| 0 <= v < mid_idx.len() && mid_idx[v] == km[w];
                assert(mid_idx[wa] == km[w]);
            }
        }
        pended
    }
}

/// Does the listing name `key`?
fn list_contains(list: &Vec<PodRecord>, key: &String) -> (r: bool)
    ensures
        r == in_list(list.deep_view(), key@),
{
    let mut i: usize = 0;
    while i < list.len()
        invariant
            i <= list.len(),
            forall|j: int|
                0 <= j < i ==> ns_name_of(
                    list.deep_view()[j].namespace,
                    list.deep_view()[j].name,
                ) != key@,
        decreases list.len() - i,
    {
        let n = list[i].namespaced_name();
        if n.eq(key) {
            proof {
                assert(ns_name_of(list.deep_view()[i as int].namespace, list.deep_view()[i as int].name)
                    == key@);
            }
            return true;
        }
        i = i + 1;
    }
    false
}

/// What handling one event reported.
pub enum EventOutcome {
    /// The event was handled; the index and the store reflect it.
    Handled,
    /// The event needs the pod's owner chain, which is not cached: nothing
    /// changed; resolve the chain and deliver the event again.
    NeedsOwnerChain,
    /// Positions in a `Restarted` listing whose terminal transition was
    /// left unchanged for want of a cached owner chain.
    Pended(Vec<usize>),
}

impl PodWatcher {
    /// Dispatch one watch event to its handler.
    pub fn handle_pod_event(
        &mut self,
        event: &Event,
        now: i64,
        cache: &mut OwnerCache,
        store: &mut TraceStore,
    ) -> (r: EventOutcome)
        requires
            old(self).wf(),
            old(cache).wf(),
            old(store).wf(),
            old(self).starts_before(now),
        ensures
            final(self).wf(),
            final(cache).wf(),
            final(store).wf(),
            final(cache).spec_capacity() == old(cache).spec_capacity(),
            same_bindings(final(cache)@, old(cache)@),
            final(store)@.events == old(store)@.events,
            match event {
                Event::Applied(p) => ({
                    let st = apply_step(
                        old(self).index_model(),
                        old(store)@.pods,
                        old(cache)@,
                        p.deep_view(),
                    );
                    &&& final(self).index_model() == st.index
                    &&& final(store)@.pods == st.pods
                    &&& (r is NeedsOwnerChain <==> st.pending)
                    &&& !(r is Pended)
                }),
                Event::Deleted(p) => ({
                    let st = delete_step(
                        old(self).index_model(),
                        old(store)@.pods,
                        old(cache)@,
                        p.deep_view(),
                        now,
                    );
                    &&& final(self).index_model() == st.index
                    &&& final(store)@.pods == st.pods
                    &&& (r is NeedsOwnerChain <==> st.pending)
                    &&& !(r is Pended)
                }),
                Event::Restarted(l) => ({
                    let after = apply_list(
                        old(self).index_model(),
                        old(store)@.pods,
                        old(cache)@,
                        l.deep_view(),
                    );
                    let swept = sweep_model(after.0, after.1, old(cache)@, l.deep_view(), now);
                    &&& final(self).index_model() == swept.0
                    &&& final(store)@.pods == swept.1
                    &&& r is Pended
                    &&& (r matches EventOutcome::Pended(v) ==> v@.map_values(|u: usize| u as int)
                        == pended_indices(
                        old(self).index_model(),
                        old(store)@.pods,
                        old(cache)@,
                        l.deep_view(),
                    ))
                }),
            },
    {
        match event {
            Event::Applied(p) => match self.handle_pod_applied(p, cache, store) {
                ApplyOutcome::Handled => EventOutcome::Handled,
                ApplyOutcome::NeedsOwnerChain => EventOutcome::NeedsOwnerChain,
            },
            Event::Deleted(p) => match self.handle_pod_deleted(p, now, cache, store) {
                ApplyOutcome::Handled => EventOutcome::Handled,
                ApplyOutcome::NeedsOwnerChain => EventOutcome::NeedsOwnerChain,
            },
            Event::Restarted(l) => EventOutcome::Pended(
                self.handle_pod_restarted(l, now, cache, store),
            ),
        }
    }
}

/// Law: once a tracked pod's lifecycle closes, it is recorded to the store
/// exactly once and the pod leaves the index; replaying the same `Applied`
/// observation writes nothing further to the store.
pub proof fn lemma_finished_recorded_once(
    idx: IndexModel,
    pods: PodsModel,
    cm: CacheModel,
    p: PodRecordView,
)
    requires
        alist_wf(idx),
        apply_action(
            alist_lookup(idx, ns_name_of(p.namespace, p.name)),
            lifecycle_of(p.containers),
        ) is Record,
        chain_avail(cm, ns_name_of(p.namespace, p.name), p.owner_refs) is Some,
        alist_lookup(pods, ns_name_of(p.namespace, p.name)) is None,
    ensures
        ({
            let key = ns_name_of(p.namespace, p.name);
            let st = apply_step(idx, pods, cm, p);
            let again = apply_step(st.index, st.pods, cm, p);
            &&& !st.pending
            &&& alist_lookup(st.pods, key) is Some
            &&& st.pods.len() == pods.len() + 1
            &&& alist_lookup(st.index, key) is None
            &&& again.pods == st.pods
        }),
{
    let key = ns_name_of(p.namespace, p.name);
    let obs = lifecycle_of(p.containers);
    let c = chain_avail(cm, key, p.owner_refs)->Some_0;
    let entry = PodEntryView { namespace: p.namespace, name: p.name, chain: c, data: obs };
    lemma_lookup_push(pods, (key, entry), key);
    lemma_wf_remove_key(idx, key);
    lemma_lookup_none(alist_remove(idx, key), key);
}

/// Law: a finished observation whose start timestamp differs from the
/// tracked one is a different container instance; it changes neither the
/// index nor the store.
pub proof fn lemma_mismatched_start_unchanged(
    idx: IndexModel,
    pods: PodsModel,
    cm: CacheModel,
    p: PodRecordView,
)
    requires
        ({
            let cur = alist_lookup(idx, ns_name_of(p.namespace, p.name));
            match (cur, lifecycle_of(p.containers)) {
                (Some(t), PodLifecycleData::Finished(s2, _)) => match t.data {
                    PodLifecycleData::Running(s) => s2 != s,
                    _ => false,
                },
                _ => false,
            }
        }),
    ensures
        apply_step(idx, pods, cm, p).index == idx,
        apply_step(idx, pods, cm, p).pods == pods,
        !apply_step(idx, pods, cm, p).pending,
{
}

/// Law: deleting a pod with no tracked state is a no-op.
pub proof fn lemma_delete_untracked_noop(
    idx: IndexModel,
    pods: PodsModel,
    cm: CacheModel,
    p: PodRecordView,
    now: i64,
)
    requires
        alist_lookup(idx, ns_name_of(p.namespace, p.name)) is None,
    ensures
        delete_step(idx, pods, cm, p, now).index == idx,
        delete_step(idx, pods, cm, p, now).pods == pods,
        !delete_step(idx, pods, cm, p, now).pending,
{
}

/// Law: deleting a tracked running pod finalizes its interval at the
/// current clock reading and records it, whatever the deleted object itself
/// says about its containers.
pub proof fn lemma_delete_running_finalizes(
    idx: IndexModel,
    pods: PodsModel,
    cm: CacheModel,
    p: PodRecordView,
    now: i64,
)
    requires
        alist_wf(idx),
        ({
            let cur = alist_lookup(idx, ns_name_of(p.namespace, p.name));
            cur is Some && cur->Some_0.data is Running
        }),
        chain_avail(cm, ns_name_of(p.namespace, p.name), p.owner_refs) is Some,
        alist_lookup(pods, ns_name_of(p.namespace, p.name)) is None,
    ensures
        ({
            let key = ns_name_of(p.namespace, p.name);
            let t = alist_lookup(idx, key)->Some_0;
            let s = t.data->Running_0;
            let st = delete_step(idx, pods, cm, p, now);
            &&& !st.pending
            &&& alist_lookup(st.index, key) is None
            &&& alist_lookup(st.pods, key) matches Some(e) && e.data == PodLifecycleData::Finished(
                s,
                now,
            )
        }),
{
    let key = ns_name_of(p.namespace, p.name);
    let t = alist_lookup(idx, key)->Some_0;
    let s = t.data->Running_0;
    let c = chain_avail(cm, key, p.owner_refs)->Some_0;
    let entry = PodEntryView {
        namespace: t.namespace,
        name: t.name,
        chain: c,
        data: PodLifecycleData::Finished(s, now),
    };
    lemma_lookup_push(pods, (key, entry), key);
    lemma_wf_remove_key(idx, key);
    lemma_lookup_none(alist_remove(idx, key), key);
}


} // verus!
