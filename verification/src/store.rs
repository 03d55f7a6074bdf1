//! The trace store: an append-only log of tracked-object events and a
//! once-per-pod map of finalized lifecycle intervals.
//!
//! The store is owned by the process that runs the watchers; callers
//! serialize access to it (one writer at a time) and hand it to the
//! watchers' event handlers.  Its two record operations are the only
//! mutators.

use vstd::prelude::*;

use crate::alist::{alist_lookup, alist_wf, lemma_lookup_none, lemma_wf_insert_front};
use crate::codec::{
    enc_bool, enc_bytes, enc_str, enc_ts, enc_u64, push_bool, push_bytes, push_str, push_ts,
    push_u64,
};
use crate::lifecycle::PodLifecycleData;
use crate::objects::{namespaced_name_of, ns_name_of, OwnerRef, OwnerRefView};

verus! {

/// Label pairs as character sequences.
pub open spec fn labels_view(l: Seq<(String, String)>) -> Seq<(Seq<char>, Seq<char>)> {
    l.map_values(|p: (String, String)| (p.0@, p.1@))
}

/// Mathematical view of an [`ObjEvent`].
pub struct ObjEventView {
    pub applied: bool,
    pub kind: Seq<char>,
    pub namespace: Seq<char>,
    pub name: Seq<char>,
    pub labels: Seq<(Seq<char>, Seq<char>)>,
    pub snapshot: Seq<u8>,
    pub ts: i64,
}

/// One apply/delete observation of a tracked object: the object's kind and
/// identity, its labels, an opaque serialized snapshot, and the time it was
/// seen.  `applied` is false for a deletion.
#[derive(Debug)]
pub struct ObjEvent {
    pub applied: bool,
    pub kind: String,
    pub namespace: String,
    pub name: String,
    pub labels: Vec<(String, String)>,
    pub snapshot: Vec<u8>,
    pub ts: i64,
}

impl View for ObjEvent {
    type V = ObjEventView;

    open spec fn view(&self) -> ObjEventView {
        ObjEventView {
            applied: self.applied,
            kind: self.kind@,
            namespace: self.namespace@,
            name: self.name@,
            labels: labels_view(self.labels@),
            snapshot: self.snapshot@,
            ts: self.ts,
        }
    }
}

/// Mathematical view of a recorded pod interval.
pub struct PodEntryView {
    pub namespace: Seq<char>,
    pub name: Seq<char>,
    pub chain: Seq<OwnerRefView>,
    pub data: PodLifecycleData,
}

struct PodEntry {
    namespace: String,
    name: String,
    chain: Vec<OwnerRef>,
    data: PodLifecycleData,
}

/// Mathematical view of the whole store.
pub struct TraceStoreView {
    pub events: Seq<ObjEventView>,
    pub pods: Seq<(Seq<char>, PodEntryView)>,
}

/// The shared append target of both watchers.
pub struct TraceStore {
    events: Vec<ObjEvent>,
    pods: Vec<(String, PodEntry)>,
}

impl View for TraceStore {
    type V = TraceStoreView;

    closed spec fn view(&self) -> TraceStoreView {
        TraceStoreView {
            events: self.events@.map_values(|e: ObjEvent| e@),
            pods: self.pods@.map_values(
                |e: (String, PodEntry)|
                    (
                        e.0@,
                        PodEntryView {
                            namespace: e.1.namespace@,
                            name: e.1.name@,
                            chain: e.1.chain.deep_view(),
                            data: e.1.data,
                        },
                    ),
            ),
        }
    }
}

/// What recording a pod interval does to the pod map: the first record for
/// a pod instance wins, a later one changes nothing.
pub open spec fn record_model(
    pods: Seq<(Seq<char>, PodEntryView)>,
    key: Seq<char>,
    e: PodEntryView,
) -> Seq<(Seq<char>, PodEntryView)> {
    if alist_lookup(pods, key) is Some {
        pods
    } else {
        pods.push((key, e))
    }
}

impl TraceStore {
    /// Pod keys are distinct, every recorded interval is closed and
    /// well-formed, and each key spells the entry's `namespace/name`.
    pub open spec fn wf(&self) -> bool {
        &&& alist_wf(self@.pods)
        &&& forall|i: int|
            0 <= i < self@.pods.len() ==> (#[trigger] self@.pods[i]).1.data is Finished
        &&& forall|i: int| 0 <= i < self@.pods.len() ==> (#[trigger] self@.pods[i]).1.data.valid()
        &&& forall|i: int|
            0 <= i < self@.pods.len() ==> (#[trigger] self@.pods[i]).0 == ns_name_of(
                self@.pods[i].1.namespace,
                self@.pods[i].1.name,
            )
    }

    /// The recorded interval for a pod, if one exists.
    pub open spec fn spec_pod(&self, key: Seq<char>) -> Option<PodEntryView> {
        alist_lookup(self@.pods, key)
    }

    pub fn new() -> (r: TraceStore)
        ensures
            r.wf(),
            r@.events == Seq::<ObjEventView>::empty(),
            r@.pods == Seq::<(Seq<char>, PodEntryView)>::empty(),
    {
        let r = TraceStore { events: Vec::new(), pods: Vec::new() };
        proof {
            assert(r@.events =~= Seq::<ObjEventView>::empty());
            assert(r@.pods =~= Seq::<(Seq<char>, PodEntryView)>::empty());
        }
        r
    }

    /// Append one tracked-object apply/delete observation to the log.
    pub fn record_object_event(&mut self, event: ObjEvent)
        requires
            old(self).wf(),
        ensures
            final(self).wf(),
            final(self)@.events == old(self)@.events.push(event@),
            final(self)@.pods == old(self)@.pods,
    {
        let ghost ev = event@;
        self.events.push(event);
        proof {
            assert(self@.events =~= old(self)@.events.push(ev));
            assert(self@.pods =~= old(self)@.pods);
        }
    }

    /// Record a pod's finalized interval together with its owner chain.
    /// The first record for a pod instance wins; recording the same pod
    /// again changes nothing and reports `false`.
    pub fn record_pod_lifecycle(
        &mut self,
        namespace: String,
        name: String,
        chain: Vec<OwnerRef>,
        data: PodLifecycleData,
    ) -> (recorded: bool)
        requires
            old(self).wf(),
            data is Finished,
            data.valid(),
        ensures
            final(self).wf(),
            final(self)@.events == old(self)@.events,
            final(self)@.pods == record_model(
                old(self)@.pods,
                ns_name_of(namespace@, name@),
                PodEntryView {
                    namespace: namespace@,
                    name: name@,
                    chain: chain.deep_view(),
                    data,
                },
            ),
            recorded == (old(self).spec_pod(ns_name_of(namespace@, name@)) is None),
    {
        let ghost m = self@.pods;
        let key = namespaced_name_of(&namespace, &name);
        let mut i: usize = 0;
        while i < self.pods.len()
            invariant
                old(self).wf(),
                *self == *old(self),
                m == self@.pods,
                i <= self.pods.len(),
                forall|j: int| 0 <= j < i ==> m[j].0 != key@,
                key@ == ns_name_of(namespace@, name@),
            decreases self.pods.len() - i,
        {
            if self.pods[i].0.eq(&key) {
                proof {
                    assert(alist_lookup(m, key@) is Some) by {
                        crate::alist::lemma_lookup_first_match(m, key@, i as int);
                    }
                }
                return false;
            }
            i = i + 1;
        }
        proof {
            lemma_lookup_none(m, key@);
        }
        let ghost entry = PodEntryView {
            namespace: namespace@,
            name: name@,
            chain: chain.deep_view(),
            data,
        };
        self.pods.push((key, PodEntry { namespace, name, chain, data }));
        proof {
            assert(self@.pods =~= m.push((ns_name_of(entry.namespace, entry.name), entry)));
            assert(self@.events =~= old(self)@.events);
            assert(alist_wf(self@.pods)) by {
                assert forall|a: int, b: int|
                    0 <= a < b < self@.pods.len() implies self@.pods[a].0 != self@.pods[b].0 by {
                    if b == self@.pods.len() - 1 {
                        assert(m[a].0 != key@);
                    }
                }
            }
        }
        true
    }
}

/// Trace blob marker: `tracecap` in ASCII, little-endian.
pub const TRACE_MAGIC: u64 = 0x7061636563617274;

/// Version of the trace container format.
pub const TRACE_VERSION: u64 = 1;

/// Mathematical view of [`ExportFilters`].
pub struct ExportFiltersView {
    pub excluded_namespaces: Seq<Seq<char>>,
    pub excluded_labels: Seq<Seq<(Seq<char>, Seq<char>)>>,
    pub exclude_daemonsets: bool,
}

/// What an export leaves out: entries in an excluded namespace, events
/// matching an excluded label selector, and (optionally) pods whose owner
/// chain contains a DaemonSet.  Immutable; applied uniformly at export
/// time.
pub struct ExportFilters {
    pub excluded_namespaces: Vec<String>,
    pub excluded_labels: Vec<Vec<(String, String)>>,
    pub exclude_daemonsets: bool,
}

impl View for ExportFilters {
    type V = ExportFiltersView;

    open spec fn view(&self) -> ExportFiltersView {
        ExportFiltersView {
            excluded_namespaces: self.excluded_namespaces.deep_view(),
            excluded_labels: self.excluded_labels@.map_values(
                |sel: Vec<(String, String)>| labels_view(sel@),
            ),
            exclude_daemonsets: self.exclude_daemonsets,
        }
    }
}

impl ExportFilters {
    pub fn new(
        excluded_namespaces: Vec<String>,
        excluded_labels: Vec<Vec<(String, String)>>,
        exclude_daemonsets: bool,
    ) -> (r: ExportFilters)
        ensures
            r@.excluded_namespaces == excluded_namespaces.deep_view(),
            r@.excluded_labels == excluded_labels@.map_values(
                |sel: Vec<(String, String)>| labels_view(sel@),
            ),
            r@.exclude_daemonsets == exclude_daemonsets,
    {
        ExportFilters { excluded_namespaces, excluded_labels, exclude_daemonsets }
    }
}

/// A selector matches labels that carry every one of its pairs.
pub open spec fn selector_matches(
    sel: Seq<(Seq<char>, Seq<char>)>,
    labels: Seq<(Seq<char>, Seq<char>)>,
) -> bool {
    forall|j: int| 0 <= j < sel.len() ==> labels.contains(#[trigger] sel[j])
}

/// Do the labels match any excluded selector?
pub open spec fn labels_excluded(
    f: ExportFiltersView,
    labels: Seq<(Seq<char>, Seq<char>)>,
) -> bool {
    exists|i: int| 0 <= i < f.excluded_labels.len() && selector_matches(
        #[trigger] f.excluded_labels[i],
        labels,
    )
}

/// Does any link of the chain point at a DaemonSet?
pub open spec fn chain_has_daemonset(c: Seq<OwnerRefView>) -> bool {
    exists|i: int| 0 <= i < c.len() && (#[trigger] c[i]).kind == "DaemonSet"@
}

/// An object event appears in the export when its timestamp lies in the
/// window and no filter excludes it.
pub open spec fn event_selected(e: ObjEventView, t0: i64, t1: i64, f: ExportFiltersView) -> bool {
    &&& t0 <= e.ts <= t1
    &&& !f.excluded_namespaces.contains(e.namespace)
    &&& !labels_excluded(f, e.labels)
}

/// A pod interval appears in the export when it is closed, overlaps the
/// window, and no filter excludes it.
pub open spec fn pod_selected(p: PodEntryView, t0: i64, t1: i64, f: ExportFiltersView) -> bool {
    match p.data {
        PodLifecycleData::Finished(s, e) => {
            &&& s <= t1
            &&& e >= t0
            &&& !f.excluded_namespaces.contains(p.namespace)
            &&& !(f.exclude_daemonsets && chain_has_daemonset(p.chain))
        },
        _ => false,
    }
}

/// The events an export keeps, in log order.
pub open spec fn selected_events(
    es: Seq<ObjEventView>,
    t0: i64,
    t1: i64,
    f: ExportFiltersView,
) -> Seq<ObjEventView> {
    es.filter(|e: ObjEventView| event_selected(e, t0, t1, f))
}

/// The pod intervals an export keeps, in record order.
pub open spec fn selected_pods(
    ps: Seq<(Seq<char>, PodEntryView)>,
    t0: i64,
    t1: i64,
    f: ExportFiltersView,
) -> Seq<PodEntryView> {
    ps.map_values(|e: (Seq<char>, PodEntryView)| e.1).filter(
        |p: PodEntryView| pod_selected(p, t0, t1, f),
    )
}

/// An owner reference on the wire.
pub open spec fn enc_owner_ref(r: OwnerRefView) -> Seq<u8> {
    enc_str(r.api_version) + enc_str(r.kind) + enc_str(r.name) + enc_str(r.uid)
}

/// The links of a chain on the wire, in order.
pub open spec fn enc_chain_items(c: Seq<OwnerRefView>) -> Seq<u8>
    decreases c.len(),
{
    if c.len() == 0 {
        Seq::empty()
    } else {
        enc_chain_items(c.drop_last()) + enc_owner_ref(c.last())
    }
}

/// A chain on the wire: its length, then its links.
pub open spec fn enc_chain(c: Seq<OwnerRefView>) -> Seq<u8> {
    enc_u64(c.len() as u64) + enc_chain_items(c)
}

/// A lifecycle on the wire: a tag byte, then the timestamps it carries.
pub open spec fn enc_lifecycle(d: PodLifecycleData) -> Seq<u8> {
    match d {
        PodLifecycleData::Empty => seq![0u8],
        PodLifecycleData::Running(s) => seq![1u8] + enc_ts(s),
        PodLifecycleData::Finished(s, e) => seq![2u8] + enc_ts(s) + enc_ts(e),
    }
}

/// Label pairs on the wire, in order.
pub open spec fn enc_labels_items(ls: Seq<(Seq<char>, Seq<char>)>) -> Seq<u8>
    decreases ls.len(),
{
    if ls.len() == 0 {
        Seq::empty()
    } else {
        enc_labels_items(ls.drop_last()) + enc_str(ls.last().0) + enc_str(ls.last().1)
    }
}

/// An object event on the wire.
pub open spec fn enc_event(e: ObjEventView) -> Seq<u8> {
    enc_bool(e.applied) + enc_ts(e.ts) + enc_str(e.kind) + enc_str(e.namespace) + enc_str(e.name)
        + enc_u64(e.labels.len() as u64) + enc_labels_items(e.labels) + enc_bytes(e.snapshot)
}

/// Object events on the wire, in order.
pub open spec fn enc_events_items(es: Seq<ObjEventView>) -> Seq<u8>
    decreases es.len(),
{
    if es.len() == 0 {
        Seq::empty()
    } else {
        enc_events_items(es.drop_last()) + enc_event(es.last())
    }
}

/// A pod interval on the wire.
pub open spec fn enc_pod(p: PodEntryView) -> Seq<u8> {
    enc_str(p.namespace) + enc_str(p.name) + enc_chain(p.chain) + enc_lifecycle(p.data)
}

/// Pod intervals on the wire, in order.
pub open spec fn enc_pods_items(ps: Seq<PodEntryView>) -> Seq<u8>
    decreases ps.len(),
{
    if ps.len() == 0 {
        Seq::empty()
    } else {
        enc_pods_items(ps.drop_last()) + enc_pod(ps.last())
    }
}

/// The whole trace blob an export produces: a versioned header, then the
/// selected object events behind their count, then the selected pod
/// intervals behind theirs.  A pure function of the store's state, the
/// window and the filters: an unchanged store exports identical bytes.
pub open spec fn export_model(
    sv: TraceStoreView,
    t0: i64,
    t1: i64,
    f: ExportFiltersView,
) -> Seq<u8> {
    let es = selected_events(sv.events, t0, t1, f);
    let ps = selected_pods(sv.pods, t0, t1, f);
    enc_u64(TRACE_MAGIC) + enc_u64(TRACE_VERSION) + enc_u64(es.len() as u64) + enc_events_items(es)
        + enc_u64(ps.len() as u64) + enc_pods_items(ps)
}

/// Law: nothing outside the window and nothing a filter excludes appears
/// among the exported entries, and every exported entry comes from the
/// store.
pub proof fn lemma_export_excludes(sv: TraceStoreView, t0: i64, t1: i64, f: ExportFiltersView)
    ensures
        forall|i: int|
            0 <= i < selected_events(sv.events, t0, t1, f).len() ==> event_selected(
                #[trigger] selected_events(sv.events, t0, t1, f)[i],
                t0,
                t1,
                f,
            ),
        forall|i: int|
            0 <= i < selected_events(sv.events, t0, t1, f).len() ==> sv.events.contains(
                #[trigger] selected_events(sv.events, t0, t1, f)[i],
            ),
        forall|i: int|
            0 <= i < selected_pods(sv.pods, t0, t1, f).len() ==> pod_selected(
                #[trigger] selected_pods(sv.pods, t0, t1, f)[i],
                t0,
                t1,
                f,
            ),
{
    sv.events.filter_lemma(|e: ObjEventView| event_selected(e, t0, t1, f));
    sv.pods.map_values(|e: (Seq<char>, PodEntryView)| e.1).filter_lemma(
        |p: PodEntryView| pod_selected(p, t0, t1, f),
    );
    assert forall|i: int|
        0 <= i < selected_events(sv.events, t0, t1, f).len() implies sv.events.contains(
        #[trigger] selected_events(sv.events, t0, t1, f)[i],
    ) by {
        lemma_filter_entries_contained(sv.events, |e: ObjEventView| event_selected(e, t0, t1, f), i);
    }
}

/// Every entry a filter keeps stood in the original sequence.
proof fn lemma_filter_entries_contained<A>(s: Seq<A>, pred: spec_fn(A) -> bool, i: int)
    requires
        0 <= i < s.filter(pred).len(),
    ensures
        s.contains(s.filter(pred)[i]),
    decreases s.len(),
{
    reveal(Seq::filter);
    if s.len() > 0 {
        if pred(s.last()) && i == s.filter(pred).len() - 1 {
            assert(s.filter(pred)[i] == s.last());
            assert(s[s.len() - 1] == s.last());
        } else {
            lemma_filter_entries_contained(s.drop_last(), pred, i);
            assert(s.drop_last().filter(pred)[i] == s.filter(pred)[i]);
            let w = choose|w: int|
                0 <= w < s.drop_last().len() && s.drop_last()[w] == s.filter(pred)[i];
            assert(s[w] == s.filter(pred)[i]);
        }
    }
}

/// Is the string among the excluded names?
fn contains_string(v: &Vec<String>, s: &String) -> (r: bool)
    ensures
        r == v.deep_view().contains(s@),
{
    let mut i: usize = 0;
    while i < v.len()
        invariant
            i <= v.len(),
            forall|j: int| 0 <= j < i ==> v.deep_view()[j] != s@,
        decreases v.len() - i,
    {
        if v[i].eq(s) {
            proof {
                assert(v.deep_view()[i as int] == s@);
            }
            return true;
        }
        i = i + 1;
    }
    false
}

/// Do the labels carry this pair?
fn has_label(labels: &Vec<(String, String)>, key: &String, value: &String) -> (r: bool)
    ensures
        r == labels_view(labels@).contains((key@, value@)),
{
    let mut i: usize = 0;
    while i < labels.len()
        invariant
            i <= labels.len(),
            forall|j: int| 0 <= j < i ==> labels_view(labels@)[j] != (key@, value@),
        decreases labels.len() - i,
    {
        if labels[i].0.eq(key) && labels[i].1.eq(value) {
            proof {
                assert(labels_view(labels@)[i as int] == (key@, value@));
            }
            return true;
        }
        i = i + 1;
    }
    false
}

/// Does every pair of the selector stand among the labels?
fn selector_matches_exec(sel: &Vec<(String, String)>, labels: &Vec<(String, String)>) -> (r: bool)
    ensures
        r == selector_matches(labels_view(sel@), labels_view(labels@)),
{
    let mut i: usize = 0;
    while i < sel.len()
        invariant
            i <= sel.len(),
            forall|j: int|
                0 <= j < i ==> labels_view(labels@).contains(#[trigger] labels_view(sel@)[j]),
        decreases sel.len() - i,
    {
        if !has_label(labels, &sel[i].0, &sel[i].1) {
            proof {
                assert(labels_view(sel@)[i as int] == (sel@[i as int].0@, sel@[i as int].1@));
            }
            return false;
        }
        proof {
            assert(labels_view(sel@)[i as int] == (sel@[i as int].0@, sel@[i as int].1@));
        }
        i = i + 1;
    }
    true
}

/// Do the labels match any excluded selector?
fn labels_excluded_exec(f: &ExportFilters, labels: &Vec<(String, String)>) -> (r: bool)
    ensures
        r == labels_excluded(f@, labels_view(labels@)),
{
    let mut i: usize = 0;
    while i < f.excluded_labels.len()
        invariant
            i <= f.excluded_labels.len(),
            forall|j: int|
                0 <= j < i ==> !selector_matches(
                    #[trigger] f@.excluded_labels[j],
                    labels_view(labels@),
                ),
        decreases f.excluded_labels.len() - i,
    {
        if selector_matches_exec(&f.excluded_labels[i], labels) {
            proof {
                assert(f@.excluded_labels[i as int] == labels_view(f.excluded_labels@[i as int]@));
            }
            return true;
        }
        proof {
            assert(f@.excluded_labels[i as int] == labels_view(f.excluded_labels@[i as int]@));
        }
        i = i + 1;
    }
    false
}

/// Does the export keep this event?
fn event_selected_exec(e: &ObjEvent, t0: i64, t1: i64, f: &ExportFilters) -> (r: bool)
    ensures
        r == event_selected(e@, t0, t1, f@),
{
    t0 <= e.ts && e.ts <= t1 && !contains_string(&f.excluded_namespaces, &e.namespace)
        && !labels_excluded_exec(f, &e.labels)
}

/// Does any link of the chain point at a DaemonSet?
fn chain_has_daemonset_exec(chain: &Vec<OwnerRef>) -> (r: bool)
    ensures
        r == chain_has_daemonset(chain.deep_view()),
{
    let ds = String::from_str("DaemonSet");
    let mut i: usize = 0;
    while i < chain.len()
        invariant
            ds@ == "DaemonSet"@,
            i <= chain.len(),
            forall|j: int| 0 <= j < i ==> (#[trigger] chain.deep_view()[j]).kind != "DaemonSet"@,
        decreases chain.len() - i,
    {
        if chain[i].kind.eq(&ds) {
            proof {
                assert(chain.deep_view()[i as int].kind == "DaemonSet"@);
            }
            return true;
        }
        i = i + 1;
    }
    false
}

/// Write one owner reference.
fn encode_owner_ref(out: &mut Vec<u8>, r: &OwnerRef)
    ensures
        final(out)@ == old(out)@ + enc_owner_ref(r@),
{
    let ghost pre = out@;
    push_str(out, &r.api_version);
    push_str(out, &r.kind);
    push_str(out, &r.name);
    push_str(out, &r.uid);
    proof {
        assert(out@ =~= pre + enc_owner_ref(r@));
    }
}

/// Write one owner chain behind its length.
fn encode_chain(out: &mut Vec<u8>, chain: &Vec<OwnerRef>)
    ensures
        final(out)@ == old(out)@ + enc_chain(chain.deep_view()),
{
    let ghost pre = out@;
    let ghost cv = chain.deep_view();
    push_u64(out, chain.len() as u64);
    let mut i: usize = 0;
    while i < chain.len()
        invariant
            cv == chain.deep_view(),
            i <= chain.len(),
            out@ == pre + enc_u64(cv.len() as u64) + enc_chain_items(cv.take(i as int)),
        decreases chain.len() - i,
    {
        encode_owner_ref(out, &chain[i]);
        proof {
            assert(cv.take(i + 1 as int).drop_last() =~= cv.take(i as int));
            assert(cv.take(i + 1 as int).last() == cv[i as int]);
            assert(chain@[i as int]@ == cv[i as int]);
            assert(out@ =~= pre + enc_u64(cv.len() as u64) + enc_chain_items(
                cv.take(i + 1 as int),
            ));
        }
        i = i + 1;
    }
    proof {
        assert(cv.take(cv.len() as int) =~= cv);
        assert(out@ =~= pre + enc_chain(cv));
    }
}

/// Write one lifecycle.
fn encode_lifecycle(out: &mut Vec<u8>, d: PodLifecycleData)
    ensures
        final(out)@ == old(out)@ + enc_lifecycle(d),
{
    let ghost pre = out@;
    match d {
        PodLifecycleData::Empty => {
            out.push(0u8);
        },
        PodLifecycleData::Running(s) => {
            out.push(1u8);
            push_ts(out, s);
        },
        PodLifecycleData::Finished(s, e) => {
            out.push(2u8);
            push_ts(out, s);
            push_ts(out, e);
        },
    }
    proof {
        assert(out@ =~= pre + enc_lifecycle(d));
    }
}

/// Write one object event.
fn encode_event(out: &mut Vec<u8>, e: &ObjEvent)
    ensures
        final(out)@ == old(out)@ + enc_event(e@),
{
    let ghost pre = out@;
    let ghost lv = labels_view(e.labels@);
    push_bool(out, e.applied);
    push_ts(out, e.ts);
    push_str(out, &e.kind);
    push_str(out, &e.namespace);
    push_str(out, &e.name);
    push_u64(out, e.labels.len() as u64);
    let ghost head = out@;
    let mut i: usize = 0;
    while i < e.labels.len()
        invariant
            lv == labels_view(e.labels@),
            i <= e.labels.len(),
            out@ == head + enc_labels_items(lv.take(i as int)),
        decreases e.labels.len() - i,
    {
        push_str(out, &e.labels[i].0);
        push_str(out, &e.labels[i].1);
        proof {
            assert(lv.take(i + 1 as int).drop_last() =~= lv.take(i as int));
            assert(lv.take(i + 1 as int).last() == lv[i as int]);
            assert(lv[i as int] == (e.labels@[i as int].0@, e.labels@[i as int].1@));
            assert(out@ =~= head + enc_labels_items(lv.take(i + 1 as int)));
        }
        i = i + 1;
    }
    push_bytes(out, &e.snapshot);
    proof {
        assert(lv.take(lv.len() as int) =~= lv);
        assert(out@ =~= pre + enc_event(e@));
    }
}

impl TraceStore {
    /// Write one recorded pod interval.
    fn encode_pod_entry(out: &mut Vec<u8>, e: &PodEntry)
        ensures
            final(out)@ == old(out)@ + enc_pod(
                PodEntryView {
                    namespace: e.namespace@,
                    name: e.name@,
                    chain: e.chain.deep_view(),
                    data: e.data,
                },
            ),
    {
        let ghost pre = out@;
        push_str(out, &e.namespace);
        push_str(out, &e.name);
        encode_chain(out, &e.chain);
        encode_lifecycle(out, e.data);
        proof {
            assert(out@ =~= pre + enc_pod(
                PodEntryView {
                    namespace: e.namespace@,
                    name: e.name@,
                    chain: e.chain.deep_view(),
                    data: e.data,
                },
            ));
        }
    }

    /// Export the trace captured in the window `[start_ts, end_ts]`, with
    /// the filters applied, as a self-contained binary blob.  A pure read:
    /// the store is not changed, and an unchanged store yields identical
    /// bytes.
    pub fn export(&self, start_ts: i64, end_ts: i64, filters: &ExportFilters) -> (out: Vec<u8>)
        ensures
            out@ == export_model(self@, start_ts, end_ts, filters@),
    {
        let ghost fv = filters@;
        let ghost es = self@.events;
        let mut out: Vec<u8> = Vec::new();
        push_u64(&mut out, TRACE_MAGIC);
        push_u64(&mut out, TRACE_VERSION);
        // Count, then write, the selected object events.
        let mut count: usize = 0;
        let mut i: usize = 0;
        while i < self.events.len()
            invariant
                es == self@.events,
                fv == filters@,
                i <= self.events.len(),
                count <= i,
                count == selected_events(es.take(i as int), start_ts, end_ts, fv).len(),
            decreases self.events.len() - i,
        {
            let sel = event_selected_exec(&self.events[i], start_ts, end_ts, filters);
            proof {
                reveal(Seq::filter);
                assert(es.take(i + 1 as int).drop_last() =~= es.take(i as int));
                assert(es.take(i + 1 as int).last() == es[i as int]);
                assert(es[i as int] == self.events@[i as int]@);
                es.take(i as int).lemma_filter_len(
                    |e: ObjEventView| event_selected(e, start_ts, end_ts, fv),
                );
            }
            if sel {
                count = count + 1;
            }
            i = i + 1;
        }
        proof {
            assert(es.take(es.len() as int) =~= es);
        }
        push_u64(&mut out, count as u64);
        let ghost head = out@;
        let mut i: usize = 0;
        while i < self.events.len()
            invariant
                es == self@.events,
                fv == filters@,
                i <= self.events.len(),
                out@ == head + enc_events_items(
                    selected_events(es.take(i as int), start_ts, end_ts, fv),
                ),
            decreases self.events.len() - i,
        {
            let ghost prefix = selected_events(es.take(i as int), start_ts, end_ts, fv);
            if event_selected_exec(&self.events[i], start_ts, end_ts, filters) {
                encode_event(&mut out, &self.events[i]);
            }
            proof {
                reveal(Seq::filter);
                assert(es.take(i + 1 as int).drop_last() =~= es.take(i as int));
                assert(es.take(i + 1 as int).last() == es[i as int]);
                assert(es[i as int] == self.events@[i as int]@);
                let next = selected_events(es.take(i + 1 as int), start_ts, end_ts, fv);
                if event_selected(es[i as int], start_ts, end_ts, fv) {
                    assert(next =~= prefix.push(es[i as int]));
                    assert(next.drop_last() =~= prefix);
                    assert(out@ =~= head + enc_events_items(next));
                } else {
                    assert(next =~= prefix);
                }
            }
            i = i + 1;
        }
        proof {
            assert(es.take(es.len() as int) =~= es);
        }
        // Count, then write, the selected pod intervals.
        let ghost ps = self@.pods.map_values(|e: (Seq<char>, PodEntryView)| e.1);
        let mut count: usize = 0;
        let mut i: usize = 0;
        while i < self.pods.len()
            invariant
                ps == self@.pods.map_values(|e: (Seq<char>, PodEntryView)| e.1),
                fv == filters@,
                i <= self.pods.len(),
                count <= i,
                count == ps.take(i as int).filter(
                    |p: PodEntryView| pod_selected(p, start_ts, end_ts, fv),
                ).len(),
            decreases self.pods.len() - i,
        {
            let sel = self.pod_selected_exec(i, start_ts, end_ts, filters);
            proof {
                reveal(Seq::filter);
                assert(ps.take(i + 1 as int).drop_last() =~= ps.take(i as int));
                assert(ps.take(i + 1 as int).last() == ps[i as int]);
                ps.take(i as int).lemma_filter_len(
                    |p: PodEntryView| pod_selected(p, start_ts, end_ts, fv),
                );
            }
            if sel {
                count = count + 1;
            }
            i = i + 1;
        }
        proof {
            assert(ps.take(ps.len() as int) =~= ps);
        }
        push_u64(&mut out, count as u64);
        let ghost head2 = out@;
        let mut i: usize = 0;
        while i < self.pods.len()
            invariant
                ps == self@.pods.map_values(|e: (Seq<char>, PodEntryView)| e.1),
                fv == filters@,
                i <= self.pods.len(),
                out@ == head2 + enc_pods_items(
                    ps.take(i as int).filter(
                        |p: PodEntryView| pod_selected(p, start_ts, end_ts, fv),
                    ),
                ),
            decreases self.pods.len() - i,
        {
            let ghost prefix = ps.take(i as int).filter(
                |p: PodEntryView| pod_selected(p, start_ts, end_ts, fv),
            );
            if self.pod_selected_exec(i, start_ts, end_ts, filters) {
                Self::encode_pod_entry(&mut out, &self.pods[i].1);
            }
            proof {
                reveal(Seq::filter);
                assert(ps.take(i + 1 as int).drop_last() =~= ps.take(i as int));
                assert(ps.take(i + 1 as int).last() == ps[i as int]);
                let next = ps.take(i + 1 as int).filter(
                    |p: PodEntryView| pod_selected(p, start_ts, end_ts, fv),
                );
                if pod_selected(ps[i as int], start_ts, end_ts, fv) {
                    assert(next =~= prefix.push(ps[i as int]));
                    assert(next.drop_last() =~= prefix);
                    assert(out@ =~= head2 + enc_pods_items(next));
                } else {
                    assert(next =~= prefix);
                }
            }
            i = i + 1;
        }
        proof {
            assert(ps.take(ps.len() as int) =~= ps);
            assert(out@ =~= export_model(self@, start_ts, end_ts, filters@));
        }
        out
    }

    /// Does the export keep the pod entry at `i`?
    fn pod_selected_exec(&self, i: usize, t0: i64, t1: i64, filters: &ExportFilters) -> (r: bool)
        requires
            (i as int) < self@.pods.len(),
        ensures
            r == pod_selected(self@.pods[i as int].1, t0, t1, filters@),
    {
        let e = &self.pods[i].1;
        match e.data {
            PodLifecycleData::Finished(s, en) => s <= t1 && en >= t0 && !contains_string(
                &filters.excluded_namespaces,
                &e.namespace,
            ) && !(filters.exclude_daemonsets && chain_has_daemonset_exec(&e.chain)),
            _ => false,
        }
    }

    /// How many pod intervals stand recorded.
    pub fn pod_count(&self) -> (r: usize)
        ensures
            r == self@.pods.len(),
    {
        self.pods.len()
    }

    /// How many object events stand in the log.
    pub fn event_count(&self) -> (r: usize)
        ensures
            r == self@.events.len(),
    {
        self.events.len()
    }

    /// The recorded interval for a pod, if any.
    pub fn get_pod_lifecycle(&self, ns_name: &String) -> (r: Option<PodLifecycleData>)
        ensures
            r == match self.spec_pod(ns_name@) {
                Some(e) => Some(e.data),
                None => None::<PodLifecycleData>,
            },
    {
        let ghost m = self@.pods;
        let mut i: usize = 0;
        while i < self.pods.len()
            invariant
                m == self@.pods,
                i <= self.pods.len(),
                forall|j: int| 0 <= j < i ==> m[j].0 != ns_name@,
            decreases self.pods.len() - i,
        {
            if self.pods[i].0.eq(ns_name) {
                proof {
                    crate::alist::lemma_lookup_first_match(m, ns_name@, i as int);
                }
                return Some(self.pods[i].1.data);
            }
            i = i + 1;
        }
        proof {
            lemma_lookup_none(m, ns_name@);
        }
        None
    }

    /// The recorded owner chain for a pod, if any.
    pub fn get_pod_owners(&self, ns_name: &String) -> (r: Option<Vec<OwnerRef>>)
        ensures
            r matches Some(c) ==> self.spec_pod(ns_name@) matches Some(e) && c.deep_view()
                == e.chain,
            r is None <==> self.spec_pod(ns_name@) is None,
    {
        let ghost m = self@.pods;
        let mut i: usize = 0;
        while i < self.pods.len()
            invariant
                m == self@.pods,
                i <= self.pods.len(),
                forall|j: int| 0 <= j < i ==> m[j].0 != ns_name@,
            decreases self.pods.len() - i,
        {
            if self.pods[i].0.eq(ns_name) {
                proof {
                    crate::alist::lemma_lookup_first_match(m, ns_name@, i as int);
                }
                return Some(crate::objects::clone_chain(&self.pods[i].1.chain));
            }
            i = i + 1;
        }
        proof {
            lemma_lookup_none(m, ns_name@);
        }
        None
    }
}

} // verus!
