//! The dynamic object watcher: forwards apply/delete snapshots of the
//! configured tracked object kinds to the trace store.
//!
//! Object presence and absence over time is the full signal here: no
//! lifecycle reasoning happens, each observation is appended to the store's
//! log with the time it was seen.  The caller opens one watch stream per
//! tracked kind (see [`DynObjWatcher::tracks`]) and hands every event in.

use vstd::prelude::*;

use crate::store::{ObjEvent, TraceStore};

verus! {

/// The configured set of tracked object kinds.
pub struct DynObjWatcher {
    tracked_kinds: Vec<String>,
}

impl DynObjWatcher {
    /// The kinds this watcher captures.
    pub closed spec fn spec_kinds(&self) -> Seq<Seq<char>> {
        self.tracked_kinds.deep_view()
    }

    pub fn new(tracked_kinds: Vec<String>) -> (r: DynObjWatcher)
        ensures
            r.spec_kinds() == tracked_kinds.deep_view(),
    {
        DynObjWatcher { tracked_kinds }
    }

    /// Is this kind configured for capture?
    pub fn tracks(&self, kind: &String) -> (r: bool)
        ensures
            r == self.spec_kinds().contains(kind@),
    {
        let mut i: usize = 0;
        while i < self.tracked_kinds.len()
            invariant
                i <= self.tracked_kinds.len(),
                forall|j: int| 0 <= j < i ==> self.spec_kinds()[j] != kind@,
            decreases self.tracked_kinds.len() - i,
        {
            if self.tracked_kinds[i].eq(kind) {
                proof {
                    assert(self.spec_kinds()[i as int] == kind@);
                }
                return true;
            }
            i = i + 1;
        }
        false
    }

    /// Forward one apply/delete observation of a tracked object to the
    /// store, stamped with the time it was seen.
    pub fn handle_obj_event(
        &self,
        applied: bool,
        kind: String,
        namespace: String,
        name: String,
        labels: Vec<(String, String)>,
        snapshot: Vec<u8>,
        now: i64,
        store: &mut TraceStore,
    )
        requires
            old(store).wf(),
        ensures
            final(store).wf(),
            final(store)@.pods == old(store)@.pods,
            final(store)@.events.len() == old(store)@.events.len() + 1,
            ({
                let e = final(store)@.events.last();
                &&& final(store)@.events.drop_last() == old(store)@.events
                &&& e.applied == applied
                &&& e.kind == kind@
                &&& e.namespace == namespace@
                &&& e.name == name@
                &&& e.snapshot == snapshot@
                &&& e.ts == now
            }),
    {
        let event = ObjEvent { applied, kind, namespace, name, labels, snapshot, ts: now };
        let ghost ev = event@;
        store.record_object_event(event);
        proof {
            assert(final(store)@.events.drop_last() =~= old(store)@.events);
        }
    }
}

} // verus!
