//! Live trace capture for a Kubernetes-style cluster: a pod lifecycle state
//! machine that reconciles watch events into closed run intervals, an
//! owner-chain resolver backed by a bounded cache, and a shared trace store
//! that records object events and pod intervals and answers windowed,
//! filtered export queries as a self-contained binary blob.

use vstd::prelude::*;

pub mod alist;
pub mod cache;
pub mod codec;
pub mod lifecycle;
pub mod obj_watcher;
pub mod objects;
pub mod owners;
pub mod pod_watcher;
pub mod store;

verus! {

/// Specification of a simulation driven from an exported trace.
pub struct SimulationSpec {
    pub driver_namespace: String,
    pub trace: String,
}

/// Specification of the root object that owns a simulation's resources.
pub struct SimulationRootSpec {}

} // verus!
