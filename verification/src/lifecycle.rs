//! Pod lifecycle intervals and their computation from container statuses.

use vstd::prelude::*;

verus! {

/// What is known about a pod's run interval.
///
/// `Empty` means no container start or end has been observed; `Running`
/// carries the earliest observed container start; `Finished` carries the
/// closed interval and is immutable once recorded to the store.
#[derive(Clone, Copy, Debug, PartialEq, Eq, Structural)]
pub enum PodLifecycleData {
    Empty,
    Running(i64),
    Finished(i64, i64),
}

impl PodLifecycleData {
    /// A closed interval never ends before it starts.
    pub open spec fn valid(self) -> bool {
        match self {
            PodLifecycleData::Finished(start_ts, end_ts) => start_ts <= end_ts,
            _ => true,
        }
    }

    pub open spec fn is_empty(self) -> bool {
        self is Empty
    }

    pub open spec fn is_running(self) -> bool {
        self is Running
    }

    pub open spec fn is_finished(self) -> bool {
        self is Finished
    }

    /// Every start timestamp mentioned by this state is at or before `ts`.
    pub open spec fn starts_before(self, ts: i64) -> bool {
        match self {
            PodLifecycleData::Empty => true,
            PodLifecycleData::Running(start_ts) => start_ts <= ts,
            PodLifecycleData::Finished(start_ts, _) => start_ts <= ts,
        }
    }

    /// Close an interval that is still open: a running pod ends now, a
    /// finished pod keeps its interval, and an empty state stays empty.
    pub open spec fn spec_finalized(self, now: i64) -> PodLifecycleData {
        match self {
            PodLifecycleData::Empty => PodLifecycleData::Empty,
            PodLifecycleData::Running(start_ts) => PodLifecycleData::Finished(start_ts, now),
            PodLifecycleData::Finished(start_ts, end_ts) => PodLifecycleData::Finished(
                start_ts,
                end_ts,
            ),
        }
    }

    /// Executable twin of [`Self::spec_finalized`].
    pub fn finalized(self, now: i64) -> (r: PodLifecycleData)
        ensures
            r == self.spec_finalized(now),
    {
        match self {
            PodLifecycleData::Empty => PodLifecycleData::Empty,
            PodLifecycleData::Running(start_ts) => PodLifecycleData::Finished(start_ts, now),
            PodLifecycleData::Finished(start_ts, end_ts) => PodLifecycleData::Finished(
                start_ts,
                end_ts,
            ),
        }
    }
}

/// What a pod reports about one of its containers: when it started and, if it
/// has terminated, when it ended.  Missing data is a valid observation.
#[derive(Clone, Copy, Debug, PartialEq, Eq, Structural)]
pub struct ContainerStatus {
    pub started_at: Option<i64>,
    pub finished_at: Option<i64>,
}

/// The earliest container start observed in `cs`, if any.
pub open spec fn earliest_start(cs: Seq<ContainerStatus>) -> Option<i64>
    decreases cs.len(),
{
    if cs.len() == 0 {
        None
    } else {
        let prefix = earliest_start(cs.drop_last());
        match (prefix, cs.last().started_at) {
            (None, s) => s,
            (Some(p), None) => Some(p),
            (Some(p), Some(s)) => if s < p {
                Some(s)
            } else {
                Some(p)
            },
        }
    }
}

/// The latest container end observed in `cs`, if any.
pub open spec fn latest_finish(cs: Seq<ContainerStatus>) -> Option<i64>
    decreases cs.len(),
{
    if cs.len() == 0 {
        None
    } else {
        let prefix = latest_finish(cs.drop_last());
        match (prefix, cs.last().finished_at) {
            (None, e) => e,
            (Some(p), None) => Some(p),
            (Some(p), Some(e)) => if e > p {
                Some(e)
            } else {
                Some(p)
            },
        }
    }
}

/// The lifecycle a set of container statuses amounts to: `Empty` when no
/// start was observed (including the malformed case of an end before any
/// start), `Running` at the earliest start when nothing has ended, and
/// `Finished` over the observed extremes otherwise.
pub open spec fn lifecycle_of(cs: Seq<ContainerStatus>) -> PodLifecycleData {
    match (earliest_start(cs), latest_finish(cs)) {
        (None, _) => PodLifecycleData::Empty,
        (Some(s), None) => PodLifecycleData::Running(s),
        (Some(s), Some(e)) => if s <= e {
            PodLifecycleData::Finished(s, e)
        } else {
            PodLifecycleData::Empty
        },
    }
}

/// The computed lifecycle is always a well-formed interval.
pub proof fn lemma_lifecycle_of_valid(cs: Seq<ContainerStatus>)
    ensures
        lifecycle_of(cs).valid(),
{
}

/// Compute the lifecycle a pod's container statuses amount to.
///
/// Malformed or missing status data yields `Empty`, never an error.
pub fn container_lifecycle(containers: &Vec<ContainerStatus>) -> (r: PodLifecycleData)
    ensures
        r == lifecycle_of(containers@),
        r.valid(),
{
    let mut start: Option<i64> = None;
    let mut end: Option<i64> = None;
    let mut i: usize = 0;
    while i < containers.len()
        invariant
            i <= containers.len(),
            start == earliest_start(containers@.take(i as int)),
            end == latest_finish(containers@.take(i as int)),
        decreases containers.len() - i,
    {
        let c = containers[i];
        proof {
            assert(containers@.take(i + 1 as int).drop_last() =~= containers@.take(i as int));
            assert(containers@.take(i + 1 as int).last() == containers@[i as int]);
        }
        if let Some(s) = c.started_at {
            start = match start {
                None => Some(s),
                Some(p) => if s < p {
                    Some(s)
                } else {
                    Some(p)
                },
            };
        }
        if let Some(e) = c.finished_at {
            end = match end {
                None => Some(e),
                Some(p) => if e > p {
                    Some(e)
                } else {
                    Some(p)
                },
            };
        }
        i = i + 1;
    }
    proof {
        assert(containers@.take(containers@.len() as int) =~= containers@);
    }
    match (start, end) {
        (None, _) => PodLifecycleData::Empty,
        (Some(s), None) => PodLifecycleData::Running(s),
        (Some(s), Some(e)) => if s <= e {
            PodLifecycleData::Finished(s, e)
        } else {
            PodLifecycleData::Empty
        },
    }
}

} // verus!
