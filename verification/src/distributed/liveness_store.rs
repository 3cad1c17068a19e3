//! Worker heartbeats and health, kept in memory, and the liveness verdict
//! drawn from a heartbeat's age.
use std::time::Duration;
use vstd::prelude::*;
use std::collections::HashMap;
use vstd::std_specs::hash::{builds_valid_hashers, obeys_key_model};
use vstd::std_specs::iter::IteratorSpec;
use crate::distributed::types::{LivenessStatus, LivenessStoreError};
use crate::duration::{duration_nanos, max_duration_nanos, nanos_of};

verus! {

/// What a worker is doing.
#[derive(Debug, Clone, Copy, PartialEq, Eq, Structural)]
pub enum WorkerStatus {
    Idle,
    InProgress,
    /// (attempt, max_attempts)
    Retrying(usize, usize),
}

impl Default for WorkerStatus {
    fn default() -> (s: Self)
        ensures
            s == WorkerStatus::Idle,
    {
        WorkerStatus::Idle
    }
}

/// Health and status information for a workflow worker. The heartbeat is
/// in milliseconds since the Unix epoch (UTC).
#[derive(Debug)]
pub struct WorkerHealth {
    /// Unique worker ID.
    pub worker_id: usize,
    /// Timestamp of the last heartbeat.
    pub last_heartbeat: i64,
    /// Number of errors encountered by this worker.
    pub error_count: usize,
    /// What the worker is doing.
    pub status: WorkerStatus,
    /// Worker's current work item.
    pub current_work_item: Option<String>,
    /// Worker's current work item's run ID.
    pub current_work_item_run_id: Option<String>,
}

impl WorkerHealth {
    /// The health a worker starts with: everything zero, idle, no item.
    pub open spec fn initial() -> WorkerHealth {
        WorkerHealth {
            worker_id: 0,
            last_heartbeat: 0,
            error_count: 0,
            status: WorkerStatus::Idle,
            current_work_item: None,
            current_work_item_run_id: None,
        }
    }
}

impl Default for WorkerHealth {
    fn default() -> (h: Self)
        ensures
            h == WorkerHealth::initial(),
    {
        WorkerHealth {
            worker_id: 0,
            last_heartbeat: 0,
            error_count: 0,
            status: WorkerStatus::Idle,
            current_work_item: None,
            current_work_item_run_id: None,
        }
    }
}

/// A copy of an optional string.
fn clone_opt_string(s: &Option<String>) -> (r: Option<String>)
    ensures
        r == *s,
{
    match s {
        Some(v) => Some(v.clone()),
        None => None,
    }
}

impl Clone for WorkerHealth {
    fn clone(&self) -> (r: Self)
        ensures
            r == *self,
    {
        WorkerHealth {
            worker_id: self.worker_id,
            last_heartbeat: self.last_heartbeat,
            error_count: self.error_count,
            status: self.status,
            current_work_item: clone_opt_string(&self.current_work_item),
            current_work_item_run_id: clone_opt_string(&self.current_work_item_run_id),
        }
    }
}

/// In-memory heartbeats and health of workers, by worker id.
pub struct InMemoryLivenessStore {
    heartbeats: HashMap<usize, i64>,
    health: HashMap<usize, WorkerHealth>,
}

impl InMemoryLivenessStore {
    /// The last heartbeat of `worker_id`, if any.
    pub closed spec fn spec_heartbeat(&self, worker_id: usize) -> Option<i64> {
        if self.heartbeats@.contains_key(worker_id) { Some(self.heartbeats@[worker_id]) } else { None }
    }

    /// The workers that sent a heartbeat.
    pub closed spec fn spec_workers(&self) -> Set<usize> {
        self.heartbeats@.dom()
    }

    /// The health recorded for `worker_id`, if any.
    pub closed spec fn spec_health(&self, worker_id: usize) -> Option<WorkerHealth> {
        if self.health@.contains_key(worker_id) { Some(self.health@[worker_id]) } else { None }
    }

    /// The workers with a health record.
    pub closed spec fn spec_health_workers(&self) -> Set<usize> {
        self.health@.dom()
    }

    pub closed spec fn wf(&self) -> bool {
        &&& obeys_key_model::<usize>()
        &&& builds_valid_hashers::<std::hash::RandomState>()
    }

    /// An empty store.
    pub fn new() -> (s: Self)
        ensures
            s.wf(),
            s.spec_workers() == Set::<usize>::empty(),
            s.spec_health_workers() == Set::<usize>::empty(),
            forall|w: usize| s.spec_heartbeat(w) is None && s.spec_health(w) is None,
    {
        broadcast use vstd::std_specs::hash::group_hash_axioms;
        let s = InMemoryLivenessStore { heartbeats: HashMap::new(), health: HashMap::new() };
        proof {
            assert(s.heartbeats@.dom() =~= Set::<usize>::empty());
            assert(s.health@.dom() =~= Set::<usize>::empty());
        }
        s
    }

    /// Record a heartbeat of `worker_id` at `timestamp`.
    pub fn update_heartbeat(&mut self, worker_id: usize, timestamp: i64) -> (r: Result<(), LivenessStoreError>)
        requires
            old(self).wf(),
        ensures
            final(self).wf(),
            r is Ok,
            final(self).spec_heartbeat(worker_id) == Some(timestamp),
            forall|w: usize| w != worker_id ==> final(self).spec_heartbeat(w) == old(self).spec_heartbeat(w),
            forall|w: usize| final(self).spec_health(w) == old(self).spec_health(w),
            final(self).spec_health_workers() == old(self).spec_health_workers(),
            final(self).spec_workers() == old(self).spec_workers().insert(worker_id),
    {
        self.heartbeats.insert(worker_id, timestamp);
        Ok(())
    }

    /// The last heartbeat of `worker_id`, if any.
    pub fn get_heartbeat(&self, worker_id: usize) -> (r: Result<Option<i64>, LivenessStoreError>)
        requires
            self.wf(),
        ensures
            r == Ok::<Option<i64>, LivenessStoreError>(self.spec_heartbeat(worker_id)),
    {
        match self.heartbeats.get(&worker_id) {
            Some(t) => Ok(Some(*t)),
            None => Ok(None),
        }
    }

    /// All workers that sent a heartbeat, each once, in the map's order.
    pub fn list_workers(&self) -> (r: Result<Vec<usize>, LivenessStoreError>)
        requires
            self.wf(),
        ensures
            r matches Ok(v) && v@.to_set() == self.spec_workers() && v@.no_duplicates(),
    {
        broadcast use vstd::std_specs::hash::group_hash_axioms;
        let mut out: Vec<usize> = Vec::new();
        let keys = self.heartbeats.keys();
        let ghost ks = IteratorSpec::remaining(&keys);
        for k in it: keys
            invariant
                self.wf(),
                it.seq() == ks,
                out@ == it.seq().take(it.index() as int).map_values(|k: &usize| *k),
        {
            proof {
                assert(it.seq().take(it.index() as int + 1).map_values(|k: &usize| *k)
                    =~= it.seq().take(it.index() as int).map_values(|k: &usize| *k).push(*k));
            }
            out.push(*k);
        }
        proof {
            assert(ks.take(ks.len() as int) =~= ks);
            assert(out@ =~= ks.unref());
        }
        Ok(out)
    }

    /// Record the health of `worker_id`.
    pub fn update_health(&mut self, worker_id: usize, health: WorkerHealth) -> (r: Result<(), LivenessStoreError>)
        requires
            old(self).wf(),
        ensures
            final(self).wf(),
            r is Ok,
            final(self).spec_health(worker_id) == Some(health),
            forall|w: usize| w != worker_id ==> final(self).spec_health(w) == old(self).spec_health(w),
            forall|w: usize| final(self).spec_heartbeat(w) == old(self).spec_heartbeat(w),
            final(self).spec_workers() == old(self).spec_workers(),
            final(self).spec_health_workers() == old(self).spec_health_workers().insert(worker_id),
    {
        self.health.insert(worker_id, health);
        Ok(())
    }

    /// The health recorded for `worker_id`, if any.
    pub fn get_health(&self, worker_id: usize) -> (r: Result<Option<WorkerHealth>, LivenessStoreError>)
        requires
            self.wf(),
        ensures
            r == Ok::<Option<WorkerHealth>, LivenessStoreError>(self.spec_health(worker_id)),
    {
        match self.health.get(&worker_id) {
            Some(h) => Ok(Some(h.clone())),
            None => Ok(None),
        }
    }

    /// The health records of all workers, one per worker, in the map's
    /// order.
    pub fn list_health(&self) -> (r: Result<Vec<WorkerHealth>, LivenessStoreError>)
        requires
            self.wf(),
        ensures
            r matches Ok(v) && exists|ws: Seq<usize>| {
                &&& ws.no_duplicates()
                &&& ws.to_set() == self.spec_health_workers()
                &&& v@.len() == ws.len()
                &&& forall|i: int| 0 <= i < ws.len() ==> self.spec_health(#[trigger] ws[i]) == Some(v@[i])
            },
    {
        let mut out: Vec<WorkerHealth> = Vec::new();
        broadcast use vstd::std_specs::hash::group_hash_axioms;
        let ghost mut ws: Seq<usize> = Seq::empty();
        let keys = self.health.keys();
        let ghost ks = IteratorSpec::remaining(&keys);
        for k in it: keys
            invariant
                self.wf(),
                it.seq() == ks,
                ks.unref().to_set() == self.health@.dom(),
                ws == it.seq().take(it.index() as int).map_values(|k: &usize| *k),
                out@.len() == ws.len(),
                forall|i: int| 0 <= i < ws.len() ==> self.spec_health(#[trigger] ws[i]) == Some(out@[i]),
        {
            proof {
                assert(self.health@.dom().contains(*k)) by {
                    assert(ks.unref().contains(*k)) by {
                        assert(ks.unref()[it.index() as int] == *k);
                    }
                }
            }
            let h = self.health.get(k).unwrap().clone();
            let ghost old_ws = ws;
            out.push(h);
            proof {
                ws = ws.push(*k);
                assert(it.seq().take(it.index() as int + 1).map_values(|k: &usize| *k) =~= ws);
                assert forall|i: int| 0 <= i < ws.len() implies self.spec_health(#[trigger] ws[i]) == Some(out@[i]) by {
                    if i < old_ws.len() {
                        assert(ws[i] == old_ws[i]);
                    }
                }
            }
        }
        proof {
            assert(ks.take(ks.len() as int) =~= ks);
            assert(ws =~= ks.unref());
        }
        Ok(out)
    }
}

/// The liveness verdict for a heartbeat whose age is `elapsed` nanoseconds
/// (none: never heard from): alive under the threshold, stale under three
/// thresholds, dead otherwise.
pub open spec fn spec_liveness(elapsed: Option<nat>, threshold: nat) -> LivenessStatus {
    match elapsed {
        None => LivenessStatus::Dead,
        Some(e) => if e < threshold {
            LivenessStatus::Alive
        } else if e < threshold * 3 {
            LivenessStatus::Stale
        } else {
            LivenessStatus::Dead
        },
    }
}

/// The age in nanoseconds of a heartbeat sent at `heartbeat` ms, seen at
/// `now` ms: a heartbeat from the future counts as infinitely old
/// (`Duration::MAX`).
pub open spec fn heartbeat_age_nanos(now: i64, heartbeat: i64) -> nat {
    if now - heartbeat >= 0 {
        ((now - heartbeat) * 1000000) as nat
    } else {
        max_duration_nanos()
    }
}

/// The liveness of a worker whose last heartbeat (if any) was at
/// `heartbeat`, seen at `now`. Three thresholds must fit in a `Duration`.
pub fn liveness_status(now: i64, heartbeat: Option<i64>, threshold: Duration) -> (s: LivenessStatus)
    requires
        duration_nanos(threshold) * 3 <= max_duration_nanos(),
    ensures
        s == spec_liveness(
            match heartbeat { Some(h) => Some(heartbeat_age_nanos(now, h)), None => None },
            duration_nanos(threshold),
        ),
{
    let t = nanos_of(&threshold);
    match heartbeat {
        None => LivenessStatus::Dead,
        Some(h) => {
            let elapsed: u128 = if (now as i128) - (h as i128) >= 0 {
                (((now as i128) - (h as i128)) as u128) * 1000000
            } else {
                18446744073709551615u128 * 1000000000u128 + 999999999u128
            };
            if elapsed < t {
                LivenessStatus::Alive
            } else if elapsed < t * 3 {
                LivenessStatus::Stale
            } else {
                LivenessStatus::Dead
            }
        },
    }
}

} // verus!
