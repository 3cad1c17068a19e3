//! The decisions an orchestrator makes about runs: how a run is resumed,
//! which items are queued again, and which workers are alive.
use std::time::Duration;
use vstd::prelude::*;
use vstd::std_specs::cmp::PartialEqSpec;
use crate::clock::utc_now_millis;
use crate::distributed::liveness_store::{heartbeat_age_nanos, liveness_status, spec_liveness, InMemoryLivenessStore};
use crate::distributed::types::{LivenessStatus, RunInfo, RunStatus};
use crate::distributed::work_item_store::{WorkItemState, WorkItemStatus};
use crate::duration::{duration_nanos, max_duration_nanos, nanos_of};
use crate::error::FloxideError;
use crate::workflow::WorkItem;

verus! {

/// What resuming a run does, by the run's status.
#[derive(Debug, Clone, Copy, PartialEq, Eq, Structural)]
pub enum ResumeAction {
    /// The run is running: nothing to do.
    Nothing,
    /// The run failed: queue its unfinished items again and run it.
    RequeueUnfinished,
    /// The run is paused: set all its items pending and run it.
    ResetToPending,
}

/// How a run in state `status` is resumed: a running run is left alone, a
/// failed one has its unfinished items queued again, a paused one has its
/// items set pending; a completed run cannot be resumed (a generic error),
/// nor a cancelled one (`AlreadyCompleted`).
pub fn resume_decision(status: RunStatus) -> (r: Result<ResumeAction, FloxideError>)
    ensures
        match status {
            RunStatus::Running => r == Ok::<ResumeAction, FloxideError>(ResumeAction::Nothing),
            RunStatus::Failed => r == Ok::<ResumeAction, FloxideError>(ResumeAction::RequeueUnfinished),
            RunStatus::Paused => r == Ok::<ResumeAction, FloxideError>(ResumeAction::ResetToPending),
            RunStatus::Completed => r matches Err(FloxideError::Generic(m)) && m@ == "run already completed"@,
            RunStatus::Cancelled => r matches Err(FloxideError::AlreadyCompleted),
        },
{
    match status {
        RunStatus::Running => Ok(ResumeAction::Nothing),
        RunStatus::Failed => Ok(ResumeAction::RequeueUnfinished),
        RunStatus::Paused => Ok(ResumeAction::ResetToPending),
        RunStatus::Completed => {
            let m = "run already completed".to_string();
            Err(FloxideError::Generic(m))
        },
        RunStatus::Cancelled => Err(FloxideError::AlreadyCompleted),
    }
}

/// The status of a run, from its record: `NotStarted` when there is none.
pub fn status_of(info: Option<RunInfo>) -> (r: Result<RunStatus, FloxideError>)
    ensures
        match info {
            Some(i) => r == Ok::<RunStatus, FloxideError>(i.status),
            None => r matches Err(FloxideError::NotStarted),
        },
{
    match info {
        Some(i) => Ok(i.status),
        None => Err(FloxideError::NotStarted),
    }
}

/// Whether `item` equals one of `pending` by its `==`.
pub open spec fn is_pending<W: PartialEq>(pending: Seq<W>, item: W) -> bool {
    exists|j: int| 0 <= j < pending.len() && (#[trigger] pending[j]).eq_spec(&item)
}

/// The items of a failed run to queue again: those not completed and not
/// already pending, in order.
pub open spec fn requeue_filter<W: PartialEq>(pending: Seq<W>) -> spec_fn(WorkItemState<W>) -> bool {
    |s: WorkItemState<W>| s.status != WorkItemStatus::Completed && !is_pending(pending, s.work_item)
}

/// The items a failed run queues again are its items that are not
/// completed and not pending, every one of them (whether it failed for
/// good, waits for a retry, or is in any other unfinished state) and no
/// others, in the order of `items`.
pub proof fn lemma_requeue_chooses_unfinished<W: PartialEq>(items: Seq<WorkItemState<W>>, pending: Seq<W>)
    ensures
        forall|i: int| 0 <= i < items.len() && items[i].status != WorkItemStatus::Completed
            && !is_pending(pending, items[i].work_item)
            ==> #[trigger] items.filter(requeue_filter(pending)).contains(items[i]),
        forall|x: WorkItemState<W>| #[trigger] items.filter(requeue_filter(pending)).contains(x)
            ==> items.contains(x) && x.status != WorkItemStatus::Completed && !is_pending(pending, x.work_item),
        items.filter(requeue_filter(pending)).len() <= items.len(),
{
    broadcast use vstd::seq_lib::group_filter_ensures;
    assert forall|i: int| 0 <= i < items.len() && items[i].status != WorkItemStatus::Completed
        && !is_pending(pending, items[i].work_item)
        implies #[trigger] items.filter(requeue_filter(pending)).contains(items[i]) by {
        items.lemma_filter_contains(requeue_filter(pending), i);
    }
    assert forall|x: WorkItemState<W>| #[trigger] items.filter(requeue_filter(pending)).contains(x)
        implies items.contains(x) && x.status != WorkItemStatus::Completed && !is_pending(pending, x.work_item) by {
        items.lemma_filter_contains_rev(requeue_filter(pending), x);
        let f = items.filter(requeue_filter(pending));
        let m = choose|m: int| 0 <= m < f.len() && f[m] == x;
        assert(requeue_filter(pending)(f[m]));
    }
}

/// Whether `item` is among `pending`.
fn contains_item<W: PartialEq>(pending: &Vec<W>, item: &W) -> (r: bool)
    ensures
        W::obeys_eq_spec() ==> r == is_pending(pending@, *item),
{
    let mut j: usize = 0;
    while j < pending.len()
        invariant
            j <= pending@.len(),
            W::obeys_eq_spec() ==> forall|k: int| 0 <= k < j ==> !(#[trigger] pending@[k]).eq_spec(item),
        decreases pending@.len() - j,
    {
        if pending[j] == *item {
            proof {
                if W::obeys_eq_spec() {
                    assert(pending@[j as int].eq_spec(item));
                }
            }
            return true;
        }
        j += 1;
    }
    false
}

/// Whether `picked` lists positions of `items`, in increasing order, each
/// of a state that is not completed, and `r` holds a copy of the work item
/// at each listed position.
pub open spec fn picks_unfinished<W: Clone>(items: Seq<WorkItemState<W>>, picked: Seq<int>, r: Seq<W>) -> bool {
    &&& picked.len() == r.len()
    &&& forall|k: int| 0 <= k < picked.len() ==> {
        &&& 0 <= #[trigger] picked[k] < items.len()
        &&& items[picked[k]].status != WorkItemStatus::Completed
        &&& cloned(items[picked[k]].work_item, r[k])
    }
    &&& forall|k: int, l: int| 0 <= k < l < picked.len() ==> #[trigger] picked[k] < #[trigger] picked[l]
}

/// Copies of the work items of a failed run that must be queued again:
/// every item not completed and not already pending, in the order of
/// `items`. Whatever `==` on work items does, the result holds copies of
/// items that are not completed, in their order, each at most once.
pub fn items_to_requeue<W: WorkItem + PartialEq>(items: &Vec<WorkItemState<W>>, pending: &Vec<W>) -> (r: Vec<W>)
    ensures
        exists|picked: Seq<int>| #[trigger] picks_unfinished(items@, picked, r@),
        r@.len() <= items@.len(),
        W::obeys_eq_spec() ==> ({
            let chosen = items@.filter(requeue_filter(pending@));
            &&& r@.len() == chosen.len()
            &&& forall|i: int| 0 <= i < chosen.len() ==> cloned((#[trigger] chosen[i]).work_item, r@[i])
        }),
{
    let ghost pred = requeue_filter(pending@);
    let ghost mut picked: Seq<int> = Seq::empty();
    let mut out: Vec<W> = Vec::new();
    let mut i: usize = 0;
    while i < items.len()
        invariant
            i <= items@.len(),
            pred == requeue_filter(pending@),
            picks_unfinished(items@, picked, out@),
            forall|k: int| 0 <= k < picked.len() ==> #[trigger] picked[k] < i,
            out@.len() <= i,
            W::obeys_eq_spec() ==> ({
                let chosen = items@.take(i as int).filter(pred);
                &&& out@.len() == chosen.len()
                &&& forall|k: int| 0 <= k < chosen.len() ==> cloned((#[trigger] chosen[k]).work_item, out@[k])
            }),
        decreases items@.len() - i,
    {
        let s = &items[i];
        let not_done = match s.status {
            WorkItemStatus::Completed => false,
            _ => true,
        };
        let keep = not_done && !contains_item(pending, &s.work_item);
        proof {
            items@.take(i as int).lemma_filter_push(items@[i as int], pred);
            assert(items@.take(i as int).push(items@[i as int]) =~= items@.take(i as int + 1));
        }
        if keep {
            let w = s.work_item.clone();
            let ghost before = out@;
            out.push(w);
            proof {
                let old_picked = picked;
                picked = picked.push(i as int);
                assert forall|k: int| 0 <= k < picked.len() implies {
                    &&& 0 <= #[trigger] picked[k] < items@.len()
                    &&& items@[picked[k]].status != WorkItemStatus::Completed
                    &&& cloned(items@[picked[k]].work_item, out@[k])
                } by {
                    if k < old_picked.len() {
                        assert(picked[k] == old_picked[k]);
                        assert(out@[k] == before[k]);
                    }
                }
                assert forall|k: int, l: int| 0 <= k < l < picked.len() implies #[trigger] picked[k] < #[trigger] picked[l] by {
                    if l < old_picked.len() {
                        assert(picked[k] == old_picked[k] && picked[l] == old_picked[l]);
                    } else {
                        assert(picked[k] == old_picked[k]);
                    }
                }
            }
        }
        i += 1;
    }
    proof { assert(items@.take(items@.len() as int) =~= items@); }
    out
}

impl InMemoryLivenessStore {
    /// Whether `report` gives, for each of `ids` in order, the liveness
    /// of that worker as seen at time `now`.
    pub open spec fn liveness_report_at(&self, now: i64, ids: Seq<usize>, threshold: Duration, report: Seq<(usize, LivenessStatus)>) -> bool {
        forall|i: int| 0 <= i < ids.len() ==> {
            &&& (#[trigger] report[i]).0 == ids[i]
            &&& report[i].1 == spec_liveness(
                match self.spec_heartbeat(ids[i]) {
                    Some(h) => Some(heartbeat_age_nanos(now, h)),
                    None => None,
                },
                duration_nanos(threshold),
            )
        }
    }

    /// The liveness of each of `worker_ids`, by the age of its last
    /// heartbeat at the current time: alive under `threshold`, stale under
    /// three times `threshold`, dead otherwise or if never heard from.
    pub fn check_worker_liveness(&self, worker_ids: &[usize], threshold: Duration) -> (r: Vec<(usize, LivenessStatus)>)
        requires
            self.wf(),
            duration_nanos(threshold) * 3 <= max_duration_nanos(),
        ensures
            r@.len() == worker_ids@.len(),
            exists|now: i64| #[trigger] self.liveness_report_at(now, worker_ids@, threshold, r@),
    {
        let now = utc_now_millis();
        let mut statuses: Vec<(usize, LivenessStatus)> = Vec::new();
        let mut i: usize = 0;
        while i < worker_ids.len()
            invariant
                self.wf(),
                duration_nanos(threshold) * 3 <= max_duration_nanos(),
                i <= worker_ids@.len(),
                statuses@.len() == i,
                forall|k: int| 0 <= k < i ==> {
                    &&& (#[trigger] statuses@[k]).0 == worker_ids@[k]
                    &&& statuses@[k].1 == spec_liveness(
                        match self.spec_heartbeat(worker_ids@[k]) {
                            Some(h) => Some(heartbeat_age_nanos(now, h)),
                            None => None,
                        },
                        duration_nanos(threshold),
                    )
                },
            decreases worker_ids@.len() - i,
        {
            let worker_id = worker_ids[i];
            let heartbeat = match self.get_heartbeat(worker_id) {
                Ok(h) => h,
                Err(_) => None,
            };
            let status = liveness_status(now, heartbeat, threshold);
            statuses.push((worker_id, status));
            i += 1;
        }
        assert(self.liveness_report_at(now, worker_ids@, threshold, statuses@));
        statuses
    }

    /// The liveness report of `check_worker_liveness`, or `None` when three
    /// times `threshold` does not fit in a `Duration` (where the threshold
    /// arithmetic would overflow).
    pub fn checked_worker_liveness(&self, worker_ids: &[usize], threshold: Duration) -> (r: Option<Vec<(usize, LivenessStatus)>>)
        requires
            self.wf(),
        ensures
            r is None <==> duration_nanos(threshold) * 3 > max_duration_nanos(),
            r matches Some(v) ==> v@.len() == worker_ids@.len()
                && exists|now: i64| #[trigger] self.liveness_report_at(now, worker_ids@, threshold, v@),
    {
        let t = nanos_of(&threshold);
        if t * 3 <= 18446744073709551615u128 * 1000000000u128 + 999999999u128 {
            Some(self.check_worker_liveness(worker_ids, threshold))
        } else {
            None
        }
    }
}

} // verus!
