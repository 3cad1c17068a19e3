//! Work items, and the bookkeeping of a workflow run between the steps
//! that its nodes take.
use std::collections::VecDeque;
use vstd::prelude::*;
use crate::error::FloxideError;
use crate::checkpoint::Checkpoint;

verus! {

/// A workflow work item: a node together with its input.
///
/// Implementations identify each instance within a run, and say whether
/// the item is a terminal node (one without successors).
pub trait WorkItem: Clone + Sized {
    /// Returns a unique identifier for this work item instance.
    fn instance_id(&self) -> String;

    /// Returns true if this work item is a terminal node (no successors).
    fn is_terminal(&self) -> bool;
}

/// The shared context of a workflow run: any value that has a default and
/// can be copied and shared between threads.
pub trait Context: Default + Clone + Send + Sync {}

impl<T: Default + Clone + Send + Sync> Context for T {}

/// The queue a run starts from: just the start node's work item.
pub fn initial_queue<WI>(item: WI) -> (q: VecDeque<WI>)
    ensures
        q@ == seq![item],
{
    let mut q = VecDeque::new();
    q.push_back(item);
    proof { assert(q@ =~= seq![item]); }
    q
}

/// Whether a run restored from a checkpoint whose queue is `queue` may go
/// on: not if nothing is pending, nor if all that is pending is one
/// terminal item (`AlreadyCompleted` then).
pub fn resume_precheck<WI: WorkItem>(queue: &VecDeque<WI>) -> (r: Result<(), FloxideError>)
    ensures
        queue@.len() == 0 ==> r matches Err(FloxideError::AlreadyCompleted),
        queue@.len() == 1 ==> exists|t: bool| #[trigger] call_ensures(WI::is_terminal, (&queue@[0],), t)
            && if t { r matches Err(FloxideError::AlreadyCompleted) } else { r is Ok },
        queue@.len() > 1 ==> r is Ok,
{
    if queue.len() == 0 {
        return Err(FloxideError::AlreadyCompleted);
    }
    if queue.len() == 1 {
        let t = queue[0].is_terminal();
        if t {
            return Err(FloxideError::AlreadyCompleted);
        }
    }
    Ok(())
}

/// Whether a checkpointed run may go on: not if nothing is pending
/// (`AlreadyCompleted` then).
pub fn run_precheck<WI>(queue: &VecDeque<WI>) -> (r: Result<(), FloxideError>)
    ensures
        r is Ok <==> queue@.len() > 0,
        r is Err ==> r matches Err(FloxideError::AlreadyCompleted),
{
    if queue.len() == 0 {
        Err(FloxideError::AlreadyCompleted)
    } else {
        Ok(())
    }
}

/// The items behind the first `before_len` of `after` (none when there
/// are no more than `before_len`).
pub open spec fn added_tail<WI>(after: Seq<WI>, before_len: usize) -> Seq<WI> {
    if before_len <= after.len() { after.skip(before_len as int) } else { Seq::empty() }
}

/// Copies of the items a step added behind the `before_len` items that
/// were pending before it, front first.
pub fn successors_added<WI: Clone>(after: &VecDeque<WI>, before_len: usize) -> (r: Vec<WI>)
    ensures
        r@.len() == added_tail(after@, before_len).len(),
        forall|i: int| 0 <= i < r@.len() ==> cloned(#[trigger] added_tail(after@, before_len)[i], r@[i]),
{
    let start = if before_len <= after.len() { before_len } else { after.len() };
    let mut out: Vec<WI> = Vec::new();
    let mut i = start;
    while i < after.len()
        invariant
            start <= i <= after@.len(),
            out@.len() == i - start,
            forall|k: int| 0 <= k < out@.len() ==> cloned(#[trigger] after@[start + k], out@[k]),
        decreases after@.len() - i,
    {
        out.push(after[i].clone());
        i += 1;
    }
    proof {
        assert forall|k: int| 0 <= k < out@.len() implies cloned(#[trigger] added_tail(after@, before_len)[k], out@[k]) by {
            assert(added_tail(after@, before_len)[k] == after@[start + k]);
        }
    }
    out
}

/// The checkpoint a distributed step works from, given what loading it
/// gave: a run without a checkpoint was never started (`NotStarted`), and
/// a store error is handed on.
pub fn checkpoint_for_step<C, WI>(loaded: Result<Option<Checkpoint<C, WI>>, FloxideError>) -> (r: Result<Checkpoint<C, WI>, FloxideError>)
    ensures
        match loaded {
            Ok(Some(cp)) => r == Ok::<Checkpoint<C, WI>, FloxideError>(cp),
            Ok(None) => r == Err::<Checkpoint<C, WI>, FloxideError>(FloxideError::NotStarted),
            Err(e) => r == Err::<Checkpoint<C, WI>, FloxideError>(e),
        },
{
    match loaded {
        Ok(Some(cp)) => Ok(cp),
        Ok(None) => Err(FloxideError::NotStarted),
        Err(e) => Err(e),
    }
}

/// The items still pending once a step has taken the front item of the
/// checkpoint's queue (the item it processes).
pub fn pending_after_front<WI>(queue: VecDeque<WI>) -> (r: VecDeque<WI>)
    ensures
        r@ == if queue@.len() == 0 { queue@ } else { queue@.drop_first() },
{
    let mut q = queue;
    let _ = q.pop_front();
    q
}

/// How the processing of one item of a distributed run is reported.
#[derive(Debug, Clone)]
pub enum ItemProcessedOutcome {
    /// The item was terminal: the run produced its output.
    SuccessTerminal,
    /// The item succeeded and its successors were queued.
    SuccessNonTerminal,
    /// The node failed with this error.
    Error(FloxideError),
}

/// What a distributed step does once its node has processed the item.
pub struct StepEffects<O> {
    /// Whether the run's checkpoint is saved.
    pub save_checkpoint: bool,
    /// Whether the successors the step added are enqueued.
    pub enqueue_successors: bool,
    /// What the run's callbacks are told.
    pub outcome: ItemProcessedOutcome,
    /// What the step returns: the output of a terminal item, nothing
    /// while the run goes on, or the node's error.
    pub result: Result<Option<O>, FloxideError>,
}

/// A copy of an error.
pub fn duplicate_error(e: &FloxideError) -> (r: FloxideError)
    ensures
        r == *e,
{
    match e {
        FloxideError::Generic(m) => FloxideError::Generic(m.clone()),
        FloxideError::Cancelled => FloxideError::Cancelled,
        FloxideError::Timeout(d) => FloxideError::Timeout(d.clone()),
        FloxideError::NotStarted => FloxideError::NotStarted,
        FloxideError::AlreadyCompleted => FloxideError::AlreadyCompleted,
    }
}

/// What a step does with the result of processing its item: a terminal
/// output is saved, reported and returned; a non-terminal success saves
/// the checkpoint after enqueueing the successors; a failure is reported
/// and returned, and nothing is saved.
pub fn step_effects<O>(processed: Result<Option<O>, FloxideError>) -> (r: StepEffects<O>)
    ensures
        match processed {
            Ok(Some(o)) => {
                &&& r.save_checkpoint && !r.enqueue_successors
                &&& r.outcome is SuccessTerminal
                &&& r.result == Ok::<Option<O>, FloxideError>(Some(o))
            },
            Ok(None) => {
                &&& r.save_checkpoint && r.enqueue_successors
                &&& r.outcome is SuccessNonTerminal
                &&& r.result == Ok::<Option<O>, FloxideError>(None)
            },
            Err(e) => {
                &&& !r.save_checkpoint && !r.enqueue_successors
                &&& r.outcome == ItemProcessedOutcome::Error(e)
                &&& r.result == Err::<Option<O>, FloxideError>(e)
            },
        },
{
    match processed {
        Ok(Some(o)) => StepEffects {
            save_checkpoint: true,
            enqueue_successors: false,
            outcome: ItemProcessedOutcome::SuccessTerminal,
            result: Ok(Some(o)),
        },
        Ok(None) => StepEffects {
            save_checkpoint: true,
            enqueue_successors: true,
            outcome: ItemProcessedOutcome::SuccessNonTerminal,
            result: Ok(None),
        },
        Err(e) => {
            let reported = duplicate_error(&e);
            StepEffects {
                save_checkpoint: false,
                enqueue_successors: false,
                outcome: ItemProcessedOutcome::Error(reported),
                result: Err(e),
            }
        },
    }
}

} // verus!
