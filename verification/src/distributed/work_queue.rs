//! First-in first-out queues of work items, one per workflow run, kept in
//! memory.
use std::collections::VecDeque;
use vstd::prelude::*;
use crate::keyed::{KeyedStore, lemma_insert_get};

verus! {

/// Errors of a work queue.
#[derive(Debug)]
pub enum WorkQueueError {
    Io(String),
    Empty,
    Other(String),
}

/// A copy of the items of a queue, front first.
fn clone_items<WI: Clone>(q: &VecDeque<WI>) -> (r: Vec<WI>)
    ensures
        r@.len() == q@.len(),
        forall|i: int| 0 <= i < q@.len() ==> cloned(#[trigger] q@[i], r@[i]),
{
    let mut out: Vec<WI> = Vec::new();
    let mut i: usize = 0;
    while i < q.len()
        invariant
            i <= q@.len(),
            out@.len() == i,
            forall|j: int| 0 <= j < i ==> cloned(#[trigger] q@[j], out@[j]),
        decreases q@.len() - i,
    {
        out.push(q[i].clone());
        i += 1;
    }
    out
}

/// In-memory work queues of workflow runs, by run id.
pub struct InMemoryWorkQueue<WI> {
    queues: KeyedStore<VecDeque<WI>>,
}

impl<WI: Clone> InMemoryWorkQueue<WI> {
    /// The run ids that have a queue, in the order their first item came.
    pub closed spec fn spec_runs(&self) -> Seq<Seq<char>> {
        self.queues.spec_keys()
    }

    /// The queues, in the order of `spec_runs`, front first.
    pub closed spec fn spec_queues(&self) -> Seq<Seq<WI>> {
        self.queues.spec_values().map_values(|q: VecDeque<WI>| q@)
    }

    /// The queue of run `run_id`, front first, if the run has one.
    pub closed spec fn spec_queue(&self, run_id: Seq<char>) -> Option<Seq<WI>> {
        match self.queues.spec_get(run_id) {
            Some(q) => Some(q@),
            None => None,
        }
    }

    pub closed spec fn wf(&self) -> bool {
        self.queues.wf()
    }

    /// The position of the first queue that holds an item, if any.
    pub open spec fn first_nonempty(queues: Seq<Seq<WI>>) -> Option<int> {
        if exists|i: int| 0 <= i < queues.len() && queues[i].len() > 0 {
            Some(choose|i: int| 0 <= i < queues.len() && queues[i].len() > 0
                && forall|j: int| 0 <= j < i ==> queues[j].len() == 0)
        } else {
            None
        }
    }

    /// Empty queues.
    pub fn new() -> (s: Self)
        ensures
            s.wf(),
            s.spec_runs() == Seq::<Seq<char>>::empty(),
            forall|k: Seq<char>| s.spec_queue(k) is None,
    {
        InMemoryWorkQueue { queues: KeyedStore::new() }
    }

    /// Put `work` at the back of the queue of run `workflow_id`.
    pub fn enqueue(&mut self, workflow_id: &str, work: WI) -> (r: Result<(), WorkQueueError>)
        requires
            old(self).wf(),
        ensures
            final(self).wf(),
            r is Ok,
            final(self).spec_queue(workflow_id@) == Some(match old(self).spec_queue(workflow_id@) {
                Some(q) => q.push(work),
                None => seq![work],
            }),
            forall|k: Seq<char>| k != workflow_id@ ==> final(self).spec_queue(k) == old(self).spec_queue(k),
    {
        let ghost before = self.queues;
        match self.queues.position(workflow_id) {
            Some(i) => {
                let mut q = self.queues.replace_at(i, VecDeque::new());
                q.push_back(work);
                self.queues.set_at(i, q);
                proof {
                    assert(self.queues.spec_values() =~= before.spec_values().update(i as int, q));
                    lemma_insert_get(before, self.queues, workflow_id@, q, workflow_id@);
                    assert forall|k: Seq<char>| k != workflow_id@ implies self.spec_queue(k) == old(self).spec_queue(k) by {
                        lemma_insert_get(before, self.queues, workflow_id@, q, k);
                    }
                }
            },
            None => {
                let mut q = VecDeque::new();
                q.push_back(work);
                let ghost nq = q;
                self.queues.insert(workflow_id, q);
                proof {
                    assert(nq@ =~= seq![work]);
                    lemma_insert_get(before, self.queues, workflow_id@, nq, workflow_id@);
                    assert forall|k: Seq<char>| k != workflow_id@ implies self.spec_queue(k) == old(self).spec_queue(k) by {
                        lemma_insert_get(before, self.queues, workflow_id@, nq, k);
                    }
                }
            },
        }
        Ok(())
    }

    /// The position of the first queue holding an item, if any.
    fn find_nonempty(&self) -> (r: Option<usize>)
        requires
            self.wf(),
        ensures
            match r {
                Some(i) => Self::first_nonempty(self.spec_queues()) == Some(i as int)
                    && i < self.spec_runs().len()
                    && self.spec_queues()[i as int].len() > 0,
                None => Self::first_nonempty(self.spec_queues()) is None,
            },
    {
        let n = self.queues.len();
        let mut i: usize = 0;
        let ghost qs = self.spec_queues();
        while i < n
            invariant
                self.wf(),
                n == self.queues.spec_keys().len(),
                qs == self.spec_queues(),
                qs.len() == n,
                i <= n,
                forall|j: int| 0 <= j < i ==> qs[j].len() == 0,
            decreases n - i,
        {
            if self.queues.value_at(i).len() > 0 {
                proof {
                    assert(qs[i as int].len() > 0);
                    let c = choose|c: int| 0 <= c < qs.len() && qs[c].len() > 0
                        && forall|j: int| 0 <= j < c ==> qs[j].len() == 0;
                    assert(c == i) by {
                        if c < i { assert(qs[c].len() == 0); }
                        if c > i { assert(qs[i as int].len() == 0); }
                    }
                }
                return Some(i);
            }
            i += 1;
        }
        None
    }

    /// Take the front item of the first run (in the order runs first
    /// enqueued) whose queue holds one; `None` when every queue is empty.
    pub fn dequeue(&mut self) -> (r: Result<Option<(String, WI)>, WorkQueueError>)
        requires
            old(self).wf(),
        ensures
            final(self).wf(),
            r is Ok,
            match Self::first_nonempty(old(self).spec_queues()) {
                None => r == Ok::<Option<(String, WI)>, WorkQueueError>(None) && *final(self) == *old(self),
                Some(i) => r matches Ok(Some((run, item))) && {
                    let q = old(self).spec_queues()[i];
                    &&& run@ == old(self).spec_runs()[i]
                    &&& item == q[0]
                    &&& final(self).spec_runs() == old(self).spec_runs()
                    &&& final(self).spec_queues() == old(self).spec_queues().update(i, q.drop_first())
                    &&& final(self).spec_queue(run@) == Some(q.drop_first())
                    &&& forall|k: Seq<char>| k != run@ ==> final(self).spec_queue(k) == old(self).spec_queue(k)
                },
            },
    {
        match self.find_nonempty() {
            None => Ok(None),
            Some(i) => {
                let ghost before = self.queues;
                let mut q = self.queues.replace_at(i, VecDeque::new());
                let item = q.pop_front().unwrap();
                let run = self.queues.key_at(i).clone();
                self.queues.set_at(i, q);
                proof {
                    let qs = old(self).spec_queues();
                    assert(q@ =~= qs[i as int].drop_first());
                    assert(self.queues.spec_values() == before.spec_values().update(i as int, q));
                    assert(self.spec_queues() =~= qs.update(i as int, qs[i as int].drop_first()));
                    assert(before.spec_keys()[i as int] == run@);
                    assert(before.spec_keys().contains(run@));
                    assert(before.spec_keys().index_of(run@) == i) by {
                        let j = before.spec_keys().index_of(run@);
                        assert(before.spec_keys()[j] == run@);
                    }
                    lemma_insert_get(before, self.queues, run@, q, run@);
                    assert forall|k: Seq<char>| k != run@ implies self.spec_queue(k) == old(self).spec_queue(k) by {
                        lemma_insert_get(before, self.queues, run@, q, k);
                    }
                }
                Ok(Some((run, item)))
            },
        }
    }

    /// A clone of the item `dequeue` would take next, with its run; `None`
    /// when every queue is empty.
    pub fn peek(&self) -> (r: Result<Option<(String, WI)>, WorkQueueError>)
        requires
            self.wf(),
        ensures
            r is Ok,
            match Self::first_nonempty(self.spec_queues()) {
                None => r == Ok::<Option<(String, WI)>, WorkQueueError>(None),
                Some(i) => r matches Ok(Some((run, item)))
                    && run@ == self.spec_runs()[i]
                    && cloned(self.spec_queues()[i][0], item),
            },
    {
        match self.find_nonempty() {
            None => Ok(None),
            Some(i) => {
                let q = self.queues.value_at(i);
                let item = q[0].clone();
                let run = self.queues.key_at(i).clone();
                Ok(Some((run, item)))
            },
        }
    }

    /// Drop the queue of run `run_id`, with all its items.
    pub fn purge_run(&mut self, run_id: &str) -> (r: Result<(), WorkQueueError>)
        requires
            old(self).wf(),
        ensures
            final(self).wf(),
            r is Ok,
            final(self).spec_queue(run_id@) is None,
            forall|k: Seq<char>| k != run_id@ ==> final(self).spec_queue(k) == old(self).spec_queue(k),
    {
        let ghost before = self.queues;
        let _ = self.queues.remove(run_id);
        proof {
            if before.spec_contains(run_id@) {
                let ks = before.spec_keys();
                let i = ks.index_of(run_id@);
                assert(ks[i] == run_id@);
                let ks2 = self.queues.spec_keys();
                assert(!ks2.contains(run_id@)) by {
                    if ks2.contains(run_id@) {
                        let j = ks2.index_of(run_id@);
                        assert(ks2[j] == run_id@);
                        let j0 = if j < i { j } else { j + 1 };
                        assert(ks[j0] == run_id@);
                    }
                }
                assert forall|k: Seq<char>| k != run_id@ implies self.spec_queue(k) == old(self).spec_queue(k) by {
                    if ks.contains(k) {
                        let j = ks.index_of(k);
                        assert(ks[j] == k);
                        let j2 = if j < i { j } else { j - 1 };
                        assert(ks2[j2] == k);
                        assert(ks2.contains(k));
                        let j3 = ks2.index_of(k);
                        assert(ks2[j3] == k);
                        assert(j3 == j2);
                    } else if ks2.contains(k) {
                        let j = ks2.index_of(k);
                        assert(ks2[j] == k);
                        let j0 = if j < i { j } else { j + 1 };
                        assert(ks[j0] == k);
                    }
                }
            }
        }
        Ok(())
    }

    /// Clones of the items queued for run `run_id`, front first; `Empty`
    /// if the run has no queue.
    pub fn pending_work(&self, run_id: &str) -> (r: Result<Vec<WI>, WorkQueueError>)
        requires
            self.wf(),
        ensures
            match self.spec_queue(run_id@) {
                None => r matches Err(e) && e is Empty,
                Some(q) => r matches Ok(v) && v@.len() == q.len()
                    && forall|i: int| 0 <= i < q.len() ==> cloned(#[trigger] q[i], v@[i]),
            },
    {
        match self.queues.get(run_id) {
            None => Err(WorkQueueError::Empty),
            Some(q) => Ok(clone_items(q)),
        }
    }
}

} // verus!
