//! The status and attempt count of each work item of each run, kept in
//! memory.
use vstd::prelude::*;
use crate::keyed::{KeyedStore, lemma_insert_get};
use crate::workflow::WorkItem;

verus! {

/// Where a work item stands.
#[derive(Debug, Clone, Copy, PartialEq, Eq, Structural)]
pub enum WorkItemStatus {
    Pending,
    InProgress,
    Failed,
    WaitingRetry,
    PermanentlyFailed,
    Completed,
}

impl Default for WorkItemStatus {
    fn default() -> (s: Self)
        ensures
            s == WorkItemStatus::Pending,
    {
        WorkItemStatus::Pending
    }
}

/// Errors of a work item state store.
#[derive(Debug)]
pub enum WorkItemStateStoreError {
    Io(String),
    NotFound,
    Other(String),
}

/// The state of one work item of a run.
#[derive(Debug)]
pub struct WorkItemState<W> {
    pub status: WorkItemStatus,
    pub attempts: u32,
    pub work_item: W,
}

impl<W> WorkItemState<W> {
    /// A pending item, not yet attempted.
    pub fn new(work_item: W) -> (s: Self)
        ensures
            s.status == WorkItemStatus::Pending,
            s.attempts == 0,
            s.work_item == work_item,
    {
        Self { work_item, status: WorkItemStatus::Pending, attempts: 0 }
    }
}

impl<W: Clone> Clone for WorkItemState<W> {
    fn clone(&self) -> (r: Self)
        ensures
            r.status == self.status,
            r.attempts == self.attempts,
            cloned(self.work_item, r.work_item),
    {
        WorkItemState { status: self.status, attempts: self.attempts, work_item: self.work_item.clone() }
    }
}

/// In-memory work item states: by run id, then by item instance id.
pub struct InMemoryWorkItemStateStore<W> {
    runs: KeyedStore<KeyedStore<WorkItemState<W>>>,
}

impl<W: WorkItem> InMemoryWorkItemStateStore<W> {
    /// The state recorded for item `id` of run `run`, if any.
    pub closed spec fn spec_entry(&self, run: Seq<char>, id: Seq<char>) -> Option<WorkItemState<W>> {
        match self.runs.spec_get(run) {
            Some(items) => items.spec_get(id),
            None => None,
        }
    }

    /// The states recorded for run `run`, in the order the items were
    /// first seen.
    pub closed spec fn spec_items(&self, run: Seq<char>) -> Seq<WorkItemState<W>> {
        match self.runs.spec_get(run) {
            Some(items) => items.spec_values(),
            None => Seq::empty(),
        }
    }

    /// The status of item `id` of run `run`: pending until recorded.
    pub open spec fn spec_status(&self, run: Seq<char>, id: Seq<char>) -> WorkItemStatus {
        match self.spec_entry(run, id) {
            Some(s) => s.status,
            None => WorkItemStatus::Pending,
        }
    }

    /// The attempts made at item `id` of run `run`: none until recorded.
    pub open spec fn spec_attempts(&self, run: Seq<char>, id: Seq<char>) -> u32 {
        match self.spec_entry(run, id) {
            Some(s) => s.attempts,
            None => 0,
        }
    }

    pub closed spec fn wf(&self) -> bool {
        &&& self.runs.wf()
        &&& forall|i: int| 0 <= i < self.runs.spec_values().len() ==> (#[trigger] self.runs.spec_values()[i]).wf()
    }

    /// An empty store.
    pub fn new() -> (s: Self)
        ensures
            s.wf(),
            forall|r: Seq<char>, i: Seq<char>| s.spec_entry(r, i) is None,
            forall|r: Seq<char>| s.spec_items(r) == Seq::<WorkItemState<W>>::empty(),
    {
        InMemoryWorkItemStateStore { runs: KeyedStore::new() }
    }

    /// Put `state` at position `ii` of the items of the run at position `ri`.
    fn put_at(&mut self, ri: usize, ii: usize, state: WorkItemState<W>, Ghost(run): Ghost<Seq<char>>, Ghost(id): Ghost<Seq<char>>)
        requires
            old(self).wf(),
            ri < old(self).runs.spec_keys().len(),
            old(self).runs.spec_keys()[ri as int] == run,
            ii < old(self).runs.spec_values()[ri as int].spec_keys().len(),
            old(self).runs.spec_values()[ri as int].spec_keys()[ii as int] == id,
        ensures
            final(self).wf(),
            final(self).runs.spec_keys() == old(self).runs.spec_keys(),
            final(self).runs.spec_values()[ri as int].spec_keys() == old(self).runs.spec_values()[ri as int].spec_keys(),
            final(self).spec_entry(run, id) == Some(state),
            final(self).spec_items(run) == old(self).spec_items(run).update(ii as int, state),
            forall|r: Seq<char>, i: Seq<char>| !(r == run && i == id)
                ==> final(self).spec_entry(r, i) == old(self).spec_entry(r, i),
            forall|r: Seq<char>| r != run ==> final(self).spec_items(r) == old(self).spec_items(r),
    {
        let ghost outer = self.runs;
        let mut items = self.runs.replace_at(ri, KeyedStore::new());
        let ghost inner = items;
        items.set_at(ii, state);
        let ghost inner2 = items;
        self.runs.set_at(ri, items);
        proof {
            let ks = outer.spec_keys();
            assert(ks.contains(run));
            assert(ks.index_of(run) == ri) by { let j = ks.index_of(run); assert(ks[j] == run); }
            assert(self.runs.spec_values() == outer.spec_values().update(ri as int, inner2));
            lemma_insert_get(outer, self.runs, run, inner2, run);
            let iks = inner.spec_keys();
            assert(iks.contains(id));
            assert(iks.index_of(id) == ii) by { let j = iks.index_of(id); assert(iks[j] == id); }
            lemma_insert_get(inner, inner2, id, state, id);
            assert forall|r: Seq<char>, i: Seq<char>| !(r == run && i == id)
                implies self.spec_entry(r, i) == old(self).spec_entry(r, i) by {
                lemma_insert_get(outer, self.runs, run, inner2, r);
                if r == run {
                    lemma_insert_get(inner, inner2, id, state, i);
                }
            }
            assert forall|r: Seq<char>| r != run implies self.spec_items(r) == old(self).spec_items(r) by {
                lemma_insert_get(outer, self.runs, run, inner2, r);
            }
            assert forall|i: int| 0 <= i < self.runs.spec_values().len() implies (#[trigger] self.runs.spec_values()[i]).wf() by {
                if i != ri {
                    assert(self.runs.spec_values()[i] == outer.spec_values()[i]);
                }
            }
        }
    }

    /// Make sure item `item` (with instance id `id`) of run `run_id` has a recorded state (pending,
    /// no attempts, if it had none), and return where it sits.
    fn entry_position(&mut self, run_id: &str, id: &str, item: &W) -> (pos: (usize, usize))
        requires
            old(self).wf(),
        ensures
            final(self).wf(),
            pos.0 < final(self).runs.spec_keys().len(),
            final(self).runs.spec_keys()[pos.0 as int] == run_id@,
            pos.1 < final(self).runs.spec_values()[pos.0 as int].spec_keys().len(),
            final(self).runs.spec_values()[pos.0 as int].spec_keys()[pos.1 as int] == id@,
            final(self).spec_entry(run_id@, id@) matches Some(s) && match old(self).spec_entry(run_id@, id@) {
                Some(o) => s == o,
                None => s.status == WorkItemStatus::Pending && s.attempts == 0 && cloned(*item, s.work_item),
            },
            final(self).spec_items(run_id@) == match old(self).spec_entry(run_id@, id@) {
                Some(_) => old(self).spec_items(run_id@),
                None => old(self).spec_items(run_id@).push(
                    final(self).spec_entry(run_id@, id@)->0),
            },
            forall|r: Seq<char>, i: Seq<char>| !(r == run_id@ && i == id@)
                ==> final(self).spec_entry(r, i) == old(self).spec_entry(r, i),
            forall|r: Seq<char>| r != run_id@ ==> final(self).spec_items(r) == old(self).spec_items(r),
    {
        let ghost iid = id@;
        let ghost s0 = *self;
        if self.runs.position(run_id).is_none() {
            let empty: KeyedStore<WorkItemState<W>> = KeyedStore::new();
            let ghost e = empty;
            self.runs.insert(run_id, empty);
            proof {
                lemma_insert_get(s0.runs, self.runs, run_id@, e, run_id@);
                assert forall|r: Seq<char>, i: Seq<char>| self.spec_entry(r, i) == s0.spec_entry(r, i) by {
                    lemma_insert_get(s0.runs, self.runs, run_id@, e, r);
                }
                assert forall|r: Seq<char>| self.spec_items(r) == s0.spec_items(r) by {
                    lemma_insert_get(s0.runs, self.runs, run_id@, e, r);
                }
                assert forall|i: int| 0 <= i < self.runs.spec_values().len() implies (#[trigger] self.runs.spec_values()[i]).wf() by {
                    if i < s0.runs.spec_values().len() {
                        assert(self.runs.spec_values()[i] == s0.runs.spec_values()[i]);
                    }
                }
            }
        }
        let ghost s1 = *self;
        let ri = self.runs.position(run_id).unwrap();
        let mut items = self.runs.replace_at(ri, KeyedStore::new());
        let ghost inner = items;
        proof {
            assert(inner == s1.runs.spec_values()[ri as int]);
            assert(inner.wf());
        }
        let ii = match items.position(id) {
            Some(ii) => ii,
            None => {
                let fresh = WorkItemState::new(item.clone());
                items.insert(id, fresh);
                items.len() - 1
            },
        };
        let ghost inner2 = items;
        self.runs.set_at(ri, items);
        proof {
            let ks = s1.runs.spec_keys();
            assert(ks.index_of(run_id@) == ri);
            assert(self.runs.spec_values() == s1.runs.spec_values().update(ri as int, inner2));
            lemma_insert_get(s1.runs, self.runs, run_id@, inner2, run_id@);
            assert forall|r: Seq<char>| r != run_id@ implies self.spec_items(r) == s1.spec_items(r)
                && forall|i: Seq<char>| self.spec_entry(r, i) == s1.spec_entry(r, i) by {
                lemma_insert_get(s1.runs, self.runs, run_id@, inner2, r);
            }
            assert forall|i: int| 0 <= i < self.runs.spec_values().len() implies (#[trigger] self.runs.spec_values()[i]).wf() by {
                if i != ri {
                    assert(self.runs.spec_values()[i] == s1.runs.spec_values()[i]);
                }
            }
            if inner.spec_contains(iid) {
                assert(inner2 == inner);
            } else {
                let st = inner2.spec_values()[ii as int];
                lemma_insert_get(inner, inner2, iid, st, iid);
                assert(inner2.spec_keys()[ii as int] == iid);
                assert forall|i: Seq<char>| i != iid implies inner2.spec_get(i) == inner.spec_get(i) by {
                    lemma_insert_get(inner, inner2, iid, st, i);
                }
            }
        }
        (ri, ii)
    }
}

impl<W: WorkItem> InMemoryWorkItemStateStore<W> {
    /// The state at position (`ri`, `ii`).
    fn state_at(&self, ri: usize, ii: usize) -> (s: &WorkItemState<W>)
        requires
            self.wf(),
            ri < self.runs.spec_keys().len(),
            ii < self.runs.spec_values()[ri as int].spec_keys().len(),
        ensures
            *s == self.runs.spec_values()[ri as int].spec_values()[ii as int],
    {
        self.runs.value_at(ri).value_at(ii)
    }

    /// The status of item `item` of run `run_id` (recording it as pending
    /// if it was unknown).
    pub fn get_status(&mut self, run_id: &str, item: &W) -> (r: Result<WorkItemStatus, WorkItemStateStoreError>)
        requires
            old(self).wf(),
        ensures
            final(self).wf(),
            exists|id: String| #[trigger] call_ensures(W::instance_id, (item,), id)
                && r == Ok::<WorkItemStatus, WorkItemStateStoreError>(old(self).spec_status(run_id@, id@)),
            forall|r: Seq<char>, i: Seq<char>| final(self).spec_status(r, i) == old(self).spec_status(r, i)
                && final(self).spec_attempts(r, i) == old(self).spec_attempts(r, i),
    {
        let id = item.instance_id();
        let (ri, ii) = self.entry_position(run_id, id.as_str(), item);
        Ok(self.state_at(ri, ii).status)
    }

    /// Set the status of item `item` of run `run_id`.
    pub fn set_status(&mut self, run_id: &str, item: &W, status: WorkItemStatus) -> (r: Result<(), WorkItemStateStoreError>)
        requires
            old(self).wf(),
        ensures
            final(self).wf(),
            r is Ok,
            exists|id: String| #[trigger] call_ensures(W::instance_id, (item,), id) && {
                &&& final(self).spec_status(run_id@, id@) == status
                &&& final(self).spec_attempts(run_id@, id@) == old(self).spec_attempts(run_id@, id@)
                &&& forall|r: Seq<char>, i: Seq<char>| !(r == run_id@ && i == id@)
                    ==> final(self).spec_entry(r, i) == old(self).spec_entry(r, i)
            },
    {
        let id = item.instance_id();
        let (ri, ii) = self.entry_position(run_id, id.as_str(), item);
        let cur = self.state_at(ri, ii);
        let next = WorkItemState { status, attempts: cur.attempts, work_item: cur.work_item.clone() };
        self.put_at(ri, ii, next, Ghost(run_id@), Ghost(id@));
        Ok(())
    }

    /// The number of attempts made at item `item` of run `run_id`
    /// (recording it as pending if it was unknown).
    pub fn get_attempts(&mut self, run_id: &str, item: &W) -> (r: Result<u32, WorkItemStateStoreError>)
        requires
            old(self).wf(),
        ensures
            final(self).wf(),
            exists|id: String| #[trigger] call_ensures(W::instance_id, (item,), id)
                && r == Ok::<u32, WorkItemStateStoreError>(old(self).spec_attempts(run_id@, id@)),
            forall|r: Seq<char>, i: Seq<char>| final(self).spec_status(r, i) == old(self).spec_status(r, i)
                && final(self).spec_attempts(r, i) == old(self).spec_attempts(r, i),
    {
        let id = item.instance_id();
        let (ri, ii) = self.entry_position(run_id, id.as_str(), item);
        Ok(self.state_at(ri, ii).attempts)
    }

    /// Count one more attempt at item `item` of run `run_id`, returning the
    /// new count.
    pub fn increment_attempts(&mut self, run_id: &str, item: &W) -> (r: Result<u32, WorkItemStateStoreError>)
        requires
            old(self).wf(),
            forall|id: String| #[trigger] call_ensures(W::instance_id, (item,), id)
                ==> old(self).spec_attempts(run_id@, id@) < u32::MAX,
        ensures
            final(self).wf(),
            exists|id: String| #[trigger] call_ensures(W::instance_id, (item,), id) && {
                &&& r == Ok::<u32, WorkItemStateStoreError>((old(self).spec_attempts(run_id@, id@) + 1) as u32)
                &&& final(self).spec_attempts(run_id@, id@) == old(self).spec_attempts(run_id@, id@) + 1
                &&& final(self).spec_status(run_id@, id@) == old(self).spec_status(run_id@, id@)
                &&& forall|r: Seq<char>, i: Seq<char>| !(r == run_id@ && i == id@)
                    ==> final(self).spec_entry(r, i) == old(self).spec_entry(r, i)
            },
    {
        let id = item.instance_id();
        let (ri, ii) = self.entry_position(run_id, id.as_str(), item);
        let cur = self.state_at(ri, ii);
        let n = cur.attempts + 1;
        let next = WorkItemState { status: cur.status, attempts: n, work_item: cur.work_item.clone() };
        self.put_at(ri, ii, next, Ghost(run_id@), Ghost(id@));
        Ok(n)
    }

    /// Set the attempts made at item `item` of run `run_id` back to zero.
    pub fn reset_attempts(&mut self, run_id: &str, item: &W) -> (r: Result<(), WorkItemStateStoreError>)
        requires
            old(self).wf(),
        ensures
            final(self).wf(),
            r is Ok,
            exists|id: String| #[trigger] call_ensures(W::instance_id, (item,), id) && {
                &&& final(self).spec_attempts(run_id@, id@) == 0
                &&& final(self).spec_status(run_id@, id@) == old(self).spec_status(run_id@, id@)
                &&& forall|r: Seq<char>, i: Seq<char>| !(r == run_id@ && i == id@)
                    ==> final(self).spec_entry(r, i) == old(self).spec_entry(r, i)
            },
    {
        let id = item.instance_id();
        let (ri, ii) = self.entry_position(run_id, id.as_str(), item);
        let cur = self.state_at(ri, ii);
        let next = WorkItemState { status: cur.status, attempts: 0, work_item: cur.work_item.clone() };
        self.put_at(ri, ii, next, Ghost(run_id@), Ghost(id@));
        Ok(())
    }

    /// Copies of the states of all items of run `run_id`, in the order the
    /// items were first seen.
    pub fn get_all(&self, run_id: &str) -> (r: Result<Vec<WorkItemState<W>>, WorkItemStateStoreError>)
        requires
            self.wf(),
        ensures
            r matches Ok(v) && v@.len() == self.spec_items(run_id@).len()
                && forall|i: int| 0 <= i < v@.len() ==> {
                    let s = #[trigger] self.spec_items(run_id@)[i];
                    &&& v@[i].status == s.status
                    &&& v@[i].attempts == s.attempts
                    &&& cloned(s.work_item, v@[i].work_item)
                },
    {
        let mut out: Vec<WorkItemState<W>> = Vec::new();
        match self.runs.get(run_id) {
            None => {},
            Some(items) => {
                proof {
                    let ks = self.runs.spec_keys();
                    let j = ks.index_of(run_id@);
                    assert(ks.contains(run_id@));
                    assert(ks[j] == run_id@);
                    assert(self.runs.spec_values()[j].wf());
                }
                let n = items.len();
                let mut i: usize = 0;
                while i < n
                    invariant
                        items.wf(),
                        n == items.spec_keys().len(),
                        self.spec_items(run_id@) == items.spec_values(),
                        i <= n,
                        out@.len() == i,
                        forall|j: int| 0 <= j < i ==> {
                            let s = #[trigger] self.spec_items(run_id@)[j];
                            &&& out@[j].status == s.status
                            &&& out@[j].attempts == s.attempts
                            &&& cloned(s.work_item, out@[j].work_item)
                        },
                    decreases n - i,
                {
                    out.push(items.value_at(i).clone());
                    i += 1;
                }
            },
        }
        Ok(out)
    }
}

} // verus!
