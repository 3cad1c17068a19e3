//! Run records, kept in memory.
use vstd::prelude::*;
use crate::keyed::KeyedStore;
use crate::distributed::types::{RunInfo, RunStatus};

verus! {

/// Errors of a run info store.
#[derive(Debug)]
pub enum RunInfoError {
    Io(String),
    NotFound,
    Other(String),
}

/// Whether `info` passes the optional status filter of `list_runs`.
pub open spec fn passes_filter(filter: Option<RunStatus>, info: RunInfo) -> bool {
    match filter {
        Some(f) => f == info.status,
        None => true,
    }
}

/// In-memory record of workflow runs, by run id.
pub struct InMemoryRunInfoStore {
    runs: KeyedStore<RunInfo>,
}

impl InMemoryRunInfoStore {
    /// The runs, in the order they were first inserted.
    pub closed spec fn spec_runs(&self) -> Seq<RunInfo> {
        self.runs.spec_values()
    }

    /// The record of run `run_id`, if there is one.
    pub closed spec fn spec_get(&self, run_id: Seq<char>) -> Option<RunInfo> {
        self.runs.spec_get(run_id)
    }

    /// Each record sits under its own run id, once.
    pub closed spec fn wf(&self) -> bool {
        &&& self.runs.wf()
        &&& forall|i: int| 0 <= i < self.runs.spec_keys().len()
            ==> #[trigger] self.runs.spec_values()[i].run_id@ == self.runs.spec_keys()[i]
    }

    /// An empty store.
    pub fn new() -> (s: Self)
        ensures
            s.wf(),
            s.spec_runs() == Seq::<RunInfo>::empty(),
            forall|k: Seq<char>| s.spec_get(k) is None,
    {
        InMemoryRunInfoStore { runs: KeyedStore::new() }
    }

    /// Insert a run record, replacing any record with the same run id.
    pub fn insert_run(&mut self, info: RunInfo) -> (r: Result<(), super::run_info_store::RunInfoError>)
        requires
            old(self).wf(),
        ensures
            final(self).wf(),
            r is Ok,
            final(self).spec_get(info.run_id@) == Some(info),
            forall|k: Seq<char>| k != info.run_id@ ==> final(self).spec_get(k) == old(self).spec_get(k),
    {
        let ghost before = self.runs;
        let ghost id = info.run_id@;
        let key = info.run_id.clone();
        self.runs.insert(key.as_str(), info);
        proof {
            assert forall|k: Seq<char>| k != id implies self.runs.spec_get(k) == before.spec_get(k) by {
                crate::keyed::lemma_insert_get(before, self.runs, id, info, k);
            }
            crate::keyed::lemma_insert_get(before, self.runs, id, info, id);
            assert forall|i: int| 0 <= i < self.runs.spec_keys().len()
                implies #[trigger] self.runs.spec_values()[i].run_id@ == self.runs.spec_keys()[i] by {
                if i < before.spec_keys().len() && before.spec_keys()[i] != id {
                    assert(self.runs.spec_values()[i] == before.spec_values()[i]);
                    assert(self.runs.spec_keys()[i] == before.spec_keys()[i]);
                }
            }
        }
        Ok(())
    }

    /// Apply `change` to the record at position `i`.
    fn update_at(&mut self, i: usize, status: Option<RunStatus>, finished_at: Option<i64>, output: Option<String>)
        requires
            old(self).wf(),
            i < old(self).runs.spec_keys().len(),
        ensures
            final(self).wf(),
            final(self).runs.spec_keys() == old(self).runs.spec_keys(),
            final(self).runs.spec_values() == old(self).runs.spec_values().update(i as int, ({
                let old_info = old(self).runs.spec_values()[i as int];
                RunInfo {
                    status: match status { Some(s) => s, None => old_info.status },
                    finished_at: match finished_at { Some(t) => Some(t), None => old_info.finished_at },
                    output: match output { Some(o) => Some(o), None => old_info.output },
                    ..old_info
                }
            })),
    {
        let mut info = self.runs.value_at(i).clone();
        if let Some(s) = status {
            info.status = s;
        }
        if let Some(t) = finished_at {
            info.finished_at = Some(t);
        }
        if let Some(o) = output {
            info.output = Some(o);
        }
        let ghost before = self.runs;
        self.runs.set_at(i, info);
        proof {
            assert forall|j: int| 0 <= j < self.runs.spec_keys().len()
                implies #[trigger] self.runs.spec_values()[j].run_id@ == self.runs.spec_keys()[j] by {
                if j != i {
                    assert(self.runs.spec_values()[j] == before.spec_values()[j]);
                }
            }
        }
    }

    /// Update the status of run `run_id`; `NotFound` if there is no such run.
    pub fn update_status(&mut self, run_id: &str, status: RunStatus) -> (r: Result<(), RunInfoError>)
        requires
            old(self).wf(),
        ensures
            final(self).wf(),
            match old(self).spec_get(run_id@) {
                None => r is Err && r->Err_0 is NotFound && *final(self) == *old(self),
                Some(info) => r is Ok
                    && final(self).spec_get(run_id@) == Some(RunInfo { status, ..info })
                    && forall|k: Seq<char>| k != run_id@ ==> final(self).spec_get(k) == old(self).spec_get(k),
            },
    {
        match self.runs.position(run_id) {
            Some(i) => {
                let ghost before = *self;
                self.update_at(i, Some(status), None, None);
                proof { self.lemma_update_at_get(before, i as int, run_id@); }
                Ok(())
            },
            None => Err(RunInfoError::NotFound),
        }
    }

    /// Set the finish time of run `run_id`; `NotFound` if there is no such run.
    pub fn update_finished_at(&mut self, run_id: &str, finished_at: i64) -> (r: Result<(), RunInfoError>)
        requires
            old(self).wf(),
        ensures
            final(self).wf(),
            match old(self).spec_get(run_id@) {
                None => r is Err && r->Err_0 is NotFound && *final(self) == *old(self),
                Some(info) => r is Ok
                    && final(self).spec_get(run_id@) == Some(RunInfo { finished_at: Some(finished_at), ..info })
                    && forall|k: Seq<char>| k != run_id@ ==> final(self).spec_get(k) == old(self).spec_get(k),
            },
    {
        match self.runs.position(run_id) {
            Some(i) => {
                let ghost before = *self;
                self.update_at(i, None, Some(finished_at), None);
                proof { self.lemma_update_at_get(before, i as int, run_id@); }
                Ok(())
            },
            None => Err(RunInfoError::NotFound),
        }
    }

    /// Set the output of run `run_id`; `NotFound` if there is no such run.
    pub fn update_output(&mut self, run_id: &str, output: String) -> (r: Result<(), RunInfoError>)
        requires
            old(self).wf(),
        ensures
            final(self).wf(),
            match old(self).spec_get(run_id@) {
                None => r is Err && r->Err_0 is NotFound && *final(self) == *old(self),
                Some(info) => r is Ok
                    && final(self).spec_get(run_id@) == Some(RunInfo { output: Some(output), ..info })
                    && forall|k: Seq<char>| k != run_id@ ==> final(self).spec_get(k) == old(self).spec_get(k),
            },
    {
        match self.runs.position(run_id) {
            Some(i) => {
                let ghost before = *self;
                self.update_at(i, None, None, Some(output));
                proof { self.lemma_update_at_get(before, i as int, run_id@); }
                Ok(())
            },
            None => Err(RunInfoError::NotFound),
        }
    }

    /// After a change at position `i` (the record of `run_id`), only
    /// `run_id` reads differently.
    proof fn lemma_update_at_get(self, before: Self, i: int, run_id: Seq<char>)
        requires
            before.wf(),
            self.wf(),
            0 <= i < before.runs.spec_keys().len(),
            before.runs.spec_keys()[i] == run_id,
            self.runs.spec_keys() == before.runs.spec_keys(),
            self.runs.spec_values().len() == before.runs.spec_values().len(),
            forall|j: int| 0 <= j < before.runs.spec_values().len() && j != i
                ==> self.runs.spec_values()[j] == before.runs.spec_values()[j],
        ensures
            self.spec_get(run_id) == Some(self.runs.spec_values()[i]),
            forall|k: Seq<char>| k != run_id ==> self.spec_get(k) == before.spec_get(k),
    {
        let ks = before.runs.spec_keys();
        assert(ks.contains(run_id));
        assert(ks.index_of(run_id) == i) by {
            let j = ks.index_of(run_id);
            assert(ks[j] == run_id);
        }
        assert forall|k: Seq<char>| k != run_id implies self.spec_get(k) == before.spec_get(k) by {
            if ks.contains(k) {
                let j = ks.index_of(k);
                assert(ks[j] == k);
                assert(j != i);
            }
        }
    }

    /// The record of run `run_id`, if there is one.
    pub fn get_run(&self, run_id: &str) -> (r: Result<Option<RunInfo>, RunInfoError>)
        requires
            self.wf(),
        ensures
            r == Ok::<Option<RunInfo>, RunInfoError>(self.spec_get(run_id@)),
    {
        match self.runs.get(run_id) {
            Some(info) => Ok(Some(info.clone())),
            None => Ok(None),
        }
    }

    /// All runs whose status equals `filter` (all runs when there is no
    /// filter), in the order they were first inserted.
    pub fn list_runs(&self, filter: Option<RunStatus>) -> (r: Result<Vec<RunInfo>, RunInfoError>)
        requires
            self.wf(),
        ensures
            r matches Ok(v) && v@ == self.spec_runs().filter(|info: RunInfo| passes_filter(filter, info)),
    {
        let ghost pred = |info: RunInfo| passes_filter(filter, info);
        let mut out: Vec<RunInfo> = Vec::new();
        let n = self.runs.len();
        let mut i: usize = 0;
        while i < n
            invariant
                self.wf(),
                n == self.runs.spec_keys().len(),
                i <= n,
                pred == (|info: RunInfo| passes_filter(filter, info)),
                out@ == self.spec_runs().take(i as int).filter(pred),
            decreases n - i,
        {
            let info = self.runs.value_at(i);
            let keep = match filter {
                Some(f) => f == info.status,
                None => true,
            };
            proof {
                self.spec_runs().take(i as int).lemma_filter_push(self.spec_runs()[i as int], pred);
                assert(self.spec_runs().take(i as int).push(self.spec_runs()[i as int])
                    =~= self.spec_runs().take(i as int + 1));
            }
            if keep {
                out.push(info.clone());
            }
            i += 1;
        }
        proof {
            assert(self.spec_runs().take(n as int) =~= self.spec_runs());
        }
        Ok(out)
    }
}

} // verus!
