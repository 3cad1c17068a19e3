//! Errors recorded per run, kept in memory.
use vstd::prelude::*;
use crate::keyed::{KeyedStore, lemma_insert_get};
use crate::distributed::types::{ErrorStoreError, WorkflowError};

verus! {

/// A copy of `errors`, element by element.
fn clone_errors(errors: &Vec<WorkflowError>) -> (r: Vec<WorkflowError>)
    ensures
        r@ == errors@,
{
    let mut out: Vec<WorkflowError> = Vec::new();
    let mut i: usize = 0;
    while i < errors.len()
        invariant
            i <= errors@.len(),
            out@ == errors@.take(i as int),
        decreases errors@.len() - i,
    {
        out.push(errors[i].clone());
        proof { assert(errors@.take(i as int).push(errors@[i as int]) =~= errors@.take(i as int + 1)); }
        i += 1;
    }
    proof { assert(errors@.take(errors@.len() as int) =~= errors@); }
    out
}

/// In-memory record of the errors of workflow runs, by run id.
pub struct InMemoryErrorStore {
    errors: KeyedStore<Vec<WorkflowError>>,
}

impl InMemoryErrorStore {
    /// The errors recorded for run `run_id`, oldest first.
    pub closed spec fn spec_errors(&self, run_id: Seq<char>) -> Seq<WorkflowError> {
        match self.errors.spec_get(run_id) {
            Some(v) => v@,
            None => Seq::empty(),
        }
    }

    pub closed spec fn wf(&self) -> bool {
        self.errors.wf()
    }

    /// An empty store.
    pub fn new() -> (s: Self)
        ensures
            s.wf(),
            forall|k: Seq<char>| s.spec_errors(k) == Seq::<WorkflowError>::empty(),
    {
        InMemoryErrorStore { errors: KeyedStore::new() }
    }

    /// Record an error for run `run_id`, after those recorded before.
    pub fn record_error(&mut self, run_id: &str, error: WorkflowError) -> (r: Result<(), ErrorStoreError>)
        requires
            old(self).wf(),
        ensures
            final(self).wf(),
            r is Ok,
            final(self).spec_errors(run_id@) == old(self).spec_errors(run_id@).push(error),
            forall|k: Seq<char>| k != run_id@ ==> final(self).spec_errors(k) == old(self).spec_errors(k),
    {
        let ghost before = self.errors;
        let mut list = match self.errors.get(run_id) {
            Some(v) => clone_errors(v),
            None => Vec::new(),
        };
        list.push(error);
        let ghost new_list = list;
        self.errors.insert(run_id, list);
        proof {
            lemma_insert_get(before, self.errors, run_id@, new_list, run_id@);
            assert(self.spec_errors(run_id@) =~= old(self).spec_errors(run_id@).push(error));
            assert forall|k: Seq<char>| k != run_id@ implies self.spec_errors(k) == old(self).spec_errors(k) by {
                lemma_insert_get(before, self.errors, run_id@, new_list, k);
            }
        }
        Ok(())
    }

    /// The errors recorded for run `run_id`, oldest first (none if the run
    /// has none).
    pub fn get_errors(&self, run_id: &str) -> (r: Result<Vec<WorkflowError>, ErrorStoreError>)
        requires
            self.wf(),
        ensures
            r matches Ok(v) && v@ == self.spec_errors(run_id@),
    {
        match self.errors.get(run_id) {
            Some(v) => Ok(clone_errors(v)),
            None => Ok(Vec::new()),
        }
    }
}

} // verus!
