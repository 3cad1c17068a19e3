//! Long-running nodes: work that is done in steps, with the node's state
//! saved between steps and dropped once the work is complete.
use vstd::prelude::*;
use crate::error::FloxideError;
use crate::keyed::{KeyedStore, lemma_insert_get, string_views};

verus! {

/// A node's identifier.
pub type NodeId = String;

/// Represents the outcome of one step of a long-running process.
#[derive(Debug)]
pub enum LongRunningOutcome<T, S> {
    /// Processing is complete with result
    Complete(T),
    /// Processing needs to be suspended with saved state
    Suspend(S),
}

/// Actions a long-running node reports: suspended, resumed, complete.
pub trait LongRunningActionExt: Sized {
    /// Create a suspend action for long-running nodes
    fn suspend() -> Self;

    /// Create a resume action for long-running nodes
    fn resume() -> Self;

    /// Create a complete action for long-running nodes
    fn complete() -> Self;

    /// Check if this is a suspend action
    fn is_suspend(&self) -> bool;

    /// Check if this is a resume action
    fn is_resume(&self) -> bool;

    /// Check if this is a complete action
    fn is_complete(&self) -> bool;
}

/// What one step of a long-running node came to.
#[derive(Debug)]
pub enum StepResult<T> {
    /// The work is done, with this output; the saved state is gone.
    Completed(T),
    /// The work goes on later from the state just saved.
    Suspended,
}

/// The saved states of long-running nodes, in their serialized form, by
/// node id.
pub struct InMemoryStateStore {
    states: KeyedStore<Vec<u8>>,
}

impl InMemoryStateStore {
    /// The saved state of node `node_id`, if any.
    pub closed spec fn spec_state(&self, node_id: Seq<char>) -> Option<Seq<u8>> {
        match self.states.spec_get(node_id) {
            Some(v) => Some(v@),
            None => None,
        }
    }

    /// The nodes with a saved state, in the order of their first save.
    pub closed spec fn spec_node_ids(&self) -> Seq<Seq<char>> {
        self.states.spec_keys()
    }

    pub closed spec fn wf(&self) -> bool {
        self.states.wf()
    }

    /// Create a new in-memory state store.
    pub fn new() -> (s: Self)
        ensures
            s.wf(),
            s.spec_node_ids() == Seq::<Seq<char>>::empty(),
            forall|k: Seq<char>| s.spec_state(k) is None,
    {
        Self { states: KeyedStore::new() }
    }

    /// Save the (serialized) state of node `node_id`, replacing any other.
    pub fn save_state(&mut self, node_id: &str, state: Vec<u8>) -> (r: Result<(), FloxideError>)
        requires
            old(self).wf(),
        ensures
            final(self).wf(),
            r is Ok,
            final(self).spec_state(node_id@) == Some(state@),
            forall|k: Seq<char>| k != node_id@ ==> final(self).spec_state(k) == old(self).spec_state(k),
    {
        let ghost before = self.states;
        let ghost st = state;
        self.states.insert(node_id, state);
        proof {
            lemma_insert_get(before, self.states, node_id@, st, node_id@);
            assert forall|k: Seq<char>| k != node_id@ implies self.spec_state(k) == old(self).spec_state(k) by {
                lemma_insert_get(before, self.states, node_id@, st, k);
            }
        }
        Ok(())
    }

    /// A copy of the saved state of node `node_id`, if any.
    pub fn get_state(&self, node_id: &str) -> (r: Result<Option<Vec<u8>>, FloxideError>)
        requires
            self.wf(),
        ensures
            r matches Ok(o) && match (o, self.spec_state(node_id@)) {
                (None, None) => true,
                (Some(v), Some(s)) => v@ == s,
                _ => false,
            },
    {
        match self.states.get(node_id) {
            Some(v) => Ok(Some(v.clone())),
            None => Ok(None),
        }
    }

    /// Whether node `node_id` has a saved state.
    pub fn has_state(&self, node_id: &str) -> (r: Result<bool, FloxideError>)
        requires
            self.wf(),
        ensures
            r == Ok::<bool, FloxideError>(self.spec_state(node_id@) is Some),
    {
        Ok(self.states.position(node_id).is_some())
    }

    /// Remove the saved state of node `node_id`.
    pub fn remove_state(&mut self, node_id: &str) -> (r: Result<(), FloxideError>)
        requires
            old(self).wf(),
        ensures
            final(self).wf(),
            r is Ok,
            final(self).spec_state(node_id@) is None,
            forall|k: Seq<char>| k != node_id@ ==> final(self).spec_state(k) == old(self).spec_state(k),
    {
        let ghost before = self.states;
        let _ = self.states.remove(node_id);
        proof {
            if before.spec_contains(node_id@) {
                let ks = before.spec_keys();
                let i = ks.index_of(node_id@);
                assert(ks[i] == node_id@);
                let ks2 = self.states.spec_keys();
                assert(!ks2.contains(node_id@)) by {
                    if ks2.contains(node_id@) {
                        let j = ks2.index_of(node_id@);
                        assert(ks2[j] == node_id@);
                        let j0 = if j < i { j } else { j + 1 };
                        assert(ks[j0] == node_id@);
                    }
                }
                assert forall|k: Seq<char>| k != node_id@ implies self.spec_state(k) == old(self).spec_state(k) by {
                    if ks.contains(k) {
                        let j = ks.index_of(k);
                        assert(ks[j] == k);
                        let j2 = if j < i { j } else { j - 1 };
                        assert(ks2[j2] == k);
                        assert(ks2.contains(k));
                        let j3 = ks2.index_of(k);
                        assert(ks2[j3] == k);
                        assert(j3 == j2);
                    } else if ks2.contains(k) {
                        let j = ks2.index_of(k);
                        assert(ks2[j] == k);
                        let j0 = if j < i { j } else { j + 1 };
                        assert(ks[j0] == k);
                    }
                }
            }
        }
        Ok(())
    }

    /// The ids of all nodes with a saved state.
    pub fn get_all_node_ids(&self) -> (r: Result<Vec<NodeId>, FloxideError>)
        requires
            self.wf(),
        ensures
            r matches Ok(v) && string_views(v@) == self.spec_node_ids(),
    {
        let mut out: Vec<NodeId> = Vec::new();
        let mut i: usize = 0;
        let n = self.states.len();
        while i < n
            invariant
                self.wf(),
                n == self.spec_node_ids().len(),
                i <= n,
                out@.len() == i,
                string_views(out@) == self.spec_node_ids().take(i as int),
            decreases n - i,
        {
            let k = self.states.key_at(i).clone();
            let ghost prev = out@;
            out.push(k);
            proof {
                let ids = self.spec_node_ids();
                assert(k@ == ids[i as int]);
                assert forall|j: int| 0 <= j < i + 1 implies
                    #[trigger] string_views(out@)[j] == ids.take(i as int + 1)[j] by {
                    if j < i {
                        assert(out@[j] == prev[j]);
                        assert(string_views(prev)[j] == ids.take(i as int)[j]);
                    }
                }
                assert(string_views(out@) =~= ids.take(i as int + 1));
            }
            i += 1;
        }
        proof { assert(self.spec_node_ids().take(n as int) =~= self.spec_node_ids()); }
        Ok(out)
    }

    /// Settle one step of node `node_id`: on completion its saved state is
    /// removed and the output handed back; on suspension the (serialized)
    /// state it suspended with is saved.
    pub fn record_outcome<T>(&mut self, node_id: &str, outcome: LongRunningOutcome<T, Vec<u8>>) -> (r: Result<StepResult<T>, FloxideError>)
        requires
            old(self).wf(),
        ensures
            final(self).wf(),
            forall|k: Seq<char>| k != node_id@ ==> final(self).spec_state(k) == old(self).spec_state(k),
            match outcome {
                LongRunningOutcome::Complete(t) => r == Ok::<StepResult<T>, FloxideError>(StepResult::Completed(t))
                    && final(self).spec_state(node_id@) is None,
                LongRunningOutcome::Suspend(s) => r == Ok::<StepResult<T>, FloxideError>(StepResult::Suspended)
                    && final(self).spec_state(node_id@) == Some(s@),
            },
    {
        match outcome {
            LongRunningOutcome::Complete(t) => {
                let _ = self.remove_state(node_id);
                Ok(StepResult::Completed(t))
            },
            LongRunningOutcome::Suspend(s) => {
                let _ = self.save_state(node_id, s);
                Ok(StepResult::Suspended)
            },
        }
    }
}

} // verus!
