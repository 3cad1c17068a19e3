//! Snapshots of a workflow run (its context and pending work), and an
//! in-memory store of them.
use std::collections::VecDeque;
use vstd::prelude::*;
use crate::keyed::{KeyedStore, lemma_insert_get};

verus! {

/// A snapshot of a workflow's pending work and its context.
#[derive(Debug)]
pub struct Checkpoint<C, WI> {
    /// The user-provided context for the workflow
    pub context: C,
    /// The queue of pending work items
    pub queue: VecDeque<WI>,
}

/// Whether `b` is a copy of `a`, made by cloning its context and each of
/// its queued items.
pub open spec fn checkpoint_cloned<C: Clone, WI: Clone>(a: Checkpoint<C, WI>, b: Checkpoint<C, WI>) -> bool {
    &&& cloned(a.context, b.context)
    &&& b.queue@.len() == a.queue@.len()
    &&& forall|i: int| 0 <= i < a.queue@.len() ==> cloned(#[trigger] a.queue@[i], b.queue@[i])
}

impl<C, WI> Checkpoint<C, WI> {
    /// Create a new checkpoint from context and initial queue.
    pub fn new(context: C, queue: VecDeque<WI>) -> (c: Self)
        ensures
            c.context == context,
            c.queue == queue,
    {
        Checkpoint { context, queue }
    }
}

impl<C: Clone, WI: Clone> Clone for Checkpoint<C, WI> {
    fn clone(&self) -> (c: Self)
        ensures
            checkpoint_cloned(*self, c),
    {
        Checkpoint { context: self.context.clone(), queue: self.queue.clone() }
    }
}

/// Errors occurring during checkpoint persistence.
#[derive(Debug)]
pub enum CheckpointError {
    /// An I/O error, with its message.
    Io(String),
    Store(String),
}

/// An in-memory checkpoint store, by workflow run id.
pub struct InMemoryCheckpointStore<C, WI> {
    inner: KeyedStore<Checkpoint<C, WI>>,
}

impl<C: Clone, WI: Clone> InMemoryCheckpointStore<C, WI> {
    /// The checkpoint saved for run `workflow_id`, if any.
    pub closed spec fn spec_get(&self, workflow_id: Seq<char>) -> Option<Checkpoint<C, WI>> {
        self.inner.spec_get(workflow_id)
    }

    pub closed spec fn wf(&self) -> bool {
        self.inner.wf()
    }

    /// An empty store.
    pub fn new() -> (s: Self)
        ensures
            s.wf(),
            forall|k: Seq<char>| s.spec_get(k) is None,
    {
        Self { inner: KeyedStore::new() }
    }

    /// Persist a copy of `checkpoint` under `workflow_id`, replacing any
    /// earlier one.
    pub fn save(&mut self, workflow_id: &str, checkpoint: &Checkpoint<C, WI>) -> (r: Result<(), CheckpointError>)
        requires
            old(self).wf(),
        ensures
            final(self).wf(),
            r is Ok,
            final(self).spec_get(workflow_id@) matches Some(c) && checkpoint_cloned(*checkpoint, c),
            forall|k: Seq<char>| k != workflow_id@ ==> final(self).spec_get(k) == old(self).spec_get(k),
    {
        let ghost before = self.inner;
        let copy = checkpoint.clone();
        let ghost c = copy;
        self.inner.insert(workflow_id, copy);
        proof {
            lemma_insert_get(before, self.inner, workflow_id@, c, workflow_id@);
            assert forall|k: Seq<char>| k != workflow_id@ implies self.spec_get(k) == old(self).spec_get(k) by {
                lemma_insert_get(before, self.inner, workflow_id@, c, k);
            }
        }
        Ok(())
    }

    /// A copy of the last checkpoint saved for `workflow_id`, if any.
    pub fn load(&self, workflow_id: &str) -> (r: Result<Option<Checkpoint<C, WI>>, CheckpointError>)
        requires
            self.wf(),
        ensures
            r is Ok,
            r matches Ok(o) && match (o, self.spec_get(workflow_id@)) {
                (None, None) => true,
                (Some(c), Some(s)) => checkpoint_cloned(s, c),
                _ => false,
            },
    {
        match self.inner.get(workflow_id) {
            Some(ck) => Ok(Some(ck.clone())),
            None => Ok(None),
        }
    }
}

} // verus!
