//! Per-run workflow contexts, kept in memory and merged as branches finish.
use vstd::prelude::*;
use crate::keyed::{KeyedStore, lemma_insert_get};
use crate::merge::Merge;

verus! {

/// Errors of a context store.
#[derive(Debug)]
pub enum ContextStoreError {
    Io(String),
    Other(String),
}

/// In-memory contexts of workflow runs, by run id.
pub struct InMemoryContextStore<C> {
    contexts: KeyedStore<C>,
}

impl<C: Merge + Clone> InMemoryContextStore<C> {
    /// The context stored for run `run_id`, if any.
    pub closed spec fn spec_get(&self, run_id: Seq<char>) -> Option<C> {
        self.contexts.spec_get(run_id)
    }

    pub closed spec fn wf(&self) -> bool {
        self.contexts.wf()
    }

    /// An empty store.
    pub fn new() -> (s: Self)
        ensures
            s.wf(),
            forall|k: Seq<char>| s.spec_get(k) is None,
    {
        InMemoryContextStore { contexts: KeyedStore::new() }
    }

    /// A clone of the context stored for run `run_id`, if any.
    pub fn get(&self, run_id: &str) -> (r: Result<Option<C>, ContextStoreError>)
        requires
            self.wf(),
        ensures
            r is Ok,
            r matches Ok(o) && match (o, self.spec_get(run_id@)) {
                (None, None) => true,
                (Some(c), Some(s)) => cloned(s, c),
                _ => false,
            },
    {
        match self.contexts.get(run_id) {
            Some(c) => Ok(Some(c.clone())),
            None => Ok(None),
        }
    }

    /// Store `ctx` as the context of run `run_id`, replacing any other.
    pub fn set(&mut self, run_id: &str, ctx: C) -> (r: Result<(), ContextStoreError>)
        requires
            old(self).wf(),
        ensures
            final(self).wf(),
            r is Ok,
            final(self).spec_get(run_id@) == Some(ctx),
            forall|k: Seq<char>| k != run_id@ ==> final(self).spec_get(k) == old(self).spec_get(k),
    {
        let ghost before = self.contexts;
        self.contexts.insert(run_id, ctx);
        proof {
            lemma_insert_get(before, self.contexts, run_id@, ctx, run_id@);
            assert forall|k: Seq<char>| k != run_id@ implies self.spec_get(k) == before.spec_get(k) by {
                lemma_insert_get(before, self.contexts, run_id@, ctx, k);
            }
        }
        Ok(())
    }

    /// Merge `ctx` into the context of run `run_id`, or store it if the run
    /// has none yet.
    pub fn merge(&mut self, run_id: &str, ctx: C) -> (r: Result<(), ContextStoreError>)
        requires
            old(self).wf(),
        ensures
            final(self).wf(),
            r is Ok,
            final(self).spec_get(run_id@) matches Some(c) && match old(self).spec_get(run_id@) {
                Some(existing) => existing.spec_merges(ctx, c),
                None => c == ctx,
            },
            forall|k: Seq<char>| k != run_id@ ==> final(self).spec_get(k) == old(self).spec_get(k),
    {
        let ghost before = self.contexts;
        match self.contexts.position(run_id) {
            Some(i) => {
                self.contexts.merge_at(i, ctx);
                proof {
                    let merged = self.contexts.spec_values()[i as int];
                    assert(self.contexts.spec_values() =~= before.spec_values().update(i as int, merged));
                    lemma_insert_get(before, self.contexts, run_id@, merged, run_id@);
                    assert forall|k: Seq<char>| k != run_id@ implies self.spec_get(k) == before.spec_get(k) by {
                        lemma_insert_get(before, self.contexts, run_id@, merged, k);
                    }
                }
            },
            None => {
                self.contexts.insert(run_id, ctx);
                proof {
                    lemma_insert_get(before, self.contexts, run_id@, ctx, run_id@);
                    assert forall|k: Seq<char>| k != run_id@ implies self.spec_get(k) == before.spec_get(k) by {
                        lemma_insert_get(before, self.contexts, run_id@, ctx, k);
                    }
                }
            },
        }
        Ok(())
    }
}

} // verus!
