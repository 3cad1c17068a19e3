//! Per-run metrics, kept in memory.
use vstd::prelude::*;
use crate::keyed::{KeyedStore, lemma_insert_get};
use crate::distributed::types::RunMetrics;

verus! {

/// Errors of a metrics store.
#[derive(Debug)]
pub enum MetricsError {
    Io(String),
    NotFound,
    Other(String),
}

/// In-memory metrics of workflow runs, by run id.
pub struct InMemoryMetricsStore {
    metrics: KeyedStore<RunMetrics>,
}

impl InMemoryMetricsStore {
    /// The metrics of run `run_id`, if any were recorded.
    pub closed spec fn spec_get(&self, run_id: Seq<char>) -> Option<RunMetrics> {
        self.metrics.spec_get(run_id)
    }

    pub closed spec fn wf(&self) -> bool {
        self.metrics.wf()
    }

    /// An empty store.
    pub fn new() -> (s: Self)
        ensures
            s.wf(),
            forall|k: Seq<char>| s.spec_get(k) is None,
    {
        InMemoryMetricsStore { metrics: KeyedStore::new() }
    }

    /// Record the metrics of run `run_id`, replacing earlier ones.
    pub fn update_metrics(&mut self, run_id: &str, metrics: RunMetrics) -> (r: Result<(), MetricsError>)
        requires
            old(self).wf(),
        ensures
            final(self).wf(),
            r is Ok,
            final(self).spec_get(run_id@) == Some(metrics),
            forall|k: Seq<char>| k != run_id@ ==> final(self).spec_get(k) == old(self).spec_get(k),
    {
        let ghost before = self.metrics;
        self.metrics.insert(run_id, metrics);
        proof {
            lemma_insert_get(before, self.metrics, run_id@, metrics, run_id@);
            assert forall|k: Seq<char>| k != run_id@ implies self.spec_get(k) == before.spec_get(k) by {
                lemma_insert_get(before, self.metrics, run_id@, metrics, k);
            }
        }
        Ok(())
    }

    /// The metrics of run `run_id`, if any were recorded.
    pub fn get_metrics(&self, run_id: &str) -> (r: Result<Option<RunMetrics>, MetricsError>)
        requires
            self.wf(),
        ensures
            r == Ok::<Option<RunMetrics>, MetricsError>(self.spec_get(run_id@)),
    {
        match self.metrics.get(run_id) {
            Some(m) => Ok(Some(*m)),
            None => Ok(None),
        }
    }
}

} // verus!
