//! Nodes that run in three phases: prepare, execute, post-process.
use std::marker::PhantomData;
use vstd::prelude::*;
use crate::clock::{is_v4_text, new_uuid_v4_string};

verus! {

/// Adapter to run a prep/exec/post lifecycle node as a standard node.
pub struct LifecycleNodeAdapter<LN, Context, Action> {
    inner: LN,
    _phantom: PhantomData<(Context, Action)>,
}

impl<LN, Context, Action> LifecycleNodeAdapter<LN, Context, Action> {
    /// The lifecycle node run.
    pub closed spec fn spec_inner(&self) -> LN {
        self.inner
    }

    /// Create a new lifecycle node adapter.
    pub fn new(inner: LN) -> (a: Self)
        ensures
            a.spec_inner() == inner,
    {
        Self { inner, _phantom: PhantomData }
    }

    /// The lifecycle node run.
    pub fn inner(&self) -> (n: &LN)
        ensures
            *n == self.spec_inner(),
    {
        &self.inner
    }
}

/// The id of a lifecycle node: the given one, or else a fresh random
/// UUID (version 4) in its hyphenated text form.
pub fn node_id_or_fresh(id: Option<String>) -> (r: String)
    ensures
        id matches Some(s) ==> r == s,
        id is None ==> is_v4_text(r@),
{
    match id {
        Some(s) => s,
        None => new_uuid_v4_string(),
    }
}

} // verus!
