//! Transform nodes: functional prep/exec/post transformations from an
//! input to an output, run as lifecycle nodes.
use std::marker::PhantomData;
use vstd::prelude::*;
use crate::clock::{is_v4_text, new_uuid_v4_string};

verus! {

/// Context wrapper for a transform node: the input being transformed.
#[derive(Debug, Clone)]
pub struct TransformContext<Input> {
    pub input: Input,
}

impl<Input> TransformContext<Input> {
    /// Create a new transform context.
    pub fn new(input: Input) -> (c: Self)
        ensures
            c.input == input,
    {
        Self { input }
    }
}

/// Adapter that runs a transform node as a lifecycle node.
pub struct TransformNodeAdapter<TN, Input, Output, Error, Action> {
    node: TN,
    id: String,
    _phantom: PhantomData<(Input, Output, Error, Action)>,
}

impl<TN, Input, Output, Error, Action> TransformNodeAdapter<TN, Input, Output, Error, Action> {
    /// The transform node run.
    pub closed spec fn spec_node(&self) -> TN {
        self.node
    }

    /// The node's identifier.
    pub closed spec fn spec_id(&self) -> Seq<char> {
        self.id@
    }

    /// Create a new adapter for a transform node, with a fresh random id
    /// (a UUID in text form).
    pub fn new(node: TN) -> (a: Self)
        ensures
            a.spec_node() == node,
            is_v4_text(a.spec_id()),
    {
        Self { node, id: new_uuid_v4_string(), _phantom: PhantomData }
    }

    /// Create a new adapter with a specific id.
    pub fn with_id(node: TN, id: String) -> (a: Self)
        ensures
            a.spec_node() == node,
            a.spec_id() == id@,
    {
        Self { node, id, _phantom: PhantomData }
    }

    /// The node's identifier.
    pub fn id(&self) -> (id: String)
        ensures
            id@ == self.spec_id(),
    {
        self.id.clone()
    }
}

/// Convert a transform node to a lifecycle node: an adapter with a fresh id.
pub fn to_lifecycle_node<TN, I, O, E, A>(transform_node: TN) -> (a: TransformNodeAdapter<TN, I, O, E, A>)
    ensures
        a.spec_node() == transform_node,
{
    TransformNodeAdapter::<TN, I, O, E, A>::new(transform_node)
}

} // verus!
