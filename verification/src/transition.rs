//! What a node's execution leads to.
use vstd::prelude::*;
use crate::error::FloxideError;

verus! {

/// Transition result of a node.
pub enum Transition<Output> {
    /// Emit a single output to successors.
    Next(Output),
    /// Emit multiple outputs to successors (split / fan-out).
    NextAll(Vec<Output>),
    /// Hold: emit nothing for now (a merge waiting for more inputs).
    Hold,
    /// Abort the workflow with an error.
    Abort(FloxideError),
}

} // verus!
