//! A node that fans one input out into several outputs.
use std::marker::PhantomData;
use vstd::prelude::*;
use crate::transition::Transition;

verus! {

/// A node that splits its input into multiple outputs using the provided
/// function; each output goes on to the successors.
pub struct SplitNode<I, O, F> {
    splitter: F,
    _phantom: PhantomData<(I, O)>,
}

impl<I, O, F: Fn(I) -> Vec<O>> SplitNode<I, O, F> {
    /// The splitting function.
    pub closed spec fn spec_splitter(&self) -> F {
        self.splitter
    }

    /// Create a new SplitNode from a function that maps an input to a Vec
    /// of outputs.
    pub fn new(splitter: F) -> (s: Self)
        ensures
            s.spec_splitter() == splitter,
    {
        SplitNode { splitter, _phantom: PhantomData }
    }

    /// Split `input`: all of the splitter's outputs, to be emitted together.
    pub fn split(&self, input: I) -> (t: Transition<O>)
        requires
            call_requires(self.spec_splitter(), (input,)),
        ensures
            t matches Transition::NextAll(v) && call_ensures(self.spec_splitter(), (input,), v),
    {
        let outputs = (self.splitter)(input);
        Transition::NextAll(outputs)
    }
}

} // verus!
