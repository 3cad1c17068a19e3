//! Running a node over a batch of inputs, and gathering what the runs
//! produced.
use std::marker::PhantomData;
use vstd::prelude::*;
use crate::error::FloxideError;
use crate::transition::Transition;

verus! {

/// A node adapter that runs an inner node on a batch of inputs, collecting
/// outputs; up to `batch_size` runs go at once.
#[derive(Debug)]
pub struct BatchNode<C, N> {
    pub node: N,
    pub batch_size: usize,
    _phantom: PhantomData<C>,
}

impl<C, N> BatchNode<C, N> {
    /// The node run on each input.
    pub closed spec fn spec_node(&self) -> N {
        self.node
    }

    /// The batch size.
    pub closed spec fn spec_batch_size(&self) -> usize {
        self.batch_size
    }

    /// Wraps an existing node into a batch adapter with a batch size.
    pub fn new(node: N, batch_size: usize) -> (b: Self)
        ensures
            b.spec_node() == node,
            b.spec_batch_size() == batch_size,
    {
        BatchNode { node, batch_size, _phantom: PhantomData }
    }

    /// How many runs are started before their results are gathered: the
    /// batch size, and at least one.
    pub fn chunk_size(&self) -> (n: usize)
        ensures
            n == if self.spec_batch_size() == 0 { 1 } else { self.spec_batch_size() },
    {
        if self.batch_size == 0 { 1 } else { self.batch_size }
    }
}

impl<C, N: Clone> Clone for BatchNode<C, N> {
    fn clone(&self) -> (b: Self)
        ensures
            cloned(self.spec_node(), b.spec_node()),
            b.spec_batch_size() == self.spec_batch_size(),
    {
        BatchNode { node: self.node.clone(), batch_size: self.batch_size, _phantom: PhantomData }
    }
}

/// The outcome of a batch whose runs ended with `results`, in input order:
/// the outputs of every run (one for `Next`, all for `NextAll`, none for
/// `Hold`), or the first error (an `Err`, or a `Transition::Abort`).
pub open spec fn batch_outcome<O>(results: Seq<Result<Transition<O>, FloxideError>>) -> Result<Seq<O>, FloxideError>
    decreases results.len(),
{
    if results.len() == 0 {
        Ok(Seq::empty())
    } else {
        match batch_outcome(results.drop_last()) {
            Err(e) => Err(e),
            Ok(outs) => match results.last() {
                Ok(Transition::Next(o)) => Ok(outs.push(o)),
                Ok(Transition::NextAll(v)) => Ok(outs + v@),
                Ok(Transition::Hold) => Ok(outs),
                Ok(Transition::Abort(e)) => Err(e),
                Err(e) => Err(e),
            },
        }
    }
}

/// Gathering results chunk by chunk gives what gathering them all at once
/// gives: the outputs of the first chunk followed by those of the second,
/// or the first error.
pub proof fn lemma_batch_outcome_append<O>(a: Seq<Result<Transition<O>, FloxideError>>, b: Seq<Result<Transition<O>, FloxideError>>)
    ensures
        batch_outcome(a + b) == match batch_outcome(a) {
            Err(e) => Err(e),
            Ok(x) => match batch_outcome(b) {
                Ok(y) => Ok(x + y),
                Err(e) => Err::<Seq<O>, FloxideError>(e),
            },
        },
    decreases b.len(),
{
    if b.len() == 0 {
        assert(a + b =~= a);
        if let Ok(x) = batch_outcome(a) {
            assert(x + Seq::<O>::empty() =~= x);
        }
    } else {
        lemma_batch_outcome_append(a, b.drop_last());
        assert((a + b).drop_last() =~= a + b.drop_last());
        assert((a + b).last() == b.last());
        if let Ok(x) = batch_outcome(a) {
            if let Ok(y) = batch_outcome(b.drop_last()) {
                match b.last() {
                    Ok(Transition::Next(o)) => { assert((x + y).push(o) =~= x + y.push(o)); },
                    Ok(Transition::NextAll(v)) => { assert((x + y) + v@ =~= x + (y + v@)); },
                    _ => {},
                }
            }
        }
    }
}

/// Append to `outputs` what the runs ending with `results` produced, in
/// order, stopping at the first error, which is returned.
pub fn collect_batch<O>(outputs: &mut Vec<O>, results: Vec<Result<Transition<O>, FloxideError>>) -> (r: Result<(), FloxideError>)
    ensures
        match batch_outcome(results@) {
            Ok(s) => r is Ok && final(outputs)@ == old(outputs)@ + s,
            Err(e) => r == Err::<(), FloxideError>(e),
        },
{
    let ghost orig = results@;
    let ghost start = outputs@;
    let mut rest = results;
    let ghost mut k: int = 0;
    while rest.len() > 0
        invariant
            0 <= k <= orig.len(),
            orig == results@,
            rest@ == orig.skip(k),
            batch_outcome(orig.take(k)) matches Ok(s) && outputs@ == start + s,
        decreases rest@.len(),
    {
        let res = rest.remove(0);
        proof {
            assert(orig.take(k + 1).drop_last() =~= orig.take(k));
            assert(orig.skip(k)[0] == orig[k]);
            assert(orig.take(k + 1).last() == res);
            lemma_batch_outcome_append(orig.take(k + 1), orig.skip(k + 1));
            assert(orig.take(k + 1) + orig.skip(k + 1) =~= orig);
        }
        match res {
            Ok(Transition::Next(o)) => {
                outputs.push(o);
            },
            Ok(Transition::NextAll(os)) => {
                let mut os = os;
                let ghost osv = os@;
                outputs.append(&mut os);
                proof { assert(start + batch_outcome(orig.take(k))->Ok_0 + osv =~= outputs@); }
            },
            Ok(Transition::Hold) => {},
            Ok(Transition::Abort(e)) => {
                proof {
                    assert(batch_outcome(orig.take(k + 1)) == Err::<Seq<O>, FloxideError>(e));
                    assert(batch_outcome(orig) == Err::<Seq<O>, FloxideError>(e));
                }
                return Err(e);
            },
            Err(e) => {
                proof {
                    assert(batch_outcome(orig.take(k + 1)) == Err::<Seq<O>, FloxideError>(e));
                    assert(batch_outcome(orig) == Err::<Seq<O>, FloxideError>(e));
                }
                return Err(e);
            },
        }
        proof {
            k = k + 1;
            assert(rest@ =~= orig.skip(k));
        }
    }
    proof {
        assert(orig.take(k) =~= orig);
    }
    Ok(())
}

/// The items of the vectors of `s`, in order.
pub open spec fn flatten_vecs<T>(s: Seq<Vec<T>>) -> Seq<T>
    decreases s.len(),
{
    if s.len() == 0 {
        Seq::empty()
    } else {
        flatten_vecs(s.drop_last()) + s.last()@
    }
}

proof fn lemma_flatten_push<T>(s: Seq<Vec<T>>, x: Vec<T>)
    ensures
        flatten_vecs(s.push(x)) == flatten_vecs(s) + x@,
{
    assert(s.push(x).drop_last() =~= s);
}

impl<C, N> BatchNode<C, N> {
    /// Whether `chunks` (the chunks handed to `run_chunk`, in order) and
    /// `results` (what it gave for each) make a run of the batch node on
    /// `inputs` that returns `r`: the chunks are consecutive runs of the
    /// inputs, each of `chunk_size` inputs save a last shorter one at the
    /// end; every chunk before the last gathered without error; and the run
    /// stops at the end of the inputs with every output in input order, or
    /// after the first chunk that failed, with its first error.
    pub open spec fn is_chunk_run<I, O, F: Fn(Vec<I>) -> Vec<Result<Transition<O>, FloxideError>>>(
        &self,
        run_chunk: F,
        inputs: Seq<I>,
        chunks: Seq<Vec<I>>,
        results: Seq<Vec<Result<Transition<O>, FloxideError>>>,
        r: Result<Vec<O>, FloxideError>,
    ) -> bool {
        let size = if self.spec_batch_size() == 0 { 1 } else { self.spec_batch_size() as int };
        let done = flatten_vecs(chunks);
        &&& chunks.len() == results.len()
        &&& forall|k: int| 0 <= k < chunks.len() ==> call_ensures(run_chunk, (chunks[k],), #[trigger] results[k])
        &&& done.len() <= inputs.len()
        &&& inputs.take(done.len() as int) == done
        &&& forall|k: int| 0 <= k < chunks.len() - 1 ==> (#[trigger] chunks[k])@.len() == size
        &&& chunks.len() > 0 ==> 1 <= chunks.last()@.len() <= size
            && (chunks.last()@.len() == size || done.len() == inputs.len())
        &&& forall|k: int| 0 <= k < chunks.len() - 1 ==> batch_outcome((#[trigger] results[k])@) is Ok
        &&& match r {
            Ok(v) => done.len() == inputs.len() && batch_outcome(flatten_vecs(results)) == Ok::<Seq<O>, FloxideError>(v@),
            Err(e) => chunks.len() > 0 && batch_outcome(results.last()@) is Err
                && batch_outcome(flatten_vecs(results)) == Err::<Seq<O>, FloxideError>(e),
        }
    }

    /// Run the inner node on every input, `chunk_size` inputs at a time:
    /// `run_chunk` runs one chunk and gives the result of each of its
    /// inputs, in order. The outputs are gathered in input order; after the
    /// first chunk with a failure, no later chunk is run and the first
    /// failure of that chunk is returned.
    pub fn process_chunks<I, O, F>(&self, inputs: Vec<I>, run_chunk: F) -> (r: Result<Vec<O>, FloxideError>)
        where
            F: Fn(Vec<I>) -> Vec<Result<Transition<O>, FloxideError>>,
        requires
            forall|c: Vec<I>| #[trigger] call_requires(run_chunk, (c,)),
        ensures
            exists|chunks: Seq<Vec<I>>, results: Seq<Vec<Result<Transition<O>, FloxideError>>>|
                #[trigger] self.is_chunk_run(run_chunk, inputs@, chunks, results, r),
    {
        let size = self.chunk_size();
        let ghost all = inputs@;
        let ghost mut chunks: Seq<Vec<I>> = Seq::empty();
        let ghost mut results: Seq<Vec<Result<Transition<O>, FloxideError>>> = Seq::empty();
        let mut rest = inputs;
        let mut outputs: Vec<O> = Vec::new();
        while rest.len() > 0
            invariant
                forall|c: Vec<I>| #[trigger] call_requires(run_chunk, (c,)),
                size == if self.spec_batch_size() == 0 { 1 } else { self.spec_batch_size() },
                all == inputs@,
                flatten_vecs(chunks) + rest@ == all,
                chunks.len() == results.len(),
                forall|k: int| 0 <= k < chunks.len() ==> call_ensures(run_chunk, (chunks[k],), #[trigger] results[k]),
                forall|k: int| 0 <= k < chunks.len() - 1 ==> (#[trigger] chunks[k])@.len() == size,
                chunks.len() > 0 ==> 1 <= chunks.last()@.len() <= size
                    && (chunks.last()@.len() == size || rest@.len() == 0),
                forall|k: int| 0 <= k < chunks.len() ==> batch_outcome((#[trigger] results[k])@) is Ok,
                batch_outcome(flatten_vecs(results)) == Ok::<Seq<O>, FloxideError>(outputs@),
            decreases rest@.len(),
        {
            let ghost before = rest@;
            let mut chunk: Vec<I> = Vec::new();
            while chunk.len() < size && rest.len() > 0
                invariant
                    chunk@ + rest@ == before,
                    chunk@.len() <= size,
                    size >= 1,
                decreases rest@.len(),
            {
                let x = rest.remove(0);
                proof {
                    assert(chunk@.push(x) + rest@ =~= before);
                }
                chunk.push(x);
            }
            proof {
                if chunk@.len() == 0 {
                    assert(rest@ =~= before);
                }
                if chunks.len() > 0 {
                    assert(chunks.last()@.len() == size);
                }
            }
            let ghost this_chunk = chunk;
            let rs = run_chunk(chunk);
            let ghost this_results = rs;
            let ghost old_chunks = chunks;
            let ghost old_results = results;
            let ghost old_outputs = outputs@;
            proof {
                lemma_flatten_push(chunks, this_chunk);
                lemma_flatten_push(results, this_results);
                chunks = chunks.push(this_chunk);
                results = results.push(this_results);
                lemma_batch_outcome_append(flatten_vecs(old_results), this_results@);
                assert(flatten_vecs(chunks) + rest@ =~= all);
                assert forall|k: int| 0 <= k < chunks.len() implies call_ensures(run_chunk, (chunks[k],), #[trigger] results[k]) by {
                    if k < old_chunks.len() {
                        assert(chunks[k] == old_chunks[k] && results[k] == old_results[k]);
                    }
                }
                assert forall|k: int| 0 <= k < chunks.len() - 1 implies (#[trigger] chunks[k])@.len() == size by {
                    assert(chunks[k] == old_chunks[k]);
                }
                assert forall|k: int| 0 <= k < chunks.len() - 1 implies batch_outcome((#[trigger] results[k])@) is Ok by {
                    assert(results[k] == old_results[k]);
                }
                assert(all.take(flatten_vecs(chunks).len() as int) =~= flatten_vecs(chunks));
            }
            let gathered = collect_batch(&mut outputs, rs);
            match gathered {
                Err(e) => {
                    proof {
                        assert(self.is_chunk_run(run_chunk, all, chunks, results, Err(e)));
                    }
                    return Err(e);
                },
                Ok(()) => {
                    proof {
                        assert(outputs@ =~= old_outputs + batch_outcome(this_results@)->Ok_0);
                        assert forall|k: int| 0 <= k < chunks.len() - 1 implies (#[trigger] chunks[k])@.len() == size by {
                            assert(chunks[k] == old_chunks[k]);
                            if k == old_chunks.len() - 1 {
                                assert(old_chunks.last() == old_chunks[k]);
                            }
                        }
                        assert forall|k: int| 0 <= k < chunks.len() implies batch_outcome((#[trigger] results[k])@) is Ok by {
                            if k < old_results.len() {
                                assert(results[k] == old_results[k]);
                            }
                        }
                    }
                },
            }
        }
        proof {
            assert(flatten_vecs(chunks) =~= all);
            assert(all.take(all.len() as int) =~= all);
            assert(forall|k: int| 0 <= k < chunks.len() - 1 ==> batch_outcome((#[trigger] results[k])@) is Ok);
        }
        let r: Result<Vec<O>, FloxideError> = Ok(outputs);
        proof {
            assert(self.is_chunk_run(run_chunk, all, chunks, results, r));
        }
        r
    }
}

} // verus!
