//! Where the result of a node with a direct edge leads: the run's output,
//! work items for its successors, work items for its fallbacks, nothing,
//! or the error.
use vstd::prelude::*;
use crate::error::FloxideError;
use crate::keyed::string_views;
use crate::transition::Transition;

verus! {

/// What a node's result leads to along a direct edge.
pub enum DirectRoute<I, O> {
    /// The node is terminal: its output is the run's output.
    Finish(O),
    /// Work items to queue, in order: each successor with an output.
    Schedule(Vec<(String, O)>),
    /// The node failed and has fallbacks: each fallback with the node's
    /// input, in order.
    Fallback(Vec<(String, I)>),
    /// Nothing is queued (the node holds, or fans out to no successor).
    Wait,
    /// The node failed without fallbacks: the run fails with this error.
    Fail(FloxideError),
}

/// `names` once for each of `m` outputs.
pub open spec fn repeat_names(names: Seq<Seq<char>>, m: nat) -> Seq<Seq<char>>
    decreases m,
{
    if m == 0 { Seq::empty() } else { repeat_names(names, (m - 1) as nat) + names }
}

/// Each of `outs`, `n` times in a row, in order.
pub open spec fn repeat_each<O>(outs: Seq<O>, n: nat) -> Seq<O>
    decreases outs.len(),
{
    if outs.len() == 0 {
        Seq::empty()
    } else {
        repeat_each(outs.drop_last(), n) + Seq::new(n, |k: int| outs.last())
    }
}

/// Whether the items `v` go, one by one, to `names` with copies of `srcs`.
pub open spec fn sends<T: Clone>(v: Seq<(String, T)>, names: Seq<Seq<char>>, srcs: Seq<T>) -> bool {
    &&& v.len() == names.len()
    &&& srcs.len() == names.len()
    &&& forall|k: int| 0 <= k < v.len() ==> (#[trigger] v[k]).0@ == names[k] && cloned(srcs[k], v[k].1)
}

/// What the generated code does with a node's result along a direct edge
/// to `succs` (with fallbacks `on_failure`, if any), given the node's
/// `input`.
pub open spec fn routes_to<I: Clone, O: Clone>(
    succs: Seq<Seq<char>>,
    on_failure: Option<Seq<Seq<char>>>,
    input: I,
    result: Result<Transition<O>, FloxideError>,
    r: DirectRoute<I, O>,
) -> bool {
    let failed = match result {
        Ok(Transition::Abort(e)) => Some(e),
        Err(e) => Some(e),
        _ => None,
    };
    match failed {
        Some(e) => match on_failure {
            Some(fs) => r matches DirectRoute::Fallback(v)
                && sends(v@, fs, Seq::new(fs.len(), |k: int| input)),
            None => r == DirectRoute::<I, O>::Fail(e),
        },
        None => match result {
            Ok(Transition::Next(a)) => if succs.len() == 0 {
                r == DirectRoute::<I, O>::Finish(a)
            } else {
                r matches DirectRoute::Schedule(v) && sends(v@, succs, Seq::new(succs.len(), |k: int| a))
            },
            Ok(Transition::NextAll(outs)) => if succs.len() == 0 {
                r is Wait
            } else {
                r matches DirectRoute::Schedule(v)
                    && sends(v@, repeat_names(succs, outs@.len()), repeat_each(outs@, succs.len()))
            },
            _ => r is Wait,
        },
    }
}

/// Queue, behind what `out` holds, each of `names` with a copy of `x`.
fn append_pairs<T: Clone>(names: &Vec<String>, x: &T, out: &mut Vec<(String, T)>)
    ensures
        final(out)@.len() == old(out)@.len() + names@.len(),
        forall|k: int| 0 <= k < old(out)@.len() ==> final(out)@[k] == old(out)@[k],
        forall|j: int| 0 <= j < names@.len() ==>
            (#[trigger] final(out)@[old(out)@.len() + j]).0@ == names@[j]@
            && cloned(*x, final(out)@[old(out)@.len() + j].1),
{
    let ghost start = out@;
    let mut j: usize = 0;
    while j < names.len()
        invariant
            j <= names@.len(),
            out@.len() == start.len() + j,
            forall|k: int| 0 <= k < start.len() ==> out@[k] == start[k],
            forall|i: int| 0 <= i < j ==>
                (#[trigger] out@[start.len() + i]).0@ == names@[i]@ && cloned(*x, out@[start.len() + i].1),
        decreases names@.len() - j,
    {
        let name = names[j].clone();
        let copy = x.clone();
        out.push((name, copy));
        j += 1;
    }
}

/// Lengths of the repeated names and outputs agree.
proof fn lemma_repeat_lengths<O>(names: Seq<Seq<char>>, outs: Seq<O>)
    ensures
        repeat_names(names, outs.len()).len() == repeat_each(outs, names.len()).len(),
    decreases outs.len(),
{
    if outs.len() > 0 {
        lemma_repeat_lengths(names, outs.drop_last());
    }
}

/// Each of `names`, for each of `outs` in turn, with a copy of it.
fn fan_out<O: Clone>(names: &Vec<String>, outs: &Vec<O>) -> (v: Vec<(String, O)>)
    ensures
        sends(v@, repeat_names(string_views(names@), outs@.len()), repeat_each(outs@, names@.len())),
{
    let ghost sv = string_views(names@);
    let mut out: Vec<(String, O)> = Vec::new();
    let mut i: usize = 0;
    while i < outs.len()
        invariant
            i <= outs@.len(),
            sv == string_views(names@),
            sends(out@, repeat_names(sv, i as nat), repeat_each(outs@.take(i as int), names@.len())),
        decreases outs@.len() - i,
    {
        let ghost before = out@;
        append_pairs(names, &outs[i], &mut out);
        proof {
            let rn = repeat_names(sv, (i + 1) as nat);
            let re = repeat_each(outs@.take(i + 1), names@.len());
            assert(outs@.take(i + 1).drop_last() =~= outs@.take(i as int));
            assert(outs@.take(i + 1).last() == outs@[i as int]);
            assert(rn == repeat_names(sv, i as nat) + sv);
            lemma_repeat_lengths(sv, outs@.take(i as int));
            assert forall|k: int| 0 <= k < out@.len() implies (#[trigger] out@[k]).0@ == rn[k] && cloned(re[k], out@[k].1) by {
                if k < before.len() {
                    assert(out@[k] == before[k]);
                } else {
                    let j = k - before.len();
                    assert(out@[before.len() + j] == out@[k]);
                    assert(sv[j] == names@[j]@);
                }
            }
        }
        i += 1;
    }
    proof {
        assert(outs@.take(outs@.len() as int) =~= outs@);
    }
    out
}

/// Where `result`, the result of a node given `input` whose direct edge
/// leads to `succs` (and, on failure, to `on_failure` if given), leads:
/// - `Next(o)`: to every successor with a copy of `o`; with no successor
///   the node is terminal and `o` is the run's output;
/// - `NextAll(os)`: to every successor with a copy of each of `os` in
///   turn; with no successor, nowhere;
/// - `Hold`: nowhere;
/// - `Abort(e)` or an error `e`: to every fallback with a copy of the
///   input, or, without fallbacks, to the failure of the run with `e`.
pub fn route_direct<I: Clone, O: Clone>(
    succs: &Vec<String>,
    on_failure: &Option<Vec<String>>,
    input: &I,
    result: Result<Transition<O>, FloxideError>,
) -> (r: DirectRoute<I, O>)
    ensures
        routes_to(
            string_views(succs@),
            match on_failure { Some(fs) => Some(string_views(fs@)), None => None },
            *input,
            result,
            r,
        ),
{
    let failure = match result {
        Ok(Transition::Next(a)) => {
            if succs.len() == 0 {
                return DirectRoute::Finish(a);
            }
            let mut v: Vec<(String, O)> = Vec::new();
            append_pairs(succs, &a, &mut v);
            proof {
                let srcs = Seq::new(succs@.len(), |k: int| a);
                assert forall|k: int| 0 <= k < v@.len() implies
                    (#[trigger] v@[k]).0@ == string_views(succs@)[k] && cloned(srcs[k], v@[k].1) by {
                    assert(v@[0 + k] == v@[k]);
                }
                assert(sends(v@, string_views(succs@), srcs));
            }
            return DirectRoute::Schedule(v);
        },
        Ok(Transition::NextAll(outs)) => {
            if succs.len() == 0 {
                return DirectRoute::Wait;
            }
            return DirectRoute::Schedule(fan_out(succs, &outs));
        },
        Ok(Transition::Hold) => {
            return DirectRoute::Wait;
        },
        Ok(Transition::Abort(e)) => e,
        Err(e) => e,
    };
    match on_failure {
        Some(fs) => {
            let mut v: Vec<(String, I)> = Vec::new();
            append_pairs(fs, input, &mut v);
            proof {
                let srcs = Seq::new(fs@.len(), |k: int| *input);
                assert forall|k: int| 0 <= k < v@.len() implies
                    (#[trigger] v@[k]).0@ == string_views(fs@)[k] && cloned(srcs[k], v@[k].1) by {
                    assert(v@[0 + k] == v@[k]);
                }
                assert(sends(v@, string_views(fs@), srcs));
            }
            DirectRoute::Fallback(v)
        },
        None => DirectRoute::Fail(failure),
    }
}

/// A failure is routed the same way whether the node returned an error or
/// aborted: with fallbacks, to each fallback in order with a copy of the
/// node's input; without, to the failure of the run with that error.
pub proof fn lemma_failures_route_alike<I: Clone, O: Clone>(
    succs: Seq<Seq<char>>,
    on_failure: Option<Seq<Seq<char>>>,
    input: I,
    e: FloxideError,
    aborted: DirectRoute<I, O>,
    errored: DirectRoute<I, O>,
)
    requires
        routes_to(succs, on_failure, input, Ok(Transition::Abort(e)), aborted),
        routes_to(succs, on_failure, input, Err(e), errored),
    ensures
        forall|r: DirectRoute<I, O>| #![trigger r is Fallback] r == aborted || r == errored ==> match on_failure {
            Some(fs) => r matches DirectRoute::Fallback(v) && v@.len() == fs.len()
                && forall|k: int| 0 <= k < fs.len() ==> (#[trigger] v@[k]).0@ == fs[k] && cloned(input, v@[k].1),
            None => r == DirectRoute::<I, O>::Fail(e),
        },
{
}

/// The position of output `a`'s item for successor `k` in a fan-out to
/// `n` successors: outputs in turn, successors in order within each.
pub open spec fn fan_slot(a: int, k: int, n: int) -> int {
    a * n + k
}

/// A single output goes to every successor in order, each with a copy of
/// it, and ends the run when there is no successor; a fan-out sends, for
/// each output in turn, a copy to every successor in order (`n` items per
/// output); a held node sends nothing.
pub proof fn lemma_successes_route_to_successors<I: Clone, O: Clone>(
    succs: Seq<Seq<char>>,
    on_failure: Option<Seq<Seq<char>>>,
    input: I,
    result: Result<Transition<O>, FloxideError>,
    r: DirectRoute<I, O>,
)
    requires
        routes_to(succs, on_failure, input, result, r),
    ensures
        result matches Ok(Transition::Next(o)) ==> if succs.len() == 0 {
            r == DirectRoute::<I, O>::Finish(o)
        } else {
            r matches DirectRoute::Schedule(v) && v@.len() == succs.len()
                && forall|k: int| 0 <= k < succs.len() ==> (#[trigger] v@[k]).0@ == succs[k] && cloned(o, v@[k].1)
        },
        result matches Ok(Transition::NextAll(outs)) ==> if succs.len() == 0 {
            r is Wait
        } else {
            r matches DirectRoute::Schedule(v) && v@.len() == outs@.len() * succs.len()
                && forall|a: int, k: int| 0 <= a < outs@.len() && 0 <= k < succs.len() ==>
                    (#[trigger] v@[fan_slot(a, k, succs.len() as int)]).0@ == succs[k]
                    && cloned(outs@[a], v@[fan_slot(a, k, succs.len() as int)].1)
        },
        result matches Ok(Transition::Hold) ==> r is Wait,
{
    if let Ok(Transition::NextAll(outs)) = result {
        if succs.len() > 0 {
            let n = succs.len() as int;
            lemma_fan_out_positions(succs, outs@);
            if let DirectRoute::Schedule(v) = r {
                assert forall|a: int, k: int| 0 <= a < outs@.len() && 0 <= k < n implies
                    (#[trigger] v@[fan_slot(a, k, n)]).0@ == succs[k] && cloned(outs@[a], v@[fan_slot(a, k, n)].1) by {
                    assert(0 <= a * n + k < outs@.len() * n) by (nonlinear_arith)
                        requires 0 <= a < outs@.len(), 0 <= k < n;
                    let s = fan_slot(a, k, n);
                    assert(repeat_names(succs, outs@.len())[s] == succs[k]);
                }
            }
        }
    }
}

/// Where each output and successor land in a fan-out.
proof fn lemma_fan_out_positions<O>(names: Seq<Seq<char>>, outs: Seq<O>)
    ensures
        repeat_names(names, outs.len()).len() == outs.len() * names.len(),
        repeat_each(outs, names.len()).len() == outs.len() * names.len(),
        forall|a: int, k: int| 0 <= a < outs.len() && 0 <= k < names.len() ==>
            repeat_names(names, outs.len())[#[trigger] fan_slot(a, k, names.len() as int)] == names[k]
            && repeat_each(outs, names.len())[fan_slot(a, k, names.len() as int)] == outs[a],
    decreases outs.len(),
{
    let n = names.len() as int;
    if outs.len() == 0 {
        assert(outs.len() * n == 0) by (nonlinear_arith)
            requires outs.len() == 0;
    } else {
        let rest = outs.drop_last();
        let m = rest.len() as int;
        lemma_fan_out_positions(names, rest);
        let rn = repeat_names(names, outs.len());
        let re = repeat_each(outs, names.len());
        assert(rn == repeat_names(names, rest.len()) + names);
        assert(re == repeat_each(rest, names.len()) + Seq::new(names.len(), |k: int| outs.last()));
        assert(outs.len() * n == m * n + n) by (nonlinear_arith)
            requires outs.len() == m + 1;
        assert forall|a: int, k: int| 0 <= a < outs.len() && 0 <= k < n implies
            rn[#[trigger] fan_slot(a, k, n)] == names[k] && re[fan_slot(a, k, n)] == outs[a] by {
            if a < m {
                assert(a * n + k < m * n) by (nonlinear_arith)
                    requires 0 <= a < m, 0 <= k < n;
                assert(rest[a] == outs[a]);
                assert(repeat_names(names, rest.len())[fan_slot(a, k, n)] == names[k]);
            } else {
                assert(a * n == m * n) by (nonlinear_arith)
                    requires a == m;
            }
        }
    }
}

} // verus!
