//! Retry policies for nodes: which errors to retry, how many attempts to
//! make, and how long to wait between attempts.
use std::time::Duration;
use vstd::prelude::*;
use vstd::arithmetic::power2::pow2;
use crate::duration::{duration_nanos, nanos_of, saturate_nanos, saturating_add, saturating_mul};
use crate::error::FloxideError;
use crate::transition::Transition;

verus! {

/// Strategy for computing backoff durations.
#[derive(Clone, Copy, Debug)]
pub enum BackoffStrategy {
    /// Delay = initial_backoff * attempt_count
    Linear,
    /// Delay = initial_backoff * 2^(attempt_count - 1)
    Exponential,
}

/// Which errors should be retried.
#[derive(Clone, Copy, Debug)]
pub enum RetryError {
    /// Retry on any error.
    All,
    /// Retry only on cancellation.
    Cancelled,
    /// Retry only on timeout.
    Timeout,
    /// Retry only on generic errors.
    Generic,
}

/// Policy controlling retry behavior for nodes.
#[derive(Clone, Debug)]
pub struct RetryPolicy {
    /// Maximum number of attempts (including the first).
    pub max_attempts: usize,
    /// Initial backoff duration between retries.
    pub initial_backoff: Duration,
    /// Maximum backoff duration allowed.
    pub max_backoff: Duration,
    /// Strategy to compute backoff durations.
    pub strategy: BackoffStrategy,
    /// Optional fixed jitter to add to each backoff.
    pub jitter: Option<Duration>,
    /// Error predicate controlling which errors to retry.
    pub retry_error: RetryError,
}

/// Whether `error` is of the kind that `kind` selects for retrying.
pub open spec fn error_is_retryable(kind: RetryError, error: FloxideError) -> bool {
    match kind {
        RetryError::All => true,
        RetryError::Cancelled => error is Cancelled,
        RetryError::Timeout => error is Timeout,
        RetryError::Generic => error is Generic,
    }
}

/// The factor by which the initial backoff is multiplied after attempt
/// `attempt` (1-based): the attempt itself (as a `u32`, truncated) for linear
/// backoff, `2^(attempt - 1)` for exponential backoff (`u32::MAX` once that
/// exceeds 32 bits).
pub open spec fn backoff_factor(strategy: BackoffStrategy, attempt: usize) -> nat {
    match strategy {
        BackoffStrategy::Linear => (attempt as u32) as nat,
        BackoffStrategy::Exponential => {
            let exp: nat = if attempt == 0 { 0 } else { (attempt - 1) as nat };
            if exp < 32 { pow2(exp) } else { 4294967295nat }
        },
    }
}

impl RetryPolicy {
    /// Whether an error is retried on attempt `attempt` (1-based).
    pub open spec fn spec_should_retry(&self, error: FloxideError, attempt: usize) -> bool {
        attempt < self.max_attempts && error_is_retryable(self.retry_error, error)
    }

    /// The backoff after attempt `attempt`, in nanoseconds: the initial
    /// backoff times the strategy's factor (saturating), capped at
    /// `max_backoff`, plus the jitter if there is one (saturating).
    pub open spec fn spec_backoff_nanos(&self, attempt: usize) -> nat {
        let base = saturate_nanos(
            duration_nanos(self.initial_backoff) * backoff_factor(self.strategy, attempt),
        );
        let max = duration_nanos(self.max_backoff);
        let capped = if base > max { max } else { base };
        match self.jitter {
            Some(j) => saturate_nanos(capped + duration_nanos(j)),
            None => capped,
        }
    }

    /// Construct a new RetryPolicy.
    pub fn new(
        max_attempts: usize,
        initial_backoff: Duration,
        max_backoff: Duration,
        strategy: BackoffStrategy,
        retry_error: RetryError,
    ) -> (p: Self)
        ensures
            p.max_attempts == max_attempts,
            p.initial_backoff == initial_backoff,
            p.max_backoff == max_backoff,
            p.strategy == strategy,
            p.jitter is None,
            p.retry_error == retry_error,
    {
        RetryPolicy { max_attempts, initial_backoff, max_backoff, strategy, jitter: None, retry_error }
    }

    /// Specify a fixed jitter offset to add to each backoff.
    pub fn with_jitter(self, jitter: Duration) -> (p: Self)
        ensures
            p == (RetryPolicy { jitter: Some(jitter), ..self }),
    {
        let mut p = self;
        p.jitter = Some(jitter);
        p
    }

    /// Determine whether an error should be retried for the given attempt (1-based).
    pub fn should_retry(&self, error: &FloxideError, attempt: usize) -> (r: bool)
        ensures
            r == self.spec_should_retry(*error, attempt),
    {
        if attempt >= self.max_attempts {
            return false;
        }
        match self.retry_error {
            RetryError::All => true,
            RetryError::Cancelled => matches!(error, FloxideError::Cancelled),
            RetryError::Timeout => matches!(error, FloxideError::Timeout(_)),
            RetryError::Generic => matches!(error, FloxideError::Generic(_)),
        }
    }

    /// Compute the backoff duration before the next retry given the attempt count (1-based).
    pub fn backoff_duration(&self, attempt: usize) -> (d: Duration)
        ensures
            duration_nanos(d) == self.spec_backoff_nanos(attempt),
    {
        let base = match self.strategy {
            BackoffStrategy::Linear => saturating_mul(self.initial_backoff, #[verifier::truncate] (attempt as u32)),
            BackoffStrategy::Exponential => {
                // Compute 2^(attempt-1) with shift, saturating at 32 bits
                let exp = attempt.saturating_sub(1);
                let factor: u32 = if exp < 32 {
                    let e: u32 = exp as u32;
                    proof {
                        vstd::arithmetic::power2::lemma2_to64();
                        if e < 32 {
                            vstd::arithmetic::power2::lemma_pow2_strictly_increases(e as nat, 32);
                        }
                        vstd::bits::lemma_u32_shl_is_mul(1, e);
                    }
                    1u32 << e
                } else {
                    u32::MAX
                };
                saturating_mul(self.initial_backoff, factor)
            },
        };
        let capped = if nanos_of(&base) > nanos_of(&self.max_backoff) {
            self.max_backoff
        } else {
            base
        };
        match self.jitter {
            Some(j) => saturating_add(capped, j),
            None => capped,
        }
    }
}


/// Wrap an existing node with retry behavior according to the given policy.
pub fn with_retry<N>(node: N, policy: RetryPolicy) -> (r: RetryNode<N>)
    ensures
        r.inner == node,
        r.policy == policy,
{
    RetryNode::new(node, policy)
}

/// Wrapper node that applies a `RetryPolicy` on inner node failures.
///
/// It re-runs the inner node up to `policy.max_attempts` times, waiting
/// out the policy's backoff between attempts.
#[derive(Clone, Debug)]
pub struct RetryNode<N> {
    /// Inner node to invoke.
    pub inner: N,
    /// Policy controlling retry attempts and backoff.
    pub policy: RetryPolicy,
}

/// What a retrying node does once an attempt of its inner node has ended.
pub enum RetryStep<O> {
    /// Hand this result to the workflow: a success, or an error not retried.
    Finish(Result<Transition<O>, FloxideError>),
    /// Wait this long, then make the next attempt.
    RetryAfter(Duration),
}

impl<N> RetryNode<N> {
    /// Create a new retry wrapper around `inner` with the given `policy`.
    pub fn new(inner: N, policy: RetryPolicy) -> (r: Self)
        ensures
            r.inner == inner,
            r.policy == policy,
    {
        RetryNode { inner, policy }
    }

    /// The error an attempt's result carries, if it failed: an `Err`, or
    /// a `Transition::Abort`.
    pub open spec fn failure_of<O>(result: Result<Transition<O>, FloxideError>) -> Option<FloxideError> {
        match result {
            Ok(Transition::Abort(e)) => Some(e),
            Err(e) => Some(e),
            _ => None,
        }
    }

    /// Decide what follows attempt `attempt` (1-based) of the inner node,
    /// which ended with `result`. Successes (`Next`, `NextAll`, `Hold`) are
    /// handed on unchanged. A failure is retried after the policy's backoff
    /// when the policy allows it, and is otherwise handed on as an `Err`.
    pub fn next_step<O>(&self, result: Result<Transition<O>, FloxideError>, attempt: usize) -> (s: RetryStep<O>)
        ensures
            match Self::failure_of(result) {
                None => s == RetryStep::Finish(result),
                Some(e) => if self.policy.spec_should_retry(e, attempt) {
                    s matches RetryStep::RetryAfter(d)
                        && duration_nanos(d) == self.policy.spec_backoff_nanos(attempt)
                } else {
                    s == RetryStep::<O>::Finish(Err(e))
                },
            },
    {
        let e = match result {
            Ok(Transition::Abort(e)) => e,
            Err(e) => e,
            Ok(t) => return RetryStep::Finish(Ok(t)),
        };
        if self.policy.should_retry(&e, attempt) {
            RetryStep::RetryAfter(self.policy.backoff_duration(attempt))
        } else {
            RetryStep::Finish(Err(e))
        }
    }
}

impl<N> RetryNode<N> {
    /// Whether attempt `attempt` (1-based), which ended with `result`, is
    /// followed by another: it failed and the policy retries its error.
    pub open spec fn retries<O>(&self, result: Result<Transition<O>, FloxideError>, attempt: usize) -> bool {
        match Self::failure_of(result) {
            Some(e) => self.policy.spec_should_retry(e, attempt),
            None => false,
        }
    }

    /// What an attempt's result hands on when it is not retried: the
    /// success itself, or the failure's error.
    pub open spec fn handed_on<O>(result: Result<Transition<O>, FloxideError>) -> Result<Transition<O>, FloxideError> {
        match Self::failure_of(result) {
            Some(e) => Err(e),
            None => result,
        }
    }

    /// Whether `results` (the attempts made by `attempt_once` on `input`)
    /// and `delays` (the waits asked of `wait`) make a run of the retrying
    /// node that returns `r`: every attempt but the last was retried after
    /// the policy's backoff for it, and the run ends either with an attempt
    /// that is not retried (whose result is handed on) or with a wait that
    /// failed (whose error is returned).
    pub open spec fn is_retry_run<I, O, F, W>(
        &self,
        attempt_once: F,
        wait: W,
        input: &I,
        results: Seq<Result<Transition<O>, FloxideError>>,
        delays: Seq<Duration>,
        r: Result<Transition<O>, FloxideError>,
    ) -> bool
        where
            F: Fn(&N, &I) -> Result<Transition<O>, FloxideError>,
            W: Fn(Duration) -> Result<(), FloxideError>,
    {
        &&& results.len() >= 1
        &&& forall|i: int| 0 <= i < results.len() ==>
            call_ensures(attempt_once, (&self.inner, input), #[trigger] results[i])
        &&& forall|i: int| 0 <= i < delays.len() ==>
            self.retries(results[i], (i + 1) as usize)
            && duration_nanos(#[trigger] delays[i]) == self.policy.spec_backoff_nanos((i + 1) as usize)
        &&& forall|i: int| 0 <= i < results.len() - 1 ==> call_ensures(wait, (#[trigger] delays[i],), Ok(()))
        &&& if delays.len() == results.len() - 1 {
            &&& !self.retries(results.last(), results.len() as usize)
            &&& r == Self::handed_on(results.last())
        } else {
            &&& delays.len() == results.len()
            &&& exists|e: FloxideError| #[trigger] call_ensures(wait, (delays.last(),), Err::<(), FloxideError>(e))
                && r == Err::<Transition<O>, FloxideError>(e)
        }
    }

    /// Run the inner node on `input` until an attempt is not retried,
    /// waiting the policy's backoff before each new attempt. `attempt_once`
    /// makes one attempt; `wait` waits, and an error from it ends the run
    /// with that error. The node makes at most `max_attempts` attempts (at
    /// least one).
    pub fn process_with<I, O, F, W>(&self, input: &I, attempt_once: F, wait: W) -> (r: Result<Transition<O>, FloxideError>)
        where
            F: Fn(&N, &I) -> Result<Transition<O>, FloxideError>,
            W: Fn(Duration) -> Result<(), FloxideError>,
        requires
            call_requires(attempt_once, (&self.inner, input)),
            forall|d: Duration| #[trigger] call_requires(wait, (d,)),
        ensures
            exists|results: Seq<Result<Transition<O>, FloxideError>>, delays: Seq<Duration>|
                #[trigger] self.is_retry_run(attempt_once, wait, input, results, delays, r)
                && results.len() <= if self.policy.max_attempts == 0 { 1 } else { self.policy.max_attempts as int },
    {
        let ghost mut results: Seq<Result<Transition<O>, FloxideError>> = Seq::empty();
        let ghost mut delays: Seq<Duration> = Seq::empty();
        let mut attempt: usize = 1;
        loop
            invariant
                call_requires(attempt_once, (&self.inner, input)),
                forall|d: Duration| #[trigger] call_requires(wait, (d,)),
                1 <= attempt,
                attempt == 1 || attempt <= self.policy.max_attempts,
                results.len() == attempt - 1,
                delays.len() == attempt - 1,
                forall|i: int| 0 <= i < results.len() ==>
                    call_ensures(attempt_once, (&self.inner, input), #[trigger] results[i]),
                forall|i: int| 0 <= i < delays.len() ==> self.retries(#[trigger] results[i], (i + 1) as usize),
                forall|i: int| 0 <= i < delays.len() ==>
                    duration_nanos(#[trigger] delays[i]) == self.policy.spec_backoff_nanos((i + 1) as usize),
                forall|i: int| 0 <= i < delays.len() ==> call_ensures(wait, (#[trigger] delays[i],), Ok(())),
            decreases self.policy.max_attempts - attempt,
        {
            let res = attempt_once(&self.inner, input);
            let ghost this = res;
            let ghost earlier = results;
            proof {
                results = results.push(this);
                assert forall|i: int| 0 <= i < results.len() implies
                    call_ensures(attempt_once, (&self.inner, input), #[trigger] results[i]) by {
                    if i < earlier.len() {
                        assert(results[i] == earlier[i]);
                    }
                }
                assert forall|i: int| 0 <= i < delays.len() implies
                    self.retries(results[i], (i + 1) as usize)
                    && duration_nanos(#[trigger] delays[i]) == self.policy.spec_backoff_nanos((i + 1) as usize) by {
                    assert(results[i] == earlier[i]);
                }
            }
            match self.next_step(res, attempt) {
                RetryStep::Finish(out) => {
                    proof {
                        assert(results.last() == this);
                        assert(self.is_retry_run(attempt_once, wait, input, results, delays, out));
                    }
                    return out;
                },
                RetryStep::RetryAfter(d) => {
                    proof {
                        let e = Self::failure_of(this)->0;
                        lemma_retry_within_max_attempts(self.policy, e, attempt);
                    }
                    let waited = wait(d);
                    let ghost outcome = waited;
                    let ghost old_delays = delays;
                    proof {
                        delays = delays.push(d);
                        assert forall|i: int| 0 <= i < delays.len() implies
                            self.retries(results[i], (i + 1) as usize)
                            && duration_nanos(#[trigger] delays[i]) == self.policy.spec_backoff_nanos((i + 1) as usize) by {
                            if i < old_delays.len() {
                                assert(delays[i] == old_delays[i]);
                            }
                        }
                    }
                    match waited {
                        Ok(u) => {
                            proof {
                                let unit: () = u;
                                assert(unit == ());
                                assert(outcome == Ok::<(), FloxideError>(()));
                                assert(call_ensures(wait, (d,), outcome));
                                assert forall|i: int| 0 <= i < delays.len() implies
                                    call_ensures(wait, (#[trigger] delays[i],), Ok::<(), FloxideError>(())) by {
                                    if i < old_delays.len() {
                                        assert(delays[i] == old_delays[i]);
                                    } else {
                                        assert(delays[i] == d);
                                    }
                                }
                            }
                            attempt = attempt + 1;
                        },
                        Err(e) => {
                            proof {
                                assert forall|i: int| 0 <= i < results.len() - 1 implies
                                    call_ensures(wait, (#[trigger] delays[i],), Ok(())) by {
                                    assert(delays[i] == old_delays[i]);
                                }
                                assert(call_ensures(wait, (delays.last(),), Err::<(), FloxideError>(e)));
                                assert(self.is_retry_run(attempt_once, wait, input, results, delays, Err(e)));
                            }
                            return Err(e);
                        },
                    }
                },
            }
        }
    }
}

/// A retried error always leaves room for one more attempt: no error is
/// retried on or after attempt `max_attempts`, so a node wrapped in a
/// policy runs at most `max_attempts` times (at least once).
pub proof fn lemma_retry_within_max_attempts(policy: RetryPolicy, error: FloxideError, attempt: usize)
    requires
        policy.spec_should_retry(error, attempt),
    ensures
        attempt < policy.max_attempts,
        attempt + 1 <= policy.max_attempts,
{
}

/// Without jitter, no backoff exceeds `max_backoff`; with a jitter, no
/// backoff exceeds `max_backoff` plus the jitter.
pub proof fn lemma_backoff_capped(policy: RetryPolicy, attempt: usize)
    ensures
        policy.jitter is None ==> policy.spec_backoff_nanos(attempt) <= duration_nanos(policy.max_backoff),
        policy.jitter matches Some(j) ==> policy.spec_backoff_nanos(attempt)
            <= duration_nanos(policy.max_backoff) + duration_nanos(j),
{
}

/// The saturated product of a duration and a factor grows with the factor.
proof fn lemma_saturated_product_monotone(d: nat, f1: nat, f2: nat)
    requires
        f1 <= f2,
    ensures
        saturate_nanos(d * f1) <= saturate_nanos(d * f2),
{
    vstd::arithmetic::mul::lemma_mul_inequality(f1 as int, f2 as int, d as int);
    vstd::arithmetic::mul::lemma_mul_is_commutative(f1 as int, d as int);
    vstd::arithmetic::mul::lemma_mul_is_commutative(f2 as int, d as int);
}

/// The exponential factor grows with the attempt.
proof fn lemma_exponential_factor_monotone(a: usize, b: usize)
    requires
        a <= b,
    ensures
        backoff_factor(BackoffStrategy::Exponential, a) <= backoff_factor(BackoffStrategy::Exponential, b),
{
    let ea: nat = if a == 0 { 0 } else { (a - 1) as nat };
    let eb: nat = if b == 0 { 0 } else { (b - 1) as nat };
    vstd::arithmetic::power2::lemma2_to64();
    if ea < 32 {
        if ea < eb {
            vstd::arithmetic::power2::lemma_pow2_strictly_increases(ea, eb);
        }
        if ea < 31 {
            vstd::arithmetic::power2::lemma_pow2_strictly_increases(ea, 31);
        }
    }
}

/// Backoffs never shrink from one attempt to the next under exponential
/// backoff: the delays form a non-decreasing schedule.
pub proof fn lemma_exponential_backoff_monotone(policy: RetryPolicy, a: usize, b: usize)
    requires
        policy.strategy is Exponential,
        a <= b,
    ensures
        policy.spec_backoff_nanos(a) <= policy.spec_backoff_nanos(b),
{
    lemma_exponential_factor_monotone(a, b);
    lemma_saturated_product_monotone(
        duration_nanos(policy.initial_backoff),
        backoff_factor(policy.strategy, a),
        backoff_factor(policy.strategy, b),
    );
}

/// Backoffs never shrink from one attempt to the next under linear
/// backoff, for attempts that fit in 32 bits (the factor is the attempt
/// taken as a `u32`).
pub proof fn lemma_linear_backoff_monotone(policy: RetryPolicy, a: usize, b: usize)
    requires
        policy.strategy is Linear,
        a <= b,
        b <= u32::MAX,
    ensures
        policy.spec_backoff_nanos(a) <= policy.spec_backoff_nanos(b),
{
    assert((a as u32) as nat == a as nat);
    assert((b as u32) as nat == b as nat);
    lemma_saturated_product_monotone(duration_nanos(policy.initial_backoff), a as nat, b as nat);
}

} // verus!
