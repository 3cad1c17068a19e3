//! Node-level retry with a chosen backoff schedule: constant, linear,
//! exponential (capped), or a caller-supplied function of the attempt.
use std::marker::PhantomData;
use std::time::Duration;
use vstd::prelude::*;
use vstd::arithmetic::power2::pow2;
use crate::duration::{duration_nanos, from_millis, max_duration_nanos, mul_exact, add_exact, nanos_of};

verus! {

/// A delay schedule: the delay to wait after a given attempt.
pub trait BackoffSchedule: Send + Sync {
    /// Whether the schedule can compute the delay for `attempt`.
    spec fn accepts(&self, attempt: usize) -> bool;

    /// Whether `d` is a delay the schedule can give for `attempt`.
    spec fn produces(&self, attempt: usize, d: Duration) -> bool;

    /// The delay after `attempt`.
    fn delay(&self, attempt: usize) -> (d: Duration)
        requires
            self.accepts(attempt),
        ensures
            self.produces(attempt, d),
    ;
}

/// A schedule given by a function of the attempt.
struct FnSchedule<F> {
    func: F,
}

impl<F: Fn(usize) -> Duration + Send + Sync> BackoffSchedule for FnSchedule<F> {
    closed spec fn accepts(&self, attempt: usize) -> bool {
        call_requires(self.func, (attempt,))
    }

    closed spec fn produces(&self, attempt: usize, d: Duration) -> bool {
        call_ensures(self.func, (attempt,), d)
    }

    fn delay(&self, attempt: usize) -> (d: Duration) {
        (self.func)(attempt)
    }
}

/// The schedule a cloned `CustomBackoff` falls back to: 100 ms per attempt.
struct HundredMillisPerAttempt;

impl BackoffSchedule for HundredMillisPerAttempt {
    closed spec fn accepts(&self, attempt: usize) -> bool {
        attempt * 100 <= u64::MAX
    }

    closed spec fn produces(&self, attempt: usize, d: Duration) -> bool {
        duration_nanos(d) == attempt * 100 * 1000000
    }

    fn delay(&self, attempt: usize) -> (d: Duration) {
        from_millis(100 * attempt as u64)
    }
}

/// A wrapper for custom backoff functions that can be cloned.
pub struct CustomBackoff {
    func: Box<dyn BackoffSchedule>,
}

impl CustomBackoff {
    /// Wrap a function from the attempt to its delay: the backoff accepts
    /// the attempts `func` accepts, and gives the delays `func` gives.
    pub fn new<F: Fn(usize) -> Duration + Send + Sync + 'static>(func: F) -> (c: Self)
        ensures
            forall|a: usize| c.accepts(a) == call_requires(func, (a,)),
            forall|a: usize, d: Duration| c.produces(a, d) == call_ensures(func, (a,), d),
    {
        let s = FnSchedule { func };
        let c = CustomBackoff { func: Box::new(s) };
        assert forall|a: usize| c.accepts(a) == call_requires(func, (a,)) by {
            assert(c.func.accepts(a) == s.accepts(a));
        }
        assert forall|a: usize, d: Duration| c.produces(a, d) == call_ensures(func, (a,), d) by {
            assert(c.func.produces(a, d) == s.produces(a, d));
        }
        c
    }

    /// Whether the wrapped function can compute the delay for `attempt`.
    pub closed spec fn accepts(&self, attempt: usize) -> bool {
        self.func.accepts(attempt)
    }

    /// Whether `d` is a delay the wrapped function can give for `attempt`.
    pub closed spec fn produces(&self, attempt: usize, d: Duration) -> bool {
        self.func.produces(attempt, d)
    }

    /// The delay the wrapped function gives for `attempt`.
    pub fn delay(&self, attempt: usize) -> (d: Duration)
        requires
            self.accepts(attempt),
        ensures
            self.produces(attempt, d),
    {
        self.func.delay(attempt)
    }
}

impl Clone for CustomBackoff {
    /// A boxed function cannot be copied: the clone delays 100 ms per attempt.
    fn clone(&self) -> (c: Self) {
        let b: Box<dyn BackoffSchedule> = Box::new(HundredMillisPerAttempt);
        CustomBackoff { func: b }
    }
}

/// Backoff strategy for retries.
#[derive(Clone)]
pub enum BackoffStrategy {
    /// Constant time between retries
    Constant(Duration),
    /// Linear increase in time between retries
    Linear { base: Duration, increment: Duration },
    /// Exponential increase in time between retries (base * 2^attempt)
    Exponential { base: Duration, max: Duration },
    /// Custom backoff strategy implemented as a function
    Custom(CustomBackoff),
}

impl BackoffStrategy {
    /// The inputs on which the delay can be computed: a linear or
    /// exponential delay must fit in a `Duration`, `2^attempt` must fit in
    /// a `u32`, and a custom function must accept the attempt.
    pub open spec fn delay_defined(&self, attempt: usize) -> bool {
        match self {
            BackoffStrategy::Constant(_) => true,
            BackoffStrategy::Linear { base, increment } =>
                duration_nanos(*base) + duration_nanos(*increment) * ((attempt as u32) as nat)
                    <= max_duration_nanos(),
            BackoffStrategy::Exponential { base, max } =>
                (attempt as u32) < 32
                    && duration_nanos(*base) * pow2((attempt as u32) as nat) <= max_duration_nanos(),
            BackoffStrategy::Custom(c) => c.accepts(attempt),
        }
    }

    /// The delay after `attempt`, for the built-in strategies, in
    /// nanoseconds: constant; `base + increment * attempt`; or
    /// `min(base * 2^attempt, max)`.
    pub open spec fn spec_delay_nanos(&self, attempt: usize) -> nat {
        match self {
            BackoffStrategy::Constant(d) => duration_nanos(*d),
            BackoffStrategy::Linear { base, increment } =>
                duration_nanos(*base) + duration_nanos(*increment) * ((attempt as u32) as nat),
            BackoffStrategy::Exponential { base, max } => {
                let calculated = duration_nanos(*base) * pow2((attempt as u32) as nat);
                if calculated <= duration_nanos(*max) { calculated } else { duration_nanos(*max) }
            },
            BackoffStrategy::Custom(_) => 0,
        }
    }

    /// Whether the delay for `attempt` can be computed, for the built-in
    /// strategies; a custom function is taken to accept every attempt (its
    /// own precondition cannot be tested).
    pub fn delay_fits(&self, attempt: usize) -> (r: bool)
        ensures
            !(self is Custom) ==> (r == self.delay_defined(attempt)),
            self is Custom ==> r,
    {
        let max: u128 = 18446744073709551615u128 * 1000000000u128 + 999999999u128;
        match self {
            BackoffStrategy::Constant(_) => true,
            BackoffStrategy::Linear { base, increment } => {
                let b = nanos_of(base);
                let i = nanos_of(increment);
                let k: u32 = #[verifier::truncate] (attempt as u32);
                assert(i * (k as nat) <= max * 4294967295) by (nonlinear_arith)
                    requires i <= max, k <= 4294967295u32;
                let step = i * (k as u128);
                step <= max && b <= max - step
            },
            BackoffStrategy::Exponential { base, .. } => {
                let e: u32 = #[verifier::truncate] (attempt as u32);
                if e >= 32 {
                    false
                } else {
                    proof {
                        vstd::arithmetic::power2::lemma2_to64();
                        vstd::arithmetic::power2::lemma_pow2_strictly_increases(e as nat, 32);
                        vstd::bits::lemma_u32_shl_is_mul(1, e);
                    }
                    let b = nanos_of(base);
                    let f: u32 = 1u32 << e;
                    assert(b * (f as nat) <= max * 4294967295) by (nonlinear_arith)
                        requires b <= max, f <= 4294967295u32;
                    b * (f as u128) <= max
                }
            },
            BackoffStrategy::Custom(_) => true,
        }
    }

    /// Calculate the delay for a given attempt.
    pub fn calculate_delay(&self, attempt: usize) -> (d: Duration)
        requires
            self.delay_defined(attempt),
        ensures
            match self {
                BackoffStrategy::Constant(c) => d == *c,
                BackoffStrategy::Custom(c) => c.produces(attempt, d),
                _ => duration_nanos(d) == self.spec_delay_nanos(attempt),
            },
    {
        match self {
            BackoffStrategy::Constant(duration) => *duration,
            BackoffStrategy::Linear { base, increment } => {
                let step = mul_exact(*increment, #[verifier::truncate] (attempt as u32));
                add_exact(*base, step)
            },
            BackoffStrategy::Exponential { base, max } => {
                let e: u32 = #[verifier::truncate] (attempt as u32);
                proof {
                    vstd::arithmetic::power2::lemma2_to64();
                    vstd::arithmetic::power2::lemma_pow2_strictly_increases(e as nat, 32);
                    vstd::bits::lemma_u32_shl_is_mul(1, e);
                }
                let calculated = mul_exact(*base, 1u32 << e);
                if nanos_of(&calculated) <= nanos_of(max) {
                    calculated
                } else {
                    *max
                }
            },
            BackoffStrategy::Custom(custom) => custom.delay(attempt),
        }
    }
}

/// A node that retries another node if it fails.
pub struct RetryNode<N, Context, A> {
    /// The node to retry
    inner_node: N,
    /// Maximum number of attempts
    max_retries: usize,
    /// Backoff strategy
    backoff_strategy: BackoffStrategy,
    _context: PhantomData<Context>,
    _action: PhantomData<A>,
}

impl<N, Context, A> RetryNode<N, Context, A> {
    /// The node retried.
    pub closed spec fn spec_inner(&self) -> N {
        self.inner_node
    }

    /// The most attempts made.
    pub closed spec fn spec_max_retries(&self) -> usize {
        self.max_retries
    }

    /// The backoff schedule between attempts.
    pub closed spec fn spec_strategy(&self) -> BackoffStrategy {
        self.backoff_strategy
    }

    /// Create a new retry node with a constant backoff.
    pub fn with_constant_backoff(inner_node: N, max_retries: usize, delay: Duration) -> (r: Self)
        ensures
            r.spec_inner() == inner_node,
            r.spec_max_retries() == max_retries,
            r.spec_strategy() == BackoffStrategy::Constant(delay),
    {
        Self {
            inner_node,
            max_retries,
            backoff_strategy: BackoffStrategy::Constant(delay),
            _context: PhantomData,
            _action: PhantomData,
        }
    }

    /// Create a new retry node with linear backoff.
    pub fn with_linear_backoff(inner_node: N, max_retries: usize, base: Duration, increment: Duration) -> (r: Self)
        ensures
            r.spec_inner() == inner_node,
            r.spec_max_retries() == max_retries,
            r.spec_strategy() == (BackoffStrategy::Linear { base, increment }),
    {
        Self {
            inner_node,
            max_retries,
            backoff_strategy: BackoffStrategy::Linear { base, increment },
            _context: PhantomData,
            _action: PhantomData,
        }
    }

    /// Create a new retry node with exponential backoff.
    pub fn with_exponential_backoff(inner_node: N, max_retries: usize, base: Duration, max: Duration) -> (r: Self)
        ensures
            r.spec_inner() == inner_node,
            r.spec_max_retries() == max_retries,
            r.spec_strategy() == (BackoffStrategy::Exponential { base, max }),
    {
        Self {
            inner_node,
            max_retries,
            backoff_strategy: BackoffStrategy::Exponential { base, max },
            _context: PhantomData,
            _action: PhantomData,
        }
    }

    /// Create a new retry node with a custom backoff strategy.
    pub fn with_custom_backoff<F: Fn(usize) -> Duration + Send + Sync + 'static>(inner_node: N, max_retries: usize, f: F) -> (r: Self)
        ensures
            r.spec_inner() == inner_node,
            r.spec_max_retries() == max_retries,
            r.spec_strategy() matches BackoffStrategy::Custom(c)
                && (forall|a: usize| #[trigger] c.accepts(a) == call_requires(f, (a,)))
                && (forall|a: usize, d: Duration| #[trigger] c.produces(a, d) == call_ensures(f, (a,), d)),
    {
        Self {
            inner_node,
            max_retries,
            backoff_strategy: BackoffStrategy::Custom(CustomBackoff::new(f)),
            _context: PhantomData,
            _action: PhantomData,
        }
    }

    /// The node retried.
    pub fn inner(&self) -> (n: &N)
        ensures
            *n == self.spec_inner(),
    {
        &self.inner_node
    }

    /// The most attempts made: `max_retries`, and at least one.
    pub open spec fn spec_attempt_limit(&self) -> int {
        if self.spec_max_retries() == 0 { 1 } else { self.spec_max_retries() as int }
    }

    /// Whether `contexts` and `results` trace attempts of the inner node
    /// made by `attempt_once`: attempt `i` turned `contexts[i]` into
    /// `contexts[i + 1]` with `results[i]`.
    pub open spec fn is_attempt_trace<O, E, F: Fn(&N, Context) -> (Context, Result<O, E>)>(
        &self,
        attempt_once: F,
        contexts: Seq<Context>,
        results: Seq<Result<O, E>>,
    ) -> bool {
        &&& contexts.len() == results.len() + 1
        &&& forall|i: int| 0 <= i < results.len() ==>
            call_ensures(attempt_once, (&self.spec_inner(), contexts[i]), (contexts[i + 1], #[trigger] results[i]))
    }

    /// Whether `d` is the delay the backoff schedule gives after failed
    /// attempt `attempt`, as `calculate_delay` gives it.
    pub open spec fn is_backoff_delay(&self, attempt: usize, d: Duration) -> bool {
        match self.spec_strategy() {
            BackoffStrategy::Constant(c) => d == c,
            BackoffStrategy::Custom(c) => c.produces(attempt, d),
            s => duration_nanos(d) == s.spec_delay_nanos(attempt),
        }
    }

    /// Whether `delays` are the waits after failed attempts `1..`: each is
    /// the schedule's delay for its attempt, and `wait` was given it.
    pub open spec fn is_wait_trace<W: Fn(Duration)>(&self, wait: W, delays: Seq<Duration>) -> bool {
        forall|i: int| 0 <= i < delays.len() ==>
            self.is_backoff_delay((i + 1) as usize, #[trigger] delays[i]) && call_ensures(wait, (delays[i],), ())
    }

    /// Run the inner node until an attempt succeeds or `max_retries`
    /// attempts (at least one) have failed, waiting between attempts for
    /// the backoff of the attempt that failed (a wait after each failed
    /// attempt but the last). `attempt_once` makes one
    /// attempt with the node and the context; `wait` waits for a delay.
    /// Returns the context after the last attempt and that attempt's
    /// result: every earlier attempt failed, and a failure is returned only
    /// once the attempts are used up.
    pub fn process_with<O, E, F, W>(&self, ctx: Context, attempt_once: F, wait: W) -> (r: (Context, Result<O, E>))
        where
            F: Fn(&N, Context) -> (Context, Result<O, E>),
            W: Fn(Duration),
        requires
            forall|a: usize| 1 <= a < self.spec_max_retries() ==> #[trigger] self.spec_strategy().delay_defined(a),
            forall|c: Context| #[trigger] call_requires(attempt_once, (&self.spec_inner(), c)),
            forall|d: Duration| #[trigger] call_requires(wait, (d,)),
        ensures
            exists|contexts: Seq<Context>, results: Seq<Result<O, E>>, delays: Seq<Duration>| {
                &&& #[trigger] self.is_attempt_trace(attempt_once, contexts, results)
                &&& #[trigger] self.is_wait_trace(wait, delays)
                &&& delays.len() == results.len() - 1
                &&& contexts[0] == ctx
                &&& 1 <= results.len() <= self.spec_attempt_limit()
                &&& contexts.last() == r.0
                &&& results.last() == r.1
                &&& forall|i: int| 0 <= i < results.len() - 1 ==> (#[trigger] results[i]) is Err
                &&& r.1 is Err ==> results.len() == self.spec_attempt_limit()
            },
    {
        let ghost start = ctx;
        let ghost mut contexts: Seq<Context> = seq![ctx];
        let ghost mut results: Seq<Result<O, E>> = Seq::empty();
        let ghost mut delays: Seq<Duration> = Seq::empty();
        let mut c = ctx;
        let mut attempt: usize = 1;
        loop
            invariant
                forall|a: usize| 1 <= a < self.spec_max_retries() ==> #[trigger] self.spec_strategy().delay_defined(a),
                forall|c: Context| #[trigger] call_requires(attempt_once, (&self.spec_inner(), c)),
                forall|d: Duration| #[trigger] call_requires(wait, (d,)),
                1 <= attempt,
                attempt <= self.spec_attempt_limit(),
                self.is_attempt_trace(attempt_once, contexts, results),
                contexts[0] == start,
                start == ctx,
                results.len() == attempt - 1,
                delays.len() == attempt - 1,
                self.is_wait_trace(wait, delays),
                contexts.last() == c,
                forall|i: int| 0 <= i < results.len() ==> (#[trigger] results[i]) is Err,
            decreases self.spec_attempt_limit() - attempt,
        {
            proof {
                assert(call_requires(attempt_once, (&self.spec_inner(), c)));
                assert(self.spec_inner() == self.inner_node);
            }
            let (next, res) = attempt_once(&self.inner_node, c);
            let ghost before = contexts;
            let ghost earlier = results;
            proof {
                contexts = contexts.push(next);
                results = results.push(res);
                assert forall|i: int| 0 <= i < results.len() implies
                    call_ensures(attempt_once, (&self.spec_inner(), contexts[i]), (contexts[i + 1], #[trigger] results[i])) by {
                    if i < results.len() - 1 {
                        assert(contexts[i] == before[i] && contexts[i + 1] == before[i + 1]);
                        assert(results[i] == earlier[i]);
                    } else {
                        assert(contexts[i] == before.last());
                    }
                }
                assert forall|i: int| 0 <= i < results.len() - 1 implies (#[trigger] results[i]) is Err by {
                    assert(results[i] == earlier[i]);
                }
                assert(self.is_attempt_trace(attempt_once, contexts, results));
                assert(contexts[0] == start);
            }
            match res {
                Ok(o) => {
                    proof {
                        assert(results.last() == Ok::<O, E>(o));
                    }
                    return (next, Ok(o));
                },
                Err(e) => {
                    if attempt >= self.max_retries {
                        proof {
                            assert(results.last() == Err::<O, E>(e));
                        }
                        return (next, Err(e));
                    }
                    let delay = self.backoff_strategy.calculate_delay(attempt);
                    wait(delay);
                    proof {
                        let old_delays = delays;
                        delays = delays.push(delay);
                        assert forall|i: int| 0 <= i < delays.len() implies
                            self.is_backoff_delay((i + 1) as usize, #[trigger] delays[i]) && call_ensures(wait, (delays[i],), ()) by {
                            if i < old_delays.len() {
                                assert(delays[i] == old_delays[i]);
                            }
                        }
                    }
                    c = next;
                    attempt = attempt + 1;
                },
            }
        }
    }

    /// Whether `after_failure` may be asked about `attempt`: past the last
    /// attempt always; otherwise where the schedule's delay can be
    /// computed (taken as so for a custom function).
    pub fn after_failure_defined(&self, attempt: usize) -> (r: bool)
        ensures
            !(self.spec_strategy() is Custom) ==>
                (r == (attempt < self.spec_max_retries() ==> self.spec_strategy().delay_defined(attempt))),
            self.spec_strategy() is Custom ==> r,
    {
        attempt >= self.max_retries || self.backoff_strategy.delay_fits(attempt)
    }

    /// What follows a failed attempt `attempt` (1-based): `None` once
    /// `max_retries` attempts have been made (the error is then returned),
    /// else the delay to wait before the next attempt.
    pub fn after_failure(&self, attempt: usize) -> (next: Option<Duration>)
        requires
            attempt < self.spec_max_retries() ==> self.spec_strategy().delay_defined(attempt),
        ensures
            attempt >= self.spec_max_retries() <==> next is None,
            next matches Some(d) ==> match self.spec_strategy() {
                BackoffStrategy::Constant(c) => d == c,
                BackoffStrategy::Custom(c) => c.produces(attempt, d),
                s => duration_nanos(d) == s.spec_delay_nanos(attempt),
            },
    {
        if attempt >= self.max_retries {
            None
        } else {
            Some(self.backoff_strategy.calculate_delay(attempt))
        }
    }
}

/// A constant schedule waits the same time after every attempt.
pub proof fn lemma_constant_delay_fixed(d: Duration, a: usize, b: usize)
    ensures
        BackoffStrategy::Constant(d).spec_delay_nanos(a) == BackoffStrategy::Constant(d).spec_delay_nanos(b),
{
}

/// An exponential schedule never waits longer than its maximum.
pub proof fn lemma_exponential_delay_capped(base: Duration, max: Duration, attempt: usize)
    ensures
        (BackoffStrategy::Exponential { base, max }).spec_delay_nanos(attempt) <= duration_nanos(max),
{
}

/// An exponential schedule never waits less after a later attempt.
pub proof fn lemma_exponential_delay_monotone(base: Duration, max: Duration, a: usize, b: usize)
    requires
        a <= b < 32,
    ensures
        (BackoffStrategy::Exponential { base, max }).spec_delay_nanos(a)
            <= (BackoffStrategy::Exponential { base, max }).spec_delay_nanos(b),
{
    assert((a as u32) as nat == a as nat);
    assert((b as u32) as nat == b as nat);
    if a < b {
        vstd::arithmetic::power2::lemma_pow2_strictly_increases(a as nat, b as nat);
    }
    vstd::arithmetic::mul::lemma_mul_inequality(pow2(a as nat) as int, pow2(b as nat) as int, duration_nanos(base) as int);
    vstd::arithmetic::mul::lemma_mul_is_commutative(pow2(a as nat) as int, duration_nanos(base) as int);
    vstd::arithmetic::mul::lemma_mul_is_commutative(pow2(b as nat) as int, duration_nanos(base) as int);
}

/// A linear schedule waits exactly one increment longer after each
/// further attempt (for attempts that fit in 32 bits).
pub proof fn lemma_linear_delay_steps(base: Duration, increment: Duration, a: usize)
    requires
        a < u32::MAX,
    ensures
        (BackoffStrategy::Linear { base, increment }).spec_delay_nanos((a + 1) as usize)
            == (BackoffStrategy::Linear { base, increment }).spec_delay_nanos(a) + duration_nanos(increment),
{
    assert((a as u32) as nat == a as nat);
    assert(((a + 1) as usize as u32) as nat == a as nat + 1);
    vstd::arithmetic::mul::lemma_mul_is_distributive_add(duration_nanos(increment) as int, a as int, 1);
}

} // verus!
