//! `std::time::Duration`, seen by its length in nanoseconds.
use std::time::Duration;
use vstd::prelude::*;

verus! {

/// Length of `Duration::MAX` in nanoseconds: `u64::MAX` seconds and
/// 999_999_999 nanoseconds.
pub open spec fn max_duration_nanos() -> nat {
    18446744073709551615nat * 1000000000nat + 999999999nat
}

/// `n` nanoseconds, or `Duration::MAX` when `n` does not fit in a `Duration`.
pub open spec fn saturate_nanos(n: nat) -> nat {
    if n <= max_duration_nanos() {
        n
    } else {
        max_duration_nanos()
    }
}

/// The length of `d` in nanoseconds, as `Duration::as_nanos` reports it.
pub uninterp spec fn duration_nanos(d: Duration) -> nat;

/// `Duration` is `Copy`: its `clone` gives back the same duration.
pub assume_specification[ <Duration as Clone>::clone ](d: &Duration) -> (r: Duration)
    ensures
        r == *d,
;

/// `Duration::as_nanos`: the whole length of `d` in nanoseconds. A duration
/// is never longer than `Duration::MAX`.
#[verifier::external_body]
pub(crate) fn nanos_of(d: &Duration) -> (n: u128)
    ensures
        n == duration_nanos(*d),
        n <= max_duration_nanos(),
{
    d.as_nanos()
}

/// `Duration::as_millis`: the whole milliseconds of `d`.
#[verifier::external_body]
pub(crate) fn millis_of(d: &Duration) -> (ms: u128)
    ensures
        ms == duration_nanos(*d) / 1000000,
{
    d.as_millis()
}

/// `Duration::from_millis`: a duration of `ms` milliseconds.
#[verifier::external_body]
pub(crate) fn from_millis(ms: u64) -> (d: Duration)
    ensures
        duration_nanos(d) == ms * 1000000nat,
{
    Duration::from_millis(ms)
}

/// `Duration::saturating_mul`: `d * k`, or `Duration::MAX` on overflow.
#[verifier::external_body]
pub(crate) fn saturating_mul(d: Duration, k: u32) -> (r: Duration)
    ensures
        duration_nanos(r) == saturate_nanos(duration_nanos(d) * (k as nat)),
{
    d.saturating_mul(k)
}

/// `Duration::saturating_add`: `a + b`, or `Duration::MAX` on overflow.
#[verifier::external_body]
pub(crate) fn saturating_add(a: Duration, b: Duration) -> (r: Duration)
    ensures
        duration_nanos(r) == saturate_nanos(duration_nanos(a) + duration_nanos(b)),
{
    a.saturating_add(b)
}

/// `Duration * u32`, which panics on overflow; the product must fit.
#[verifier::external_body]
pub(crate) fn mul_exact(d: Duration, k: u32) -> (r: Duration)
    requires
        duration_nanos(d) * k <= max_duration_nanos(),
    ensures
        duration_nanos(r) == duration_nanos(d) * k,
{
    d * k
}

/// `Duration + Duration`, which panics on overflow; the sum must fit.
#[verifier::external_body]
pub(crate) fn add_exact(a: Duration, b: Duration) -> (r: Duration)
    requires
        duration_nanos(a) + duration_nanos(b) <= max_duration_nanos(),
    ensures
        duration_nanos(r) == duration_nanos(a) + duration_nanos(b),
{
    a + b
}

} // verus!
