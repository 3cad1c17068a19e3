//! Support for the workflow definition syntax.
use vstd::prelude::*;

verus! {

/// The sum of two numbers, which must not overflow.
pub fn add(left: u64, right: u64) -> (r: u64)
    requires
        left + right <= u64::MAX,
    ensures
        r == left + right,
{
    left + right
}

} // verus!
