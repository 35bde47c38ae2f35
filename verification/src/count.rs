//! Counts that stop at the largest value a counter can hold.

use vstd::prelude::*;

verus! {

/// A count as a counter holds it: the count itself while it fits, else the
/// largest value there is.
pub open spec fn clamped(n: int) -> usize {
    if n <= usize::MAX {
        n as usize
    } else {
        usize::MAX
    }
}

/// Adds to a count without running over.
pub fn add_clamped(a: usize, b: usize) -> (r: usize)
    ensures
        r == clamped(a + b),
{
    if b <= usize::MAX - a {
        a + b
    } else {
        usize::MAX
    }
}

/// Once a running total has hit the ceiling, adding to it leaves it there.
pub proof fn lemma_clamped_sum(a: int, b: int)
    requires
        0 <= a,
        0 <= b,
    ensures
        clamped(clamped(a) + b) == clamped(a + b),
{
}

} // verus!
