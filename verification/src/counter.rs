//! Event counters that stop at their end instead of wrapping.

use vstd::prelude::*;

verus! {

/// A counter moved on by one, or left at its end.
pub open spec fn counted(n: u64) -> u64 {
    if n == u64::MAX {
        n
    } else {
        (n + 1) as u64
    }
}

/// Counts one more event.
pub fn count_one(n: u64) -> (m: u64)
    ensures
        m == counted(n),
{
    if n == u64::MAX {
        n
    } else {
        n + 1
    }
}

} // verus!
