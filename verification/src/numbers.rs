//! Plain integer arithmetic.

use vstd::prelude::*;

verus! {

/// The sum of `a` and 2. It has to fit in an `i32`.
pub fn adds_two(a: i32) -> (sum: i32)
    requires
        a + 2 <= i32::MAX,
    ensures
        sum == a + 2,
{
    a + 2
}

} // verus!
