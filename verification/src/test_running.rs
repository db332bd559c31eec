//! A single arithmetic helper, kept separate so its callers can be
//! exercised independently.

use vstd::prelude::*;

verus! {

/// Adds two to the argument.
pub fn add_two(a: i32) -> (r: i32)
    requires
        a + 2 <= i32::MAX,
    ensures
        r == a + 2,
{
    a + 2
}

} // verus!
