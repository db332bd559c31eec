//! A collection of utilities that only contains one simple function:
//! `add_one`.

use vstd::prelude::*;

verus! {

/// Adds one to the number given.
pub fn add_one(x: i32) -> (r: i32)
    requires
        x < i32::MAX,
    ensures
        r == x + 1,
{
    x + 1
}

} // verus!
