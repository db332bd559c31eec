//! Passing functions as values: applying a function twice, and handing
//! a closure back to the caller.

use vstd::prelude::*;

verus! {

/// Adds one to the argument.
pub fn add_one(x: i32) -> (r: i32)
    requires
        x < i32::MAX,
    ensures
        r == x + 1,
{
    x + 1
}

/// Calls `f` twice on `arg` and adds the two results.
pub fn do_twice<F: Fn(i32) -> i32>(f: F, arg: i32) -> (r: i32)
    requires
        call_requires(f, (arg,)),
        forall|y: i32, z: i32|
            call_ensures(f, (arg,), y) && call_ensures(f, (arg,), z) ==> i32::MIN <= y + z
                <= i32::MAX,
    ensures
        exists|y: i32, z: i32|
            call_ensures(f, (arg,), y) && call_ensures(f, (arg,), z) && r == y + z,
{
    let a = f(arg);
    let b = f(arg);
    a + b
}

/// Hands back a closure that adds one to whatever it is given.
pub fn returns_closure() -> (f: impl Fn(i32) -> i32)
    ensures
        forall|x: i32| x < i32::MAX ==> #[trigger] call_requires(f, (x,)),
        forall|x: i32, y: i32| #[trigger] call_ensures(f, (x,), y) ==> y == x + 1,
{
    let plus_one = |x: i32| -> (r: i32)
        requires
            x < i32::MAX,
        ensures
            r == x + 1,
        {
            x + 1
        };
    plus_one
}

} // verus!
