//! Rectangle containment, a guarded constructor, and small helpers whose
//! results are pinned down exactly by their contracts.

use vstd::prelude::*;
use vstd::string::StringExecFns;

verus! {

#[derive(Debug)]
pub struct Rectangle {
    pub width: u32,
    pub height: u32,
}

impl Rectangle {
    /// True exactly when this rectangle is strictly wider and strictly
    /// taller than `other`.
    pub fn can_hold(&self, other: &Rectangle) -> (r: bool)
        ensures
            r == (self.width > other.width && self.height > other.height),
    {
        self.width > other.width && self.height > other.height
    }
}

/// Adds two to the argument.
pub fn add_two(a: i32) -> (r: i32)
    requires
        a + 2 <= i32::MAX,
    ensures
        r == a + 2,
{
    a + 2
}

/// Builds the greeting "Hello <name>!".
pub fn greeting(name: &str) -> (r: String)
    ensures
        r@ == "Hello "@ + name@ + "!"@,
{
    let mut s = String::from_str("Hello ");
    s.append(name);
    s.append("!");
    s
}

/// A number that is known to lie between 1 and 100.
pub struct Guess {
    value: i32,
}

impl Guess {
    /// The number this guess holds.
    pub closed spec fn spec_value(&self) -> i32 {
        self.value
    }

    /// Wraps a number between 1 and 100; values outside that range are
    /// not accepted.
    pub fn new(value: i32) -> (g: Guess)
        requires
            1 <= value <= 100,
        ensures
            g.spec_value() == value,
    {
        Guess { value }
    }
}

} // verus!
