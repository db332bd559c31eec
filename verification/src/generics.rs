//! Finding the largest element of a slice: first for two concrete types,
//! then once for every type whose comparison behaves like an order.

use vstd::prelude::*;
use vstd::laws_cmp::obeys_partial_cmp_spec_properties;
use vstd::std_specs::cmp::PartialOrdSpec;
use core::cmp::Ordering;

verus! {

/// The largest number in the slice: no element exceeds it, and it is
/// the first element of that size.
pub fn largest_i32(list: &[i32]) -> (r: i32)
    requires
        list@.len() > 0,
    ensures
        forall|i: int| 0 <= i < list@.len() ==> list@[i] <= r,
        exists|i: int|
            0 <= i < list@.len() && list@[i] == r && forall|j: int| 0 <= j < i ==> list@[j] < r,
{
    let mut largest = list[0];
    let ghost mut at: int = 0;
    let mut k: usize = 1;
    while k < list.len()
        invariant
            1 <= k <= list@.len(),
            0 <= at < k,
            list@[at] == largest,
            forall|j: int| 0 <= j < at ==> list@[j] < largest,
            forall|i: int| 0 <= i < k ==> list@[i] <= largest,
        decreases list@.len() - k,
    {
        let item = list[k];
        if item > largest {
            largest = item;
            proof {
                at = k as int;
            }
        }
        k += 1;
    }
    largest
}

/// The largest character in the slice: no element exceeds it, and it
/// is the first element of that size.
pub fn largest_char(list: &[char]) -> (r: char)
    requires
        list@.len() > 0,
    ensures
        forall|i: int| 0 <= i < list@.len() ==> list@[i] <= r,
        exists|i: int|
            0 <= i < list@.len() && list@[i] == r && forall|j: int| 0 <= j < i ==> list@[j] < r,
{
    let mut largest = list[0];
    let ghost mut at: int = 0;
    let mut k: usize = 1;
    while k < list.len()
        invariant
            1 <= k <= list@.len(),
            0 <= at < k,
            list@[at] == largest,
            forall|j: int| 0 <= j < at ==> list@[j] < largest,
            forall|i: int| 0 <= i < k ==> list@[i] <= largest,
        decreases list@.len() - k,
    {
        let item = list[k];
        if item > largest {
            largest = item;
            proof {
                at = k as int;
            }
        }
        k += 1;
    }
    largest
}

/// An element of the slice that no other element compares greater than.
/// The comparison of `T` must describe itself (`obeys_partial_cmp_spec`)
/// and behave like an order, which holds of the primitive types.
pub fn largest<T: PartialOrd + Copy>(list: &[T]) -> (r: T)
    requires
        list@.len() > 0,
        T::obeys_partial_cmp_spec(),
        obeys_partial_cmp_spec_properties::<T>(),
    ensures
        list@.contains(r),
        forall|i: int| 0 <= i < list@.len() ==> (#[trigger] list@[i]).partial_cmp_spec(&r)
            != Some(Ordering::Greater),
{
    proof {
        reveal(obeys_partial_cmp_spec_properties);
    }
    let mut largest = list[0];
    let mut k: usize = 1;
    while k < list.len()
        invariant
            T::obeys_partial_cmp_spec(),
            obeys_partial_cmp_spec_properties::<T>(),
            1 <= k <= list@.len(),
            list@.contains(largest),
            forall|i: int| 0 <= i < k ==> (#[trigger] list@[i]).partial_cmp_spec(&largest)
                != Some(Ordering::Greater),
        decreases list@.len() - k,
    {
        proof {
            reveal(obeys_partial_cmp_spec_properties);
        }
        let item = list[k];
        if item > largest {
            largest = item;
        }
        k += 1;
    }
    largest
}

/// A pair of two values of one type.
pub struct Pair<T> {
    x: T,
    y: T,
}

impl<T> Pair<T> {
    /// The first component.
    pub closed spec fn spec_x(&self) -> T {
        self.x
    }

    /// The second component.
    pub closed spec fn spec_y(&self) -> T {
        self.y
    }

    /// Packs two values into a pair.
    pub fn new(x: T, y: T) -> (p: Self)
        ensures
            p.spec_x() == x,
            p.spec_y() == y,
    {
        Self { x, y }
    }
}

} // verus!
