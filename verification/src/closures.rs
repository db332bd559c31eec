//! A memoizer that runs its stored function at most once: the first call
//! computes, every later call returns the remembered result.

use vstd::prelude::*;

verus! {

/// Remembers the result of one call of `calculation`. Whatever argument
/// later calls pass, the value computed first is what they get back.
pub struct Cacher<T> where T: Fn(u32) -> u32 {
    calculation: T,
    value: Option<u32>,
}

impl<T> Cacher<T> where T: Fn(u32) -> u32 {
    /// The stored function.
    pub closed spec fn spec_calculation(&self) -> T {
        self.calculation
    }

    /// The remembered result, if one call has happened.
    pub closed spec fn spec_value(&self) -> Option<u32> {
        self.value
    }

    /// A cacher for `calculation` with nothing remembered yet.
    pub fn new(calculation: T) -> (c: Cacher<T>)
        ensures
            c.spec_calculation() == calculation,
            c.spec_value() is None,
    {
        Cacher { calculation, value: None }
    }

    /// The remembered result, or, on the first call, the result of
    /// running the stored function on `arg`, which is then remembered.
    pub fn value(&mut self, arg: u32) -> (r: u32)
        requires
            old(self).spec_value() is None ==> call_requires(old(self).spec_calculation(), (arg,)),
        ensures
            final(self).spec_calculation() == old(self).spec_calculation(),
            final(self).spec_value() == Some(r),
            old(self).spec_value() matches Some(v) ==> r == v,
            old(self).spec_value() is None ==> call_ensures(
                old(self).spec_calculation(),
                (arg,),
                r,
            ),
    {
        match self.value {
            Some(v) => v,
            None => {
                let v = (self.calculation)(arg);
                self.value = Some(v);
                v
            },
        }
    }
}

} // verus!
