//! Filtering shoes by size, and a counter that yields 1 through 5.

use vstd::prelude::*;

verus! {

/// A shoe, with a size and a style name.
#[derive(Debug, PartialEq)]
pub struct Shoe {
    pub size: u32,
    pub style: String,
}

impl Clone for Shoe {
    /// An exact copy of the shoe.
    fn clone(&self) -> (r: Self)
        ensures
            r == *self,
    {
        Shoe { size: self.size, style: self.style.clone() }
    }
}

/// Exactly the shoes of the given size, in their original order.
pub fn shoes_in_my_size(shoes: Vec<Shoe>, shoe_size: u32) -> (r: Vec<Shoe>)
    ensures
        r@ == shoes@.filter(|s: Shoe| s.size == shoe_size),
{
    let ghost pred = |s: Shoe| s.size == shoe_size;
    let mut r: Vec<Shoe> = Vec::new();
    let mut i: usize = 0;
    proof {
        assert(shoes@.take(0int).filter(pred) =~= Seq::<Shoe>::empty()) by {
            reveal(Seq::filter);
            assert(shoes@.take(0int) =~= Seq::<Shoe>::empty());
        }
    }
    while i < shoes.len()
        invariant
            pred == (|s: Shoe| s.size == shoe_size),
            i <= shoes@.len(),
            r@ == shoes@.take(i as int).filter(pred),
        decreases shoes@.len() - i,
    {
        proof {
            broadcast use vstd::seq_lib::group_filter_ensures;

            let prefix = shoes@.take(i as int);
            let one = seq![shoes@[i as int]];
            assert(shoes@.take(i + 1int) =~= prefix + one);
            Seq::filter_distributes_over_add(prefix, one, pred);
            assert(one.filter(pred) =~= if pred(shoes@[i as int]) {
                one
            } else {
                Seq::<Shoe>::empty()
            }) by {
                reveal_with_fuel(Seq::filter, 2);
                assert(one.drop_last() =~= Seq::<Shoe>::empty());
            }
        }
        let shoe = &shoes[i];
        if shoe.size == shoe_size {
            r.push(shoe.clone());
        }
        i += 1;
    }
    proof {
        assert(shoes@.take(shoes@.len() as int) =~= shoes@);
    }
    r
}

/// Counts upward from zero; as an iterator it yields 1 through 5 and
/// stops there.
pub struct Counter {
    count: u32,
}

impl Counter {
    /// How many times `next` has been called.
    pub closed spec fn spec_count(&self) -> u32 {
        self.count
    }

    /// A counter that has not yielded anything yet.
    pub fn new() -> (c: Counter)
        ensures
            c.spec_count() == 0,
    {
        Counter { count: 0 }
    }

    /// Steps the counter: the first five calls yield 1 through 5, and
    /// every call after that yields nothing.
    pub fn next(&mut self) -> (r: Option<u32>)
        requires
            old(self).spec_count() < u32::MAX,
        ensures
            final(self).spec_count() == old(self).spec_count() + 1,
            r == if old(self).spec_count() + 1 < 6 {
                Some((old(self).spec_count() + 1) as u32)
            } else {
                Option::<u32>::None
            },
    {
        self.count += 1;

        if self.count < 6 {
            Some(self.count)
        } else {
            None
        }
    }
}

} // verus!
