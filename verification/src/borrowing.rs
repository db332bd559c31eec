//! Functions that borrow values instead of taking ownership, with
//! contracts over the borrowed data and over mutation through `&mut`.

use vstd::prelude::*;
use vstd::string::StringExecFns;
use vstd::string::StringSliceAdditionalSpecFns;

verus! {

/// Returns the length in bytes of the borrowed string.
pub fn calculate_length(s: &String) -> (r: usize)
    ensures
        r == vstd::utf8::encode_utf8(s@).len(),
{
    let bytes = s.as_str().as_bytes();
    bytes.len()
}

/// Appends ", world" to the string behind the mutable reference.
pub fn change(some_string: &mut String)
    ensures
        final(some_string)@ == old(some_string)@ + ", world"@,
{
    some_string.append(", world");
}

/// Builds a string locally and returns it by value.
pub fn no_dangle() -> (r: String)
    ensures
        r@ == "hello"@,
{
    let s = String::from_str("hello");
    s
}

} // verus!
