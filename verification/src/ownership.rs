//! Functions that pass owned values in and out, with contracts relating
//! the values returned to the values given.

use vstd::prelude::*;
use vstd::string::StringExecFns;
use vstd::string::StringSliceAdditionalSpecFns;

verus! {

/// Creates a string and hands it to the caller.
pub fn gives_ownership() -> (r: String)
    ensures
        r@ == "hello"@,
{
    let some_string = String::from_str("hello");
    some_string
}

/// Takes a string and returns the very same value.
pub fn takes_and_gives_back(a_string: String) -> (r: String)
    ensures
        r == a_string,
{
    a_string
}

/// Returns the string it was given together with that string's length in
/// bytes.
pub fn calculate_length(s: String) -> (r: (String, usize))
    ensures
        r.0 == s,
        r.1 == vstd::utf8::encode_utf8(s@).len(),
{
    let bytes = s.as_str().as_bytes();
    let length = bytes.len();
    (s, length)
}

/// Moves a few strings around and checks that the expected values come back.
pub fn return_values_and_scope()
{
    let s1 = gives_ownership();
    let s2 = String::from_str("hello");
    let s3 = takes_and_gives_back(s2);
    assert(s1@ == "hello"@);
    assert(s3@ == "hello"@);
}

} // verus!
