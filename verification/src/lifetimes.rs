//! Functions returning references borrowed from their arguments: the
//! longer of two string slices, and the first word of one.

use crate::slices::first_space_index;
use crate::slices::first_word_bytes;
use crate::slices::lemma_first_space_index;
use vstd::prelude::*;
use vstd::string::StringSliceAdditionalSpecFns;
use vstd::utf8::decode_utf8;
use vstd::utf8::encode_utf8;
use vstd::utf8::encode_utf8_decode_utf8;
use vstd::utf8::encode_utf8_valid_utf8;
use vstd::utf8::is_char_boundary_iff_not_is_continuation_byte;

verus! {

/// The argument with more bytes; `y` when they are equally long.
pub fn longest<'a>(x: &'a str, y: &'a str) -> (r: &'a str)
    ensures
        r@ == if x.spec_bytes().len() > y.spec_bytes().len() {
            x@
        } else {
            y@
        },
{
    let xb = x.as_bytes();
    let yb = y.as_bytes();
    if xb.len() > yb.len() {
        x
    } else {
        y
    }
}

/// The first word of the slice: the characters whose bytes come before
/// the first space byte; the whole slice if it has no space.
pub fn first_word(s: &str) -> (r: &str)
    ensures
        r.spec_bytes() == first_word_bytes(encode_utf8(s@)),
        r@ == decode_utf8(first_word_bytes(encode_utf8(s@))),
{
    let bytes = s.as_bytes();
    proof {
        lemma_first_space_index(s.spec_bytes());
        encode_utf8_valid_utf8(s@);
    }
    let mut i: usize = 0;
    while i < bytes.len()
        invariant
            bytes@ == encode_utf8(s@),
            bytes@ == s.spec_bytes(),
            i <= bytes@.len(),
            forall|j: int| 0 <= j < i ==> bytes@[j] != 32,
        decreases bytes@.len() - i,
    {
        if bytes[i] == 32 {
            proof {
                lemma_first_space_index(bytes@);
                assert(first_space_index(bytes@) == i);
                encode_utf8_valid_utf8(s@);
                is_char_boundary_iff_not_is_continuation_byte(bytes@, i as int);
            }
            let (first, _rest) = s.split_at(i);
            proof {
                assert(first.spec_bytes() == first_word_bytes(encode_utf8(s@)));
                encode_utf8_decode_utf8(first@);
            }
            return first;
        }
        i += 1;
    }
    proof {
        lemma_first_space_index(bytes@);
        assert(s.spec_bytes().subrange(0, s.spec_bytes().len() as int) =~= s.spec_bytes());
        encode_utf8_decode_utf8(s@);
    }
    s
}

} // verus!
