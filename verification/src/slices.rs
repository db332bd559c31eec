//! Finding the first word of a string, as an index and as a slice.
//!
//! The first word is everything before the first space byte; a string
//! without a space is all one word.

use vstd::prelude::*;
use vstd::string::StringSliceAdditionalSpecFns;
use vstd::utf8::decode_utf8;
use vstd::utf8::encode_utf8;
use vstd::utf8::encode_utf8_decode_utf8;
use vstd::utf8::encode_utf8_valid_utf8;
use vstd::utf8::is_char_boundary_iff_not_is_continuation_byte;

verus! {

/// The index of the first space byte, or the length if there is none.
pub open spec fn first_space_index(bytes: Seq<u8>) -> int
    decreases bytes.len(),
{
    if bytes.len() == 0 {
        0
    } else if bytes[0] == 32 {
        0
    } else {
        1 + first_space_index(bytes.drop_first())
    }
}

/// What `first_space_index` returns is an index into the bytes (or their
/// length), everything before it is not a space, and what it points at,
/// if anything, is one.
pub proof fn lemma_first_space_index(bytes: Seq<u8>)
    ensures
        0 <= first_space_index(bytes) <= bytes.len(),
        forall|j: int| 0 <= j < first_space_index(bytes) ==> bytes[j] != 32,
        first_space_index(bytes) < bytes.len() ==> bytes[first_space_index(bytes)] == 32,
    decreases bytes.len(),
{
    if bytes.len() != 0 && bytes[0] != 32 {
        lemma_first_space_index(bytes.drop_first());
        assert forall|j: int| 0 <= j < first_space_index(bytes) implies bytes[j] != 32 by {
            if j > 0 {
                assert(bytes.drop_first()[j - 1] == bytes[j]);
            }
        }
    }
}

/// The bytes of the first word: everything before the first space.
pub open spec fn first_word_bytes(bytes: Seq<u8>) -> Seq<u8> {
    bytes.subrange(0, first_space_index(bytes))
}

/// The index of the first space byte of the string, or its length in
/// bytes if it has no space.
pub fn first_word(s: &String) -> (r: usize)
    ensures
        r == first_space_index(encode_utf8(s@)),
{
    let st = s.as_str();
    let bytes = st.as_bytes();
    proof {
        lemma_first_space_index(st.spec_bytes());
    }
    let mut i: usize = 0;
    while i < bytes.len()
        invariant
            bytes@ == encode_utf8(s@),
            i <= bytes@.len(),
            forall|j: int| 0 <= j < i ==> bytes@[j] != 32,
        decreases bytes@.len() - i,
    {
        if bytes[i] == 32 {
            proof {
                lemma_first_space_index(bytes@);
            }
            return i;
        }
        i += 1;
    }
    proof {
        lemma_first_space_index(bytes@);
    }
    i
}

/// The first word of the string, as a slice of it: the characters whose
/// bytes come before the first space byte.
pub fn first_word_slice(s: &String) -> (r: &str)
    ensures
        r.spec_bytes() == first_word_bytes(encode_utf8(s@)),
        r@ == decode_utf8(first_word_bytes(encode_utf8(s@))),
{
    first_word_slice_parameters(s.as_str())
}

/// The first word of the slice: the characters whose bytes come before
/// the first space byte.
pub fn first_word_slice_parameters(s: &str) -> (r: &str)
    ensures
        r.spec_bytes() == first_word_bytes(encode_utf8(s@)),
        r@ == decode_utf8(first_word_bytes(encode_utf8(s@))),
{
    let bytes = s.as_bytes();
    proof {
        lemma_first_space_index(s.spec_bytes());
        encode_utf8_valid_utf8(s@);
    }
    let mut i: usize = 0;
    while i < bytes.len()
        invariant
            bytes@ == encode_utf8(s@),
            bytes@ == s.spec_bytes(),
            i <= bytes@.len(),
            forall|j: int| 0 <= j < i ==> bytes@[j] != 32,
        decreases bytes@.len() - i,
    {
        if bytes[i] == 32 {
            proof {
                lemma_first_space_index(bytes@);
                assert(first_space_index(bytes@) == i);
                encode_utf8_valid_utf8(s@);
                is_char_boundary_iff_not_is_continuation_byte(bytes@, i as int);
            }
            let (first, _rest) = s.split_at(i);
            proof {
                assert(first.spec_bytes() == first_word_bytes(encode_utf8(s@)));
                encode_utf8_decode_utf8(first@);
            }
            return first;
        }
        i += 1;
    }
    proof {
        lemma_first_space_index(bytes@);
        assert(s.spec_bytes().subrange(0, s.spec_bytes().len() as int) =~= s.spec_bytes());
        encode_utf8_decode_utf8(s@);
    }
    s
}

} // verus!
