//! The number of bytes that the UTF-8 encoding of one code point takes.

use vstd::prelude::*;
use vstd::utf8::*;

verus! {

/// Width in bytes of the UTF-8 encoding of `c`, by the range its code point falls in.
pub open spec fn char_width(c: char) -> nat {
    let code_point = c as u32;
    if code_point <= 0x7F {
        1
    } else if code_point <= 0x7FF {
        2
    } else if code_point <= 0xFFFF {
        3
    } else {
        4
    }
}

/// The width rule agrees with the length of the encoding that `vstd` defines.
pub proof fn lemma_char_width_is_encoded_len(c: char)
    ensures
        encode_scalar(c as u32).len() == char_width(c),
        1 <= char_width(c) <= 4,
{
}

/// Computes the width in bytes of the UTF-8 encoding of `c`.
pub fn utf8_width(c: char) -> (w: usize)
    ensures
        w == char_width(c),
        1 <= w <= 4,
{
    let code_point: u32 = c as u32;
    if code_point <= 0x7F {
        1
    } else if code_point <= 0x7FF {
        2
    } else if code_point <= 0xFFFF {
        3
    } else {
        4
    }
}

} // verus!
