//! Where each code point of a text begins in the text's UTF-8 encoding.
//!
//! The byte offset of code point `i` is the length of the encoding of the
//! `i` code points before it. The lemmas here relate that definition to
//! concatenation, to character boundaries and to sub-ranges of the encoding.

use crate::width::char_width;
use crate::width::lemma_char_width_is_encoded_len;
use vstd::prelude::*;
use vstd::utf8::*;

verus! {

/// Byte position at which code point `index` of `text` begins; for
/// `index == text.len()` this is the length of the whole encoding.
pub open spec fn byte_offset(text: Seq<char>, index: int) -> nat
    recommends
        0 <= index <= text.len(),
{
    encode_utf8(text.take(index)).len()
}

/// The table that indexes `text`: one entry per code point, in order, each
/// with the code point and the byte offset at which it begins.
pub open spec fn char_table(text: Seq<char>) -> Seq<(char, nat)> {
    Seq::new(text.len(), |i: int| (text[i], byte_offset(text, i)))
}

/// Encoding a concatenation is concatenating the encodings.
pub proof fn lemma_encode_concat(a: Seq<char>, b: Seq<char>)
    ensures
        encode_utf8(a + b) == encode_utf8(a) + encode_utf8(b),
    decreases a.len(),
{
    if a.len() == 0 {
        assert(a + b =~= b);
        assert(encode_utf8(a) + encode_utf8(b) =~= encode_utf8(b));
    } else {
        lemma_encode_concat(a.drop_first(), b);
        assert((a + b).drop_first() =~= a.drop_first() + b);
        assert(encode_utf8(a + b) =~= encode_utf8(a) + encode_utf8(b));
    }
}

/// A text of one code point encodes to that code point's bytes.
pub proof fn lemma_encode_single(c: char)
    ensures
        encode_utf8(seq![c]) == encode_scalar(c as u32),
        encode_utf8(seq![c]).len() == char_width(c),
{
    let s = seq![c];
    assert(s.drop_first() =~= Seq::<char>::empty());
    assert(encode_utf8(s.drop_first()) =~= Seq::<u8>::empty());
    assert(encode_utf8(s) =~= encode_scalar(c as u32));
    lemma_char_width_is_encoded_len(c);
}

/// Two texts with the same encoding are the same text.
pub proof fn lemma_encode_injective(a: Seq<char>, b: Seq<char>)
    requires
        encode_utf8(a) == encode_utf8(b),
    ensures
        a == b,
{
    encode_utf8_decode_utf8(a);
    encode_utf8_decode_utf8(b);
}

/// The first code point begins at byte 0, and the offset one past the last
/// code point is the length of the encoding.
pub proof fn lemma_byte_offset_ends(text: Seq<char>)
    ensures
        byte_offset(text, 0) == 0,
        byte_offset(text, text.len() as int) == encode_utf8(text).len(),
{
    assert(text.take(0) =~= Seq::<char>::empty());
    assert(text.take(text.len() as int) =~= text);
}

/// Each code point begins where the one before it ends.
pub proof fn lemma_byte_offset_step(text: Seq<char>, index: int)
    requires
        0 <= index < text.len(),
    ensures
        byte_offset(text, index + 1) == byte_offset(text, index) + char_width(text[index]),
{
    assert(text.take(index + 1) =~= text.take(index) + seq![text[index]]);
    lemma_encode_concat(text.take(index), seq![text[index]]);
    lemma_encode_single(text[index]);
}

/// Byte offsets grow strictly with the code-point index.
pub proof fn lemma_byte_offset_increasing(text: Seq<char>, i: int, j: int)
    requires
        0 <= i < j <= text.len(),
    ensures
        byte_offset(text, i) < byte_offset(text, j),
    decreases j - i,
{
    lemma_byte_offset_step(text, j - 1);
    if i < j - 1 {
        lemma_byte_offset_increasing(text, i, j - 1);
    }
}

/// Every code point begins strictly before the end of the encoding.
pub proof fn lemma_byte_offset_in_bounds(text: Seq<char>, index: int)
    requires
        0 <= index < text.len(),
    ensures
        byte_offset(text, index) < encode_utf8(text).len(),
{
    lemma_byte_offset_increasing(text, index, text.len() as int);
    lemma_byte_offset_ends(text);
}

/// The table has one entry per code point; its byte offsets ascend strictly,
/// and each lies before the end of the encoding.
pub proof fn lemma_char_table_ordered(text: Seq<char>)
    ensures
        char_table(text).len() == text.len(),
        forall|i: int| 0 <= i < text.len() ==> (#[trigger] char_table(text)[i]).0 == text[i],
        forall|i: int, j: int|
            0 <= i < j < text.len() ==> (#[trigger] char_table(text)[i]).1 < (
            #[trigger] char_table(text)[j]).1,
        forall|i: int|
            0 <= i < text.len() ==> (#[trigger] char_table(text)[i]).1 < encode_utf8(text).len(),
{
    assert forall|i: int, j: int| 0 <= i < j < text.len() implies (#[trigger] char_table(
        text,
    )[i]).1 < (#[trigger] char_table(text)[j]).1 by {
        lemma_byte_offset_increasing(text, i, j);
    }
    assert forall|i: int| 0 <= i < text.len() implies (#[trigger] char_table(text)[i]).1
        < encode_utf8(text).len() by {
        lemma_byte_offset_in_bounds(text, i);
    }
}

/// The encoding of a sub-range of the text is the part of the text's encoding
/// between the byte offsets of the range's two ends.
pub proof fn lemma_encode_subrange(text: Seq<char>, start: int, end: int)
    requires
        0 <= start <= end <= text.len(),
    ensures
        byte_offset(text, start) <= byte_offset(text, end) <= encode_utf8(text).len(),
        encode_utf8(text.subrange(start, end)) == encode_utf8(text).subrange(
            byte_offset(text, start) as int,
            byte_offset(text, end) as int,
        ),
{
    let head = text.take(start);
    let mid = text.subrange(start, end);
    let tail = text.skip(end);
    assert(text.take(end) =~= head + mid);
    assert(text =~= text.take(end) + tail);
    lemma_encode_concat(head, mid);
    lemma_encode_concat(text.take(end), tail);
    assert(encode_utf8(mid) =~= encode_utf8(text).subrange(
        byte_offset(text, start) as int,
        byte_offset(text, end) as int,
    ));
}

/// Decoding the bytes between the byte offsets of two code-point indices
/// gives back exactly the code points between the two indices.
pub proof fn lemma_decode_between_offsets(text: Seq<char>, start: int, end: int)
    requires
        0 <= start <= end <= text.len(),
    ensures
        decode_utf8(
            encode_utf8(text).subrange(
                byte_offset(text, start) as int,
                byte_offset(text, end) as int,
            ),
        ) == text.subrange(start, end),
{
    lemma_encode_subrange(text, start, end);
    encode_utf8_decode_utf8(text.subrange(start, end));
}

/// The byte offset of every code point, and the end of the encoding, is a
/// character boundary of the encoding.
pub proof fn lemma_byte_offset_is_char_boundary(text: Seq<char>, index: int)
    requires
        0 <= index <= text.len(),
    ensures
        is_char_boundary(encode_utf8(text), byte_offset(text, index) as int),
    decreases index,
{
    let bytes = encode_utf8(text);
    encode_utf8_valid_utf8(text);
    if index == 0 {
        lemma_byte_offset_ends(text);
    } else {
        let rest = text.drop_first();
        encode_utf8_first_scalar(text);
        lemma_char_width_is_encoded_len(text[0]);
        assert(pop_first_scalar(bytes) =~= encode_utf8(rest));
        assert(text.take(index) =~= seq![text[0]] + rest.take(index - 1));
        lemma_encode_concat(seq![text[0]], rest.take(index - 1));
        lemma_encode_single(text[0]);
        assert(byte_offset(text, index) == length_of_first_scalar(bytes) + byte_offset(
            rest,
            index - 1,
        ));
        lemma_encode_subrange(text, 0, index);
        lemma_byte_offset_is_char_boundary(rest, index - 1);
    }
}

} // verus!
