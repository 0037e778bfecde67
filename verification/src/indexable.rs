//! The indexed text: a borrowed string with a table of where each of its code
//! points begins.

use crate::error::IndexError;
use crate::model::as_chars;
use crate::model::char_at;
use crate::model::range_from;
use crate::model::range_of;
use crate::model::range_to;
use crate::offsets::byte_offset;
use crate::offsets::char_table;
use crate::offsets::lemma_byte_offset_ends;
use crate::offsets::lemma_byte_offset_in_bounds;
use crate::offsets::lemma_byte_offset_is_char_boundary;
use crate::offsets::lemma_byte_offset_step;
use crate::offsets::lemma_encode_injective;
use crate::offsets::lemma_encode_subrange;
use crate::width::utf8_width;
use vstd::prelude::*;
use vstd::string::StringSliceAdditionalSpecFns;
use vstd::utf8::*;

verus! {

/// One code point of the text and the byte position where it begins.
#[derive(Clone, Copy)]
struct CharOffset {
    chr: char,
    offset: usize,
}

impl CharOffset {
    /// An entry for code point `chr` beginning at byte `offset`.
    fn new(chr: char, offset: usize) -> (entry: CharOffset)
        ensures
            entry.chr == chr,
            entry.offset == offset,
    {
        CharOffset { chr, offset }
    }
}

/// A read-only view of a string slice that is addressed by code-point index.
///
/// The table of byte offsets is built once, when the view is made; every
/// later access by index or by range looks positions up in it.
pub struct IndexableStr<'a> {
    str: &'a str,
    str_length: usize,
    chars_vec: Vec<CharOffset>,
    chars_length: usize,
}

impl<'a> View for IndexableStr<'a> {
    type V = Seq<char>;

    /// The text as its sequence of code points.
    open spec fn view(&self) -> Seq<char> {
        self.spec_as_str()@
    }
}

impl<'a> IndexableStr<'a> {
    /// The table of code points and byte offsets that this view holds.
    pub closed spec fn table(&self) -> Seq<(char, nat)> {
        Seq::new(
            self.chars_vec@.len(),
            |i: int| (self.chars_vec@[i].chr, self.chars_vec@[i].offset as nat),
        )
    }

    /// The table holds one entry per code point, in order, each with the
    /// code point itself and the byte offset at which it begins; the two
    /// cached lengths are those of the text's encoding and of the table.
    #[verifier::type_invariant]
    spec fn well_formed(&self) -> bool {
        &&& self.str_length == self.str.spec_bytes().len()
        &&& self.chars_length == self.chars_vec@.len()
        &&& self.chars_vec@.len() == self.str@.len()
        &&& forall|i: int|
            0 <= i < self.chars_vec@.len() ==> {
                &&& (#[trigger] self.chars_vec@[i]).chr == self.str@[i]
                &&& self.chars_vec@[i].offset == byte_offset(self.str@, i)
            }
    }

    /// Indexes `str` by code point: walks the text once and records, for
    /// each code point, the byte offset at which it begins.
    pub fn new(str: &'a str) -> (text: IndexableStr<'a>)
        ensures
            text.as_str() == str,
            text@ == str@,
            text.len() == str@.len(),
            text.table() == char_table(str@),
    {
        let str_length: usize = str.as_bytes().len();
        let mut current_offset: usize = 0;
        let mut chars_vec: Vec<CharOffset> = Vec::new();
        proof {
            lemma_byte_offset_ends(str@);
        }
        for c in it: str.chars()
            invariant
                it.seq() == str@,
                str_length == encode_utf8(str@).len(),
                chars_vec@.len() == it.index(),
                current_offset == byte_offset(str@, it.index()),
                forall|i: int|
                    0 <= i < chars_vec@.len() ==> {
                        &&& (#[trigger] chars_vec@[i]).chr == str@[i]
                        &&& chars_vec@[i].offset == byte_offset(str@, i)
                    },
        {
            proof {
                let at = it.index();
                lemma_byte_offset_step(str@, at);
                if at + 1 < str@.len() {
                    lemma_byte_offset_in_bounds(str@, at + 1);
                } else {
                    lemma_byte_offset_ends(str@);
                }
            }
            chars_vec.push(CharOffset::new(c, current_offset));
            current_offset += utf8_width(c);
        }
        let chars_length: usize = chars_vec.len();
        let text = IndexableStr { str, str_length, chars_vec, chars_length };
        assert(text.table() =~= char_table(str@));
        text
    }

    /// The string slice that this view was made from.
    pub closed spec fn spec_as_str(&self) -> &'a str {
        self.str
    }

    /// The number of code points, as far as a `usize` holds it.
    pub open spec fn spec_len(&self) -> usize {
        self@.len() as usize
    }

    /// Returns the string slice the view was made from, unchanged and with
    /// its own lifetime.
    #[verifier::when_used_as_spec(spec_as_str)]
    pub fn as_str(&self) -> (s: &'a str)
        ensures
            s == self.spec_as_str(),
            s@ == self@,
    {
        self.str
    }

    /// Returns the number of code points in the text, which is not its
    /// length in bytes.
    #[verifier::when_used_as_spec(spec_len)]
    pub fn len(&self) -> (n: usize)
        ensures
            n == self@.len(),
            n == self.spec_len(),
    {
        proof {
            use_type_invariant(self);
        }
        self.chars_length
    }

    /// Returns the text as an owned string with the same contents.
    pub fn to_display_string(&self) -> (s: String)
        ensures
            s@ == self@,
    {
        self.str.to_string()
    }

    /// Returns the code point at `index`, or `OutOfRange` for an index that
    /// is not below `len()`.
    pub fn character_at(&self, index: usize) -> (r: Result<char, IndexError>)
        ensures
            r == char_at(self@, index),
    {
        proof {
            use_type_invariant(self);
        }
        if index >= self.chars_length {
            return Err(IndexError::OutOfRange { index, len: self.chars_length });
        }
        Ok(self.chars_vec[index].chr)
    }

    /// The byte position at which code point `index` begins, read from the
    /// table; for `index == len()` the byte length of the text, which the
    /// table does not hold.
    fn byte_offset_at(&self, index: usize) -> (offset: usize)
        requires
            index <= self@.len(),
        ensures
            offset == byte_offset(self@, index as int),
    {
        proof {
            use_type_invariant(self);
            lemma_byte_offset_ends(self@);
        }
        if index == self.chars_length {
            self.str_length
        } else {
            self.chars_vec[index].offset
        }
    }

    /// Returns the part of the text that holds the code points from
    /// `start_index` up to, not including, `end_index`.
    ///
    /// The result borrows from the string slice the view was made from: it
    /// is the bytes between the byte offsets of the two code-point indices.
    pub fn create_str_from_range(&self, start_index: usize, end_index: usize) -> (s: &'a str)
        requires
            start_index <= end_index <= self@.len(),
        ensures
            s@ == self@.subrange(start_index as int, end_index as int),
            s.spec_bytes() == self.as_str().spec_bytes().subrange(
                byte_offset(self@, start_index as int) as int,
                byte_offset(self@, end_index as int) as int,
            ),
    {
        let bytes_start: usize = self.byte_offset_at(start_index);
        let bytes_end: usize = self.byte_offset_at(end_index);
        let ghost text = self@;
        proof {
            // The end offset is a character boundary, and the bytes before it
            // encode the first `end_index` code points.
            lemma_byte_offset_is_char_boundary(text, end_index as int);
            lemma_byte_offset_ends(text);
            lemma_encode_subrange(text, 0, end_index as int);
            lemma_encode_subrange(text, start_index as int, end_index as int);
        }
        let (head, _) = self.str.split_at(bytes_end);
        proof {
            // `head` is the text up to `end_index`, so the start offset means
            // the same in it as in the whole text.
            lemma_encode_injective(head@, text.subrange(0, end_index as int));
            assert(head@.take(start_index as int) =~= text.take(start_index as int));
            assert(head@.take(end_index as int) =~= text.take(end_index as int));
            lemma_byte_offset_is_char_boundary(head@, start_index as int);
            lemma_encode_subrange(head@, start_index as int, end_index as int);
            assert(head@.subrange(start_index as int, end_index as int) =~= text.subrange(
                start_index as int,
                end_index as int,
            ));
        }
        let (_, range) = head.split_at(bytes_start);
        proof {
            lemma_encode_injective(range@, text.subrange(start_index as int, end_index as int));
        }
        range
    }

    /// Returns the code points in the half-open range from `start` to `end`
    /// as a slice of the text. A range that ends where it starts is empty.
    ///
    /// An `end` above `len()` is refused as `RangeEndOutOfBounds`; otherwise
    /// an `end` below `start` is refused as `InvalidRangeOrder`.
    pub fn slice(&self, start: usize, end: usize) -> (r: Result<&'a str, IndexError>)
        ensures
            as_chars(r) == range_of(self@, start, end),
    {
        let len: usize = self.len();
        if end > len {
            return Err(IndexError::RangeEndOutOfBounds { end, len });
        }
        if end < start {
            return Err(IndexError::InvalidRangeOrder { start, end });
        }
        Ok(self.create_str_from_range(start, end))
    }

    /// Returns the text from code point `start` to its end; a `start` above
    /// `len()` is refused as `InvalidRangeOrder`.
    pub fn slice_from(&self, start: usize) -> (r: Result<&'a str, IndexError>)
        ensures
            as_chars(r) == range_from(self@, start),
    {
        self.slice(start, self.len())
    }

    /// Returns the text from its beginning up to, not including, code point
    /// `end`; an `end` above `len()` is refused as `RangeEndOutOfBounds`.
    pub fn slice_to(&self, end: usize) -> (r: Result<&'a str, IndexError>)
        ensures
            as_chars(r) == range_to(self@, end),
    {
        self.slice(0, end)
    }
}

impl<'a> vstd::std_specs::core::IndexSpecImpl<usize> for IndexableStr<'a> {
    /// `text[index]` asks for an index below the number of code points.
    open spec fn index_req(&self, index: &usize) -> bool {
        *index < self@.len()
    }
}

impl<'a> core::ops::Index<usize> for IndexableStr<'a> {
    type Output = char;

    /// The code point at `index`, read from the table.
    fn index(&self, index: usize) -> (c: &char)
        ensures
            *c == self@[index as int],
    {
        proof {
            use_type_invariant(self);
        }
        &self.chars_vec[index].chr
    }
}

impl<'a> vstd::std_specs::core::IndexSpecImpl<core::ops::Range<usize>> for IndexableStr<'a> {
    /// `text[start..end]` asks for a range in order that ends within the
    /// text.
    open spec fn index_req(&self, range: &core::ops::Range<usize>) -> bool {
        range.start <= range.end <= self@.len()
    }
}

impl<'a> core::ops::Index<core::ops::Range<usize>> for IndexableStr<'a> {
    type Output = str;

    /// The code points from `range.start` up to, not including, `range.end`.
    fn index(&self, range: core::ops::Range<usize>) -> (s: &str)
        ensures
            s@ == self@.subrange(range.start as int, range.end as int),
    {
        self.create_str_from_range(range.start, range.end)
    }
}

impl<'a> vstd::std_specs::core::IndexSpecImpl<core::ops::RangeFrom<usize>> for IndexableStr<'a> {
    /// `text[start..]` asks for a start that is not past the end of the text.
    open spec fn index_req(&self, range: &core::ops::RangeFrom<usize>) -> bool {
        range.start <= self@.len()
    }
}

impl<'a> core::ops::Index<core::ops::RangeFrom<usize>> for IndexableStr<'a> {
    type Output = str;

    /// The code points from `range.start` to the end of the text.
    fn index(&self, range: core::ops::RangeFrom<usize>) -> (s: &str)
        ensures
            s@ == self@.skip(range.start as int),
    {
        self.create_str_from_range(range.start, self.len())
    }
}

impl<'a> vstd::std_specs::core::IndexSpecImpl<core::ops::RangeTo<usize>> for IndexableStr<'a> {
    /// `text[..end]` asks for an end within the text.
    open spec fn index_req(&self, range: &core::ops::RangeTo<usize>) -> bool {
        range.end <= self@.len()
    }
}

impl<'a> core::ops::Index<core::ops::RangeTo<usize>> for IndexableStr<'a> {
    type Output = str;

    /// The code points from the beginning of the text up to, not including,
    /// `range.end`.
    fn index(&self, range: core::ops::RangeTo<usize>) -> (s: &str)
        ensures
            s@ == self@.take(range.end as int),
    {
        self.create_str_from_range(0, range.end)
    }
}

} // verus!
