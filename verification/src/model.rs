//! What each access by code-point index yields, stated on the text as a
//! sequence of code points.

use crate::error::IndexError;
use vstd::prelude::*;

verus! {

/// The outcome of a range request with the slice it returned, if any, taken
/// as its sequence of code points.
pub open spec fn as_chars(outcome: Result<&str, IndexError>) -> Result<Seq<char>, IndexError> {
    match outcome {
        Ok(slice) => Ok(slice@),
        Err(error) => Err(error),
    }
}

/// The code point at `index`, or the refusal of an index past the last one.
pub open spec fn char_at(text: Seq<char>, index: usize) -> Result<char, IndexError> {
    if index < text.len() {
        Ok(text[index as int])
    } else {
        Err(IndexError::OutOfRange { index, len: text.len() as usize })
    }
}

/// The code points in the half-open range from `start` to `end`. The end is
/// held against the length of the text first, and against the start second.
pub open spec fn range_of(text: Seq<char>, start: usize, end: usize) -> Result<
    Seq<char>,
    IndexError,
> {
    if end > text.len() {
        Err(IndexError::RangeEndOutOfBounds { end, len: text.len() as usize })
    } else if end < start {
        Err(IndexError::InvalidRangeOrder { start, end })
    } else {
        Ok(text.subrange(start as int, end as int))
    }
}

/// The code points from `start` to the end of the text.
pub open spec fn range_from(text: Seq<char>, start: usize) -> Result<Seq<char>, IndexError> {
    range_of(text, start, text.len() as usize)
}

/// The code points from the beginning of the text up to `end`.
pub open spec fn range_to(text: Seq<char>, end: usize) -> Result<Seq<char>, IndexError> {
    range_of(text, 0, end)
}

/// An index below the length yields the code point there, and no other index
/// yields one.
pub proof fn lemma_char_at_total(text: Seq<char>, index: usize)
    ensures
        index < text.len() ==> char_at(text, index) == Ok::<char, IndexError>(text[index as int]),
        index >= text.len() ==> char_at(text, index) is Err,
        char_at(text, index) is Err ==> char_at(text, index)->Err_0 is OutOfRange,
{
}

/// A range that ends where it starts is empty, wherever in the text it lies.
pub proof fn lemma_range_of_empty(text: Seq<char>, k: usize)
    requires
        k <= text.len(),
    ensures
        range_of(text, k, k) == Ok::<Seq<char>, IndexError>(Seq::empty()),
{
    assert(text.subrange(k as int, k as int) =~= Seq::<char>::empty());
}

/// Splitting the text at any index and joining the two parts gives the text
/// back.
pub proof fn lemma_range_of_split_rejoin(text: Seq<char>, k: usize)
    requires
        text.len() <= usize::MAX,
        k <= text.len(),
    ensures
        range_of(text, 0, k) is Ok,
        range_of(text, k, text.len() as usize) is Ok,
        range_of(text, 0, k)->Ok_0 + range_of(text, k, text.len() as usize)->Ok_0 == text,
{
    assert(text.subrange(0, k as int) + text.subrange(k as int, text.len() as int) =~= text);
}

/// A range whose end is within the text but before its start is refused for
/// its order.
pub proof fn lemma_range_of_inverted(text: Seq<char>, start: usize, end: usize)
    requires
        end <= text.len(),
        start > end,
    ensures
        range_of(text, start, end) == Err::<Seq<char>, IndexError>(
            IndexError::InvalidRangeOrder { start, end },
        ),
{
}

/// A range whose end is past the text is refused for its end, whatever its
/// start.
pub proof fn lemma_range_of_end_too_large(text: Seq<char>, start: usize, end: usize)
    requires
        end > text.len(),
    ensures
        range_of(text, start, end) == Err::<Seq<char>, IndexError>(
            IndexError::RangeEndOutOfBounds { end, len: text.len() as usize },
        ),
{
}

/// The range from the first code point on, and the range up to the length,
/// are both the whole text.
pub proof fn lemma_open_ranges_whole(text: Seq<char>)
    requires
        text.len() <= usize::MAX,
    ensures
        range_from(text, 0) == Ok::<Seq<char>, IndexError>(text),
        range_to(text, text.len() as usize) == Ok::<Seq<char>, IndexError>(text),
{
    assert(text.subrange(0, text.len() as int) =~= text);
}

/// An open-ended range from `start` is refused only for its order, and one up
/// to `end` only for its end.
pub proof fn lemma_open_ranges_refusals(text: Seq<char>, index: usize)
    requires
        text.len() <= usize::MAX,
    ensures
        range_from(text, index) is Err <==> index > text.len(),
        range_from(text, index) is Err ==> range_from(text, index)->Err_0 is InvalidRangeOrder,
        range_to(text, index) is Err <==> index > text.len(),
        range_to(text, index) is Err ==> range_to(text, index)->Err_0 is RangeEndOutOfBounds,
{
}

} // verus!
