//! Bounds-checked sub-slicing shared by the parsers.

use vstd::prelude::*;
use vstd::slice::slice_subrange;

verus! {

/// One end of a range of indices.
#[derive(Debug, Clone, Copy, PartialEq, Eq)]
pub enum RangeLimit {
    /// The index itself belongs to the range.
    Included(usize),
    /// The index is the first one outside the range.
    Excluded(usize),
    /// The range runs to the end of the slice on this side.
    Unbounded,
}

/// Why a range could not be cut out of a slice.
#[derive(Debug, Clone, Copy, PartialEq, Eq)]
pub enum SliceError {
    /// The half-open range `start..end` does not lie inside a slice of `len` items.
    OutOfBounds { start: usize, end: usize, len: usize },
}

/// `n + 1`, held at `usize::MAX`.
pub open spec fn next_index(n: usize) -> usize {
    if n == usize::MAX {
        n
    } else {
        (n + 1) as usize
    }
}

/// The first index that a range with lower end `limit` covers.
pub open spec fn first_index(limit: RangeLimit) -> usize {
    match limit {
        RangeLimit::Included(n) => n,
        RangeLimit::Excluded(n) => next_index(n),
        RangeLimit::Unbounded => 0,
    }
}

/// The first index past a range with upper end `limit`, in a slice of `len` items.
pub open spec fn past_index(limit: RangeLimit, len: usize) -> usize {
    match limit {
        RangeLimit::Included(n) => next_index(n),
        RangeLimit::Excluded(n) => n,
        RangeLimit::Unbounded => len,
    }
}

/// The result that `get_slice` owes for a slice holding `items`.
pub open spec fn checked_subrange<T>(items: Seq<T>, start: RangeLimit, end: RangeLimit) -> Result<
    Seq<T>,
    SliceError,
> {
    let len = items.len() as usize;
    let from = first_index(start);
    let to = past_index(end, len);
    if from <= to && to <= len {
        Ok(items.subrange(from as int, to as int))
    } else {
        Err(SliceError::OutOfBounds { start: from, end: to, len })
    }
}

fn bump(n: usize) -> (r: usize)
    ensures
        r == next_index(n),
{
    if n == usize::MAX {
        n
    } else {
        n + 1
    }
}

/// Cuts the range between `start` and `end` out of `slice`, or reports the
/// half-open range that was asked for together with the slice's length.
pub fn get_slice<'a, T>(slice: &'a [T], start: RangeLimit, end: RangeLimit) -> (r: Result<
    &'a [T],
    SliceError,
>)
    ensures
        match r {
            Ok(part) => checked_subrange(slice@, start, end) == Ok::<Seq<T>, SliceError>(part@),
            Err(e) => checked_subrange(slice@, start, end) == Err::<Seq<T>, SliceError>(e),
        },
{
    let len: usize = slice.len();
    let from: usize = match start {
        RangeLimit::Included(n) => n,
        RangeLimit::Excluded(n) => bump(n),
        RangeLimit::Unbounded => 0,
    };
    let to: usize = match end {
        RangeLimit::Included(n) => bump(n),
        RangeLimit::Excluded(n) => n,
        RangeLimit::Unbounded => len,
    };
    if from > len || to > len || from > to {
        return Err(SliceError::OutOfBounds { start: from, end: to, len });
    }
    Ok(slice_subrange(slice, from, to))
}

} // verus!
