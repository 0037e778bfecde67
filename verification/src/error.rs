//! The ways in which a request by code-point index can be refused.

use vstd::prelude::*;

verus! {

/// A request that names code points the text does not have. Each variant
/// carries the offending value and the bound it was held against.
#[derive(Debug, Clone, Copy, PartialEq, Eq, Structural)]
pub enum IndexError {
    /// A single index that is not below the number of code points.
    OutOfRange { index: usize, len: usize },
    /// A range whose end is above the number of code points.
    RangeEndOutOfBounds { end: usize, len: usize },
    /// A range whose end lies before its start.
    InvalidRangeOrder { start: usize, end: usize },
}

} // verus!
