//! Character-indexed, read-only views over UTF-8 text.

pub mod error;
pub mod indexable;
pub mod model;
pub mod offsets;
pub mod std_ranges;
pub mod width;

pub use error::IndexError;
pub use indexable::IndexableStr;
