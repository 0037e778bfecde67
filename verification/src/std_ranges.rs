//! Declarations of the two open-ended range types of `core::ops`, so that
//! the range expressions `start..` and `..end` can be used as indices.

use vstd::prelude::*;

verus! {

/// `core::ops::RangeFrom`, the type of `start..`: a struct with the one
/// public field `start`. Nothing is claimed of it beyond its fields.
#[verifier::external_type_specification]
#[verifier::reject_recursive_types(Idx)]
pub struct ExRangeFrom<Idx>(core::ops::RangeFrom<Idx>);

/// `core::ops::RangeTo`, the type of `..end`: a struct with the one public
/// field `end`. Nothing is claimed of it beyond its fields.
#[verifier::external_type_specification]
#[verifier::reject_recursive_types(Idx)]
pub struct ExRangeTo<Idx>(core::ops::RangeTo<Idx>);

} // verus!
