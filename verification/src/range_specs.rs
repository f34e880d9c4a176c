//! Contracts for the bound getters of `core::ops::RangeInclusive`.
use vstd::prelude::*;
use core::ops::RangeInclusive;

verus! {

/// `RangeInclusive::start` returns the lower bound; its documentation leaves
/// the value unspecified once the range has been iterated to exhaustion.
pub assume_specification<Idx>[ RangeInclusive::<Idx>::start ](r: &RangeInclusive<Idx>) -> (ret: &Idx)
    ensures
        !r@.exhausted ==> *ret == r@.start,
;

/// `RangeInclusive::end` returns the upper bound; its documentation leaves
/// the value unspecified once the range has been iterated to exhaustion.
pub assume_specification<Idx>[ RangeInclusive::<Idx>::end ](r: &RangeInclusive<Idx>) -> (ret: &Idx)
    ensures
        !r@.exhausted ==> *ret == r@.end,
;

} // verus!
