//! The bounded sequences of levels that one exchange reports for one side.
use vstd::prelude::*;

use arrayvec::ArrayVec;

use crate::level::Level;
use crate::TOP_LEVELS;

verus! {

/// The fixed-capacity vector of `arrayvec`; what it holds is seen through `levels_of`.
#[verifier::external_type_specification]
#[verifier::external_body]
#[verifier::reject_recursive_types(T)]
pub struct ExArrayVec<T, const CAP: usize>(ArrayVec<T, CAP>);

/// The levels that `v` holds, in order.
pub uninterp spec fn levels_of(v: ArrayVec<Level, TOP_LEVELS>) -> Seq<Level>;

/// Relies on `ArrayVec::new`: a vector that holds nothing.
#[verifier::external_body]
pub(crate) fn new_levels() -> (r: ArrayVec<Level, TOP_LEVELS>)
    ensures
        levels_of(r) == Seq::<Level>::empty(),
{
    ArrayVec::new()
}

/// Relies on `ArrayVec::push`: the level goes at the end; it panics only on a full vector.
#[verifier::external_body]
pub(crate) fn push_level(v: &mut ArrayVec<Level, TOP_LEVELS>, level: Level)
    requires
        levels_of(*old(v)).len() < TOP_LEVELS,
    ensures
        levels_of(*final(v)) == levels_of(*old(v)).push(level),
{
    v.push(level)
}

/// Relies on `ArrayVec::clone`: a new vector with the same levels in the same order.
#[verifier::external_body]
pub(crate) fn clone_levels(v: &ArrayVec<Level, TOP_LEVELS>) -> (r: ArrayVec<Level, TOP_LEVELS>)
    ensures
        levels_of(r) == levels_of(*v),
{
    v.clone()
}

/// Relies on `ArrayVec::as_slice`: the levels in order, no more than the capacity.
#[verifier::external_body]
pub(crate) fn levels_slice(v: &ArrayVec<Level, TOP_LEVELS>) -> (r: &[Level])
    ensures
        r@ == levels_of(*v),
        r@.len() <= TOP_LEVELS,
{
    v.as_slice()
}

} // verus!
