//! Values that several owners share.
use std::sync::Arc;

use vstd::prelude::*;

use crate::capacity::has_room_for;

verus! {

/// `Arc::clone`: another handle to the same value.
#[verifier::external_body]
pub(crate) fn share<T>(value: &Arc<T>) -> (handle: Arc<T>)
    ensures
        handle == value,
{
    Arc::clone(value)
}

/// Whether asking if `a` and `b` are handles to one allocation gives `answer`.
pub closed spec fn one_allocation<T>(a: Arc<T>, b: Arc<T>, answer: bool) -> bool {
    call_ensures(same_allocation::<T>, (&a, &b), answer)
}

/// `Arc::ptr_eq`: whether two handles are to one allocation, which then holds one
/// value. Which allocations are one is up to the allocator; of handles to different
/// ones nothing is said.
#[verifier::external_body]
fn same_allocation<T>(a: &Arc<T>, b: &Arc<T>) -> (result: bool)
    ensures
        result ==> a == b,
{
    Arc::ptr_eq(a, b)
}

/// Whether asking `vec` to make room for more elements gives `reserved`.
pub closed spec fn makes_room<T>(vec: Vec<T>, additional: usize, reserved: bool) -> bool {
    exists|buffer: &mut Vec<T>| #[trigger]
        call_ensures(try_reserve_exact::<T>, (buffer, additional), reserved) && *buffer == vec
}

/// Whether two handles are to one allocation.
pub(crate) fn compare_handles<T>(a: &Arc<T>, b: &Arc<T>) -> (result: bool)
    ensures
        one_allocation(*a, *b, result),
        result ==> a == b,
{
    same_allocation(a, b)
}

/// Asks `vec` to make room for more elements, and returns whether it has.
pub(crate) fn reserve_room<T>(vec: &mut Vec<T>, additional: usize) -> (reserved: bool)
    ensures
        final(vec)@ == old(vec)@,
        makes_room(*old(vec), additional, reserved),
        reserved ==> has_room_for(*final(vec), old(vec)@.len() + additional),
{
    try_reserve_exact(vec, additional)
}

/// `Vec::try_reserve_exact`: makes room for more elements, if there is memory for
/// them, and keeps every element either way. Where it succeeds, the capacity is not
/// below what the vector holds and is to hold. Whether there is memory is up to the
/// allocator.
#[verifier::external_body]
fn try_reserve_exact<T>(vec: &mut Vec<T>, additional: usize) -> (reserved: bool)
    ensures
        final(vec)@ == old(vec)@,
        reserved ==> has_room_for(*final(vec), old(vec)@.len() + additional),
{
    vec.try_reserve_exact(additional).is_ok()
}

} // verus!
