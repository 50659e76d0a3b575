//! The runtime entry points the emitted code calls: the size query and
//! the four step primitives the increment and decrement operators lower
//! to.

use vstd::prelude::*;

use crate::traits::Integer;

verus! {

/// The size in bytes of a type, as the emitted size query computes it.
pub fn sizeof<T>() -> (r: u64)
    ensures
        r as nat == vstd::layout::size_of::<T>(),
{
    core::mem::size_of::<T>() as u64
}

/// The post-increment primitive: steps the value up and hands the value
/// before the step back.
pub fn inca<T: Integer>(x: &mut T) -> (r: T)
    requires
        old(x).as_math() + 1 <= T::max_val(),
    ensures
        r.as_math() == old(x).as_math(),
        final(x).as_math() == old(x).as_math() + 1,
{
    let copy = *x;
    x.add_one_u8(1);
    copy
}

/// The pre-increment primitive: steps the value up and hands the stepped
/// value back.
pub fn incb<T: Integer>(x: &mut T) -> (r: T)
    requires
        old(x).as_math() + 1 <= T::max_val(),
    ensures
        r.as_math() == old(x).as_math() + 1,
        final(x).as_math() == old(x).as_math() + 1,
{
    x.add_one_u8(1);
    *x
}

/// The post-decrement primitive: steps the value down and hands the value
/// before the step back.
pub fn deca<T: Integer>(x: &mut T) -> (r: T)
    requires
        old(x).as_math() - 1 >= T::min_val(),
    ensures
        r.as_math() == old(x).as_math(),
        final(x).as_math() == old(x).as_math() - 1,
{
    let copy = *x;
    x.sub_one_u8(1);
    copy
}

/// The pre-decrement primitive: steps the value down and hands the
/// stepped value back.
pub fn decb<T: Integer>(x: &mut T) -> (r: T)
    requires
        old(x).as_math() - 1 >= T::min_val(),
    ensures
        r.as_math() == old(x).as_math() - 1,
        final(x).as_math() == old(x).as_math() - 1,
{
    x.sub_one_u8(1);
    *x
}

} // verus!
