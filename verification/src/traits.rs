//! The helper trait behind the step operators: a type that can move up
//! or down by a small amount, within its own range.

use vstd::prelude::*;

verus! {

/// An integer type the emitted step calls can work on. Each implementor
/// says what its values mean as mathematical integers and what its range
/// is; stepping past the range is ruled out, as the emitted code's own
/// arithmetic would be.
pub trait Integer: Copy + Sized {
    /// The value as a mathematical integer.
    spec fn as_math(self) -> int;

    /// The smallest representable value.
    spec fn min_val() -> int;

    /// The largest representable value.
    spec fn max_val() -> int;

    /// Adds a small amount to the value.
    fn add_one_u8(&mut self, x: u8)
        requires
            old(self).as_math() + x as int <= Self::max_val(),
        ensures
            final(self).as_math() == old(self).as_math() + x as int,
    ;

    /// Subtracts a small amount from the value.
    fn sub_one_u8(&mut self, x: u8)
        requires
            old(self).as_math() - x as int >= Self::min_val(),
        ensures
            final(self).as_math() == old(self).as_math() - x as int,
    ;
}

impl Integer for u8 {
    open spec fn as_math(self) -> int {
        self as int
    }

    open spec fn min_val() -> int {
        0
    }

    open spec fn max_val() -> int {
        0xff
    }

    fn add_one_u8(&mut self, x: u8) {
        *self = *self + x;
    }

    fn sub_one_u8(&mut self, x: u8) {
        *self = *self - x;
    }
}

impl Integer for i8 {
    open spec fn as_math(self) -> int {
        self as int
    }

    open spec fn min_val() -> int {
        -0x80
    }

    open spec fn max_val() -> int {
        0x7f
    }

    fn add_one_u8(&mut self, x: u8) {
        *self = ((*self as i16) + (x as i16)) as i8;
    }

    fn sub_one_u8(&mut self, x: u8) {
        *self = ((*self as i16) - (x as i16)) as i8;
    }
}

impl Integer for u16 {
    open spec fn as_math(self) -> int {
        self as int
    }

    open spec fn min_val() -> int {
        0
    }

    open spec fn max_val() -> int {
        0xffff
    }

    fn add_one_u8(&mut self, x: u8) {
        *self = *self + x as u16;
    }

    fn sub_one_u8(&mut self, x: u8) {
        *self = *self - x as u16;
    }
}

impl Integer for i16 {
    open spec fn as_math(self) -> int {
        self as int
    }

    open spec fn min_val() -> int {
        -0x8000
    }

    open spec fn max_val() -> int {
        0x7fff
    }

    fn add_one_u8(&mut self, x: u8) {
        *self = *self + x as i16;
    }

    fn sub_one_u8(&mut self, x: u8) {
        *self = *self - x as i16;
    }
}

impl Integer for u32 {
    open spec fn as_math(self) -> int {
        self as int
    }

    open spec fn min_val() -> int {
        0
    }

    open spec fn max_val() -> int {
        0xffff_ffff
    }

    fn add_one_u8(&mut self, x: u8) {
        *self = *self + x as u32;
    }

    fn sub_one_u8(&mut self, x: u8) {
        *self = *self - x as u32;
    }
}

impl Integer for i32 {
    open spec fn as_math(self) -> int {
        self as int
    }

    open spec fn min_val() -> int {
        -0x8000_0000
    }

    open spec fn max_val() -> int {
        0x7fff_ffff
    }

    fn add_one_u8(&mut self, x: u8) {
        *self = *self + x as i32;
    }

    fn sub_one_u8(&mut self, x: u8) {
        *self = *self - x as i32;
    }
}

impl Integer for u64 {
    open spec fn as_math(self) -> int {
        self as int
    }

    open spec fn min_val() -> int {
        0
    }

    open spec fn max_val() -> int {
        0xffff_ffff_ffff_ffff
    }

    fn add_one_u8(&mut self, x: u8) {
        *self = *self + x as u64;
    }

    fn sub_one_u8(&mut self, x: u8) {
        *self = *self - x as u64;
    }
}

impl Integer for i64 {
    open spec fn as_math(self) -> int {
        self as int
    }

    open spec fn min_val() -> int {
        -0x8000_0000_0000_0000
    }

    open spec fn max_val() -> int {
        0x7fff_ffff_ffff_ffff
    }

    fn add_one_u8(&mut self, x: u8) {
        *self = *self + x as i64;
    }

    fn sub_one_u8(&mut self, x: u8) {
        *self = *self - x as i64;
    }
}

} // verus!
