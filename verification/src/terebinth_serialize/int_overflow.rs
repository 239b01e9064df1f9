//! Integer arithmetic that must not overflow.

use vstd::prelude::*;

verus! {

/// An integer type, seen as the mathematical integers it holds.
pub trait IntValue: Sized {
    /// The integer that the value stands for.
    spec fn int_value(self) -> int;

    /// Whether the type holds the integer `v`.
    spec fn fits(v: int) -> bool;
}

/// Addition that never wraps: the sum must fit in the type.
pub trait DebugStrictAdd: IntValue {
    fn debug_strict_add(self, other: Self) -> (r: Self)
        requires
            Self::fits(self.int_value() + other.int_value()),
        ensures
            r.int_value() == self.int_value() + other.int_value(),
    ;
}

/// Subtraction that never wraps: the difference must fit in the type.
pub trait DebugStrictSub: IntValue {
    fn debug_strict_sub(self, other: Self) -> (r: Self)
        requires
            Self::fits(self.int_value() - other.int_value()),
        ensures
            r.int_value() == self.int_value() - other.int_value(),
    ;
}

impl IntValue for u8 {
    open spec fn int_value(self) -> int {
        self as int
    }

    open spec fn fits(v: int) -> bool {
        u8::MIN <= v <= u8::MAX
    }
}

impl DebugStrictAdd for u8 {
    fn debug_strict_add(self, other: Self) -> (r: Self) {
        self + other
    }
}

impl DebugStrictSub for u8 {
    fn debug_strict_sub(self, other: Self) -> (r: Self) {
        self - other
    }
}

impl IntValue for u16 {
    open spec fn int_value(self) -> int {
        self as int
    }

    open spec fn fits(v: int) -> bool {
        u16::MIN <= v <= u16::MAX
    }
}

impl DebugStrictAdd for u16 {
    fn debug_strict_add(self, other: Self) -> (r: Self) {
        self + other
    }
}

impl DebugStrictSub for u16 {
    fn debug_strict_sub(self, other: Self) -> (r: Self) {
        self - other
    }
}

impl IntValue for u32 {
    open spec fn int_value(self) -> int {
        self as int
    }

    open spec fn fits(v: int) -> bool {
        u32::MIN <= v <= u32::MAX
    }
}

impl DebugStrictAdd for u32 {
    fn debug_strict_add(self, other: Self) -> (r: Self) {
        self + other
    }
}

impl DebugStrictSub for u32 {
    fn debug_strict_sub(self, other: Self) -> (r: Self) {
        self - other
    }
}

impl IntValue for u64 {
    open spec fn int_value(self) -> int {
        self as int
    }

    open spec fn fits(v: int) -> bool {
        u64::MIN <= v <= u64::MAX
    }
}

impl DebugStrictAdd for u64 {
    fn debug_strict_add(self, other: Self) -> (r: Self) {
        self + other
    }
}

impl DebugStrictSub for u64 {
    fn debug_strict_sub(self, other: Self) -> (r: Self) {
        self - other
    }
}

impl IntValue for u128 {
    open spec fn int_value(self) -> int {
        self as int
    }

    open spec fn fits(v: int) -> bool {
        u128::MIN <= v <= u128::MAX
    }
}

impl DebugStrictAdd for u128 {
    fn debug_strict_add(self, other: Self) -> (r: Self) {
        self + other
    }
}

impl DebugStrictSub for u128 {
    fn debug_strict_sub(self, other: Self) -> (r: Self) {
        self - other
    }
}

impl IntValue for usize {
    open spec fn int_value(self) -> int {
        self as int
    }

    open spec fn fits(v: int) -> bool {
        usize::MIN <= v <= usize::MAX
    }
}

impl DebugStrictAdd for usize {
    fn debug_strict_add(self, other: Self) -> (r: Self) {
        self + other
    }
}

impl DebugStrictSub for usize {
    fn debug_strict_sub(self, other: Self) -> (r: Self) {
        self - other
    }
}

impl IntValue for i8 {
    open spec fn int_value(self) -> int {
        self as int
    }

    open spec fn fits(v: int) -> bool {
        i8::MIN <= v <= i8::MAX
    }
}

impl DebugStrictAdd for i8 {
    fn debug_strict_add(self, other: Self) -> (r: Self) {
        self + other
    }
}

impl DebugStrictSub for i8 {
    fn debug_strict_sub(self, other: Self) -> (r: Self) {
        self - other
    }
}

impl IntValue for i16 {
    open spec fn int_value(self) -> int {
        self as int
    }

    open spec fn fits(v: int) -> bool {
        i16::MIN <= v <= i16::MAX
    }
}

impl DebugStrictAdd for i16 {
    fn debug_strict_add(self, other: Self) -> (r: Self) {
        self + other
    }
}

impl DebugStrictSub for i16 {
    fn debug_strict_sub(self, other: Self) -> (r: Self) {
        self - other
    }
}

impl IntValue for i32 {
    open spec fn int_value(self) -> int {
        self as int
    }

    open spec fn fits(v: int) -> bool {
        i32::MIN <= v <= i32::MAX
    }
}

impl DebugStrictAdd for i32 {
    fn debug_strict_add(self, other: Self) -> (r: Self) {
        self + other
    }
}

impl DebugStrictSub for i32 {
    fn debug_strict_sub(self, other: Self) -> (r: Self) {
        self - other
    }
}

impl IntValue for i64 {
    open spec fn int_value(self) -> int {
        self as int
    }

    open spec fn fits(v: int) -> bool {
        i64::MIN <= v <= i64::MAX
    }
}

impl DebugStrictAdd for i64 {
    fn debug_strict_add(self, other: Self) -> (r: Self) {
        self + other
    }
}

impl DebugStrictSub for i64 {
    fn debug_strict_sub(self, other: Self) -> (r: Self) {
        self - other
    }
}

impl IntValue for i128 {
    open spec fn int_value(self) -> int {
        self as int
    }

    open spec fn fits(v: int) -> bool {
        i128::MIN <= v <= i128::MAX
    }
}

impl DebugStrictAdd for i128 {
    fn debug_strict_add(self, other: Self) -> (r: Self) {
        self + other
    }
}

impl DebugStrictSub for i128 {
    fn debug_strict_sub(self, other: Self) -> (r: Self) {
        self - other
    }
}

impl IntValue for isize {
    open spec fn int_value(self) -> int {
        self as int
    }

    open spec fn fits(v: int) -> bool {
        isize::MIN <= v <= isize::MAX
    }
}

impl DebugStrictAdd for isize {
    fn debug_strict_add(self, other: Self) -> (r: Self) {
        self + other
    }
}

impl DebugStrictSub for isize {
    fn debug_strict_sub(self, other: Self) -> (r: Self) {
        self - other
    }
}

} // verus!
