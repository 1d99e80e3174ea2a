//! The signed and unsigned machine integers behind one interface.
//!
//! [`MachineInt`] names what the sign-aware arithmetic needs from an integer
//! type: its range, a test of order, a negation that wraps, and the
//! conversion to the unsigned type of the same width. It is implemented for
//! the six signed and the six unsigned integer types.

use vstd::prelude::*;
use vstd::arithmetic::power2::pow2;
use crate::bits::lemma_pow2_values;
use crate::uint::UnsignedInt;

verus! {

/// The smallest number that an integer type of `width` bits holds.
pub open spec fn int_min(signed: bool, width: nat) -> int {
    if signed {
        -(pow2((width - 1) as nat) as int)
    } else {
        0
    }
}

/// The largest number that an integer type of `width` bits holds.
pub open spec fn int_max(signed: bool, width: nat) -> int {
    if signed {
        pow2((width - 1) as nat) - 1
    } else {
        pow2(width) - 1
    }
}

/// The number in the range of the type that is congruent to `x` modulo
/// `2^width`, for an `x` that lies less than `2^width` outside the range.
pub open spec fn wrap_into_range(x: int, signed: bool, width: nat) -> int {
    if x < int_min(signed, width) {
        x + pow2(width)
    } else if x > int_max(signed, width) {
        x - pow2(width)
    } else {
        x
    }
}

/// A machine integer, signed or unsigned.
///
/// A value stands for the integer `as_int()`, which lies between
/// `int_min` and `int_max` for the sign of the type and the width of its
/// unsigned companion.
pub trait MachineInt: Copy + Sized {
    /// The unsigned type of the same width.
    type UnsignedType: UnsignedInt;

    /// The integer that the value stands for.
    spec fn as_int(self) -> int;

    /// Whether the type holds negative numbers.
    spec fn signed() -> bool;

    /// Every value lies in the range of the type.
    proof fn lemma_as_int_bound(x: Self)
        ensures
            int_min(Self::signed(), Self::UnsignedType::bit_width()) <= x.as_int() <= int_max(
                Self::signed(),
                Self::UnsignedType::bit_width(),
            ),
    ;

    /// The value 0.
    fn zero() -> (r: Self)
        ensures
            r.as_int() == 0,
    ;

    /// The value 1.
    fn one() -> (r: Self)
        ensures
            r.as_int() == 1,
    ;

    /// Whether `self` is smaller than `rhs`.
    fn less_than(self, rhs: Self) -> (r: bool)
        ensures
            r == (self.as_int() < rhs.as_int()),
    ;

    /// The sum, where it lies in the range of the type.
    fn add(self, rhs: Self) -> (r: Self)
        requires
            int_min(Self::signed(), Self::UnsignedType::bit_width()) <= self.as_int()
                + rhs.as_int() <= int_max(Self::signed(), Self::UnsignedType::bit_width()),
        ensures
            r.as_int() == self.as_int() + rhs.as_int(),
    ;

    /// The negation, wrapped into the range of the type: the smallest value
    /// of a signed type is its own negation.
    fn wrapping_neg(self) -> (r: Self)
        ensures
            r.as_int() == wrap_into_range(
                -self.as_int(),
                Self::signed(),
                Self::UnsignedType::bit_width(),
            ),
    ;

    /// The same number in the unsigned type, unless it is negative.
    fn to_unsigned(self) -> (r: Option<Self::UnsignedType>)
        ensures
            r.is_some() <==> self.as_int() >= 0,
            r.is_some() ==> r.unwrap().as_nat() == self.as_int(),
    ;
}

impl MachineInt for i8 {
    type UnsignedType = u8;

    open spec fn as_int(self) -> int {
        self as int
    }

    open spec fn signed() -> bool {
        true
    }

    proof fn lemma_as_int_bound(x: Self) {
        lemma_pow2_values();
    }

    fn zero() -> (r: Self) {
        0
    }

    fn one() -> (r: Self) {
        1
    }

    fn less_than(self, rhs: Self) -> (r: bool) {
        self < rhs
    }

    fn add(self, rhs: Self) -> (r: Self) {
        proof {
            lemma_pow2_values();
        }
        self + rhs
    }

    fn wrapping_neg(self) -> (r: Self) {
        proof {
            lemma_pow2_values();
        }
        if self == i8::MIN {
            self
        } else {
            -self
        }
    }

    fn to_unsigned(self) -> (r: Option<Self::UnsignedType>) {
        if self >= 0 {
            Some(self as u8)
        } else {
            None
        }
    }
}

impl MachineInt for i16 {
    type UnsignedType = u16;

    open spec fn as_int(self) -> int {
        self as int
    }

    open spec fn signed() -> bool {
        true
    }

    proof fn lemma_as_int_bound(x: Self) {
        lemma_pow2_values();
    }

    fn zero() -> (r: Self) {
        0
    }

    fn one() -> (r: Self) {
        1
    }

    fn less_than(self, rhs: Self) -> (r: bool) {
        self < rhs
    }

    fn add(self, rhs: Self) -> (r: Self) {
        proof {
            lemma_pow2_values();
        }
        self + rhs
    }

    fn wrapping_neg(self) -> (r: Self) {
        proof {
            lemma_pow2_values();
        }
        if self == i16::MIN {
            self
        } else {
            -self
        }
    }

    fn to_unsigned(self) -> (r: Option<Self::UnsignedType>) {
        if self >= 0 {
            Some(self as u16)
        } else {
            None
        }
    }
}

impl MachineInt for i32 {
    type UnsignedType = u32;

    open spec fn as_int(self) -> int {
        self as int
    }

    open spec fn signed() -> bool {
        true
    }

    proof fn lemma_as_int_bound(x: Self) {
        lemma_pow2_values();
    }

    fn zero() -> (r: Self) {
        0
    }

    fn one() -> (r: Self) {
        1
    }

    fn less_than(self, rhs: Self) -> (r: bool) {
        self < rhs
    }

    fn add(self, rhs: Self) -> (r: Self) {
        proof {
            lemma_pow2_values();
        }
        self + rhs
    }

    fn wrapping_neg(self) -> (r: Self) {
        proof {
            lemma_pow2_values();
        }
        if self == i32::MIN {
            self
        } else {
            -self
        }
    }

    fn to_unsigned(self) -> (r: Option<Self::UnsignedType>) {
        if self >= 0 {
            Some(self as u32)
        } else {
            None
        }
    }
}

impl MachineInt for i64 {
    type UnsignedType = u64;

    open spec fn as_int(self) -> int {
        self as int
    }

    open spec fn signed() -> bool {
        true
    }

    proof fn lemma_as_int_bound(x: Self) {
        lemma_pow2_values();
    }

    fn zero() -> (r: Self) {
        0
    }

    fn one() -> (r: Self) {
        1
    }

    fn less_than(self, rhs: Self) -> (r: bool) {
        self < rhs
    }

    fn add(self, rhs: Self) -> (r: Self) {
        proof {
            lemma_pow2_values();
        }
        self + rhs
    }

    fn wrapping_neg(self) -> (r: Self) {
        proof {
            lemma_pow2_values();
        }
        if self == i64::MIN {
            self
        } else {
            -self
        }
    }

    fn to_unsigned(self) -> (r: Option<Self::UnsignedType>) {
        if self >= 0 {
            Some(self as u64)
        } else {
            None
        }
    }
}

impl MachineInt for i128 {
    type UnsignedType = u128;

    open spec fn as_int(self) -> int {
        self as int
    }

    open spec fn signed() -> bool {
        true
    }

    proof fn lemma_as_int_bound(x: Self) {
        lemma_pow2_values();
    }

    fn zero() -> (r: Self) {
        0
    }

    fn one() -> (r: Self) {
        1
    }

    fn less_than(self, rhs: Self) -> (r: bool) {
        self < rhs
    }

    fn add(self, rhs: Self) -> (r: Self) {
        proof {
            lemma_pow2_values();
        }
        self + rhs
    }

    fn wrapping_neg(self) -> (r: Self) {
        proof {
            lemma_pow2_values();
        }
        if self == i128::MIN {
            self
        } else {
            -self
        }
    }

    fn to_unsigned(self) -> (r: Option<Self::UnsignedType>) {
        if self >= 0 {
            Some(self as u128)
        } else {
            None
        }
    }
}

impl MachineInt for isize {
    type UnsignedType = usize;

    open spec fn as_int(self) -> int {
        self as int
    }

    open spec fn signed() -> bool {
        true
    }

    proof fn lemma_as_int_bound(x: Self) {
        lemma_pow2_values();
    }

    fn zero() -> (r: Self) {
        0
    }

    fn one() -> (r: Self) {
        1
    }

    fn less_than(self, rhs: Self) -> (r: bool) {
        self < rhs
    }

    fn add(self, rhs: Self) -> (r: Self) {
        proof {
            lemma_pow2_values();
        }
        self + rhs
    }

    fn wrapping_neg(self) -> (r: Self) {
        proof {
            lemma_pow2_values();
        }
        if self == isize::MIN {
            self
        } else {
            -self
        }
    }

    fn to_unsigned(self) -> (r: Option<Self::UnsignedType>) {
        if self >= 0 {
            Some(self as usize)
        } else {
            None
        }
    }
}

impl MachineInt for u8 {
    type UnsignedType = u8;

    open spec fn as_int(self) -> int {
        self as int
    }

    open spec fn signed() -> bool {
        false
    }

    proof fn lemma_as_int_bound(x: Self) {
        lemma_pow2_values();
    }

    fn zero() -> (r: Self) {
        0
    }

    fn one() -> (r: Self) {
        1
    }

    fn less_than(self, rhs: Self) -> (r: bool) {
        self < rhs
    }

    fn add(self, rhs: Self) -> (r: Self) {
        proof {
            lemma_pow2_values();
        }
        self + rhs
    }

    fn wrapping_neg(self) -> (r: Self) {
        proof {
            lemma_pow2_values();
        }
        if self == 0 {
            0
        } else {
            u8::MAX - self + 1
        }
    }

    fn to_unsigned(self) -> (r: Option<Self::UnsignedType>) {
        Some(self)
    }
}

impl MachineInt for u16 {
    type UnsignedType = u16;

    open spec fn as_int(self) -> int {
        self as int
    }

    open spec fn signed() -> bool {
        false
    }

    proof fn lemma_as_int_bound(x: Self) {
        lemma_pow2_values();
    }

    fn zero() -> (r: Self) {
        0
    }

    fn one() -> (r: Self) {
        1
    }

    fn less_than(self, rhs: Self) -> (r: bool) {
        self < rhs
    }

    fn add(self, rhs: Self) -> (r: Self) {
        proof {
            lemma_pow2_values();
        }
        self + rhs
    }

    fn wrapping_neg(self) -> (r: Self) {
        proof {
            lemma_pow2_values();
        }
        if self == 0 {
            0
        } else {
            u16::MAX - self + 1
        }
    }

    fn to_unsigned(self) -> (r: Option<Self::UnsignedType>) {
        Some(self)
    }
}

impl MachineInt for u32 {
    type UnsignedType = u32;

    open spec fn as_int(self) -> int {
        self as int
    }

    open spec fn signed() -> bool {
        false
    }

    proof fn lemma_as_int_bound(x: Self) {
        lemma_pow2_values();
    }

    fn zero() -> (r: Self) {
        0
    }

    fn one() -> (r: Self) {
        1
    }

    fn less_than(self, rhs: Self) -> (r: bool) {
        self < rhs
    }

    fn add(self, rhs: Self) -> (r: Self) {
        proof {
            lemma_pow2_values();
        }
        self + rhs
    }

    fn wrapping_neg(self) -> (r: Self) {
        proof {
            lemma_pow2_values();
        }
        if self == 0 {
            0
        } else {
            u32::MAX - self + 1
        }
    }

    fn to_unsigned(self) -> (r: Option<Self::UnsignedType>) {
        Some(self)
    }
}

impl MachineInt for u64 {
    type UnsignedType = u64;

    open spec fn as_int(self) -> int {
        self as int
    }

    open spec fn signed() -> bool {
        false
    }

    proof fn lemma_as_int_bound(x: Self) {
        lemma_pow2_values();
    }

    fn zero() -> (r: Self) {
        0
    }

    fn one() -> (r: Self) {
        1
    }

    fn less_than(self, rhs: Self) -> (r: bool) {
        self < rhs
    }

    fn add(self, rhs: Self) -> (r: Self) {
        proof {
            lemma_pow2_values();
        }
        self + rhs
    }

    fn wrapping_neg(self) -> (r: Self) {
        proof {
            lemma_pow2_values();
        }
        if self == 0 {
            0
        } else {
            u64::MAX - self + 1
        }
    }

    fn to_unsigned(self) -> (r: Option<Self::UnsignedType>) {
        Some(self)
    }
}

impl MachineInt for u128 {
    type UnsignedType = u128;

    open spec fn as_int(self) -> int {
        self as int
    }

    open spec fn signed() -> bool {
        false
    }

    proof fn lemma_as_int_bound(x: Self) {
        lemma_pow2_values();
    }

    fn zero() -> (r: Self) {
        0
    }

    fn one() -> (r: Self) {
        1
    }

    fn less_than(self, rhs: Self) -> (r: bool) {
        self < rhs
    }

    fn add(self, rhs: Self) -> (r: Self) {
        proof {
            lemma_pow2_values();
        }
        self + rhs
    }

    fn wrapping_neg(self) -> (r: Self) {
        proof {
            lemma_pow2_values();
        }
        if self == 0 {
            0
        } else {
            u128::MAX - self + 1
        }
    }

    fn to_unsigned(self) -> (r: Option<Self::UnsignedType>) {
        Some(self)
    }
}

impl MachineInt for usize {
    type UnsignedType = usize;

    open spec fn as_int(self) -> int {
        self as int
    }

    open spec fn signed() -> bool {
        false
    }

    proof fn lemma_as_int_bound(x: Self) {
        lemma_pow2_values();
    }

    fn zero() -> (r: Self) {
        0
    }

    fn one() -> (r: Self) {
        1
    }

    fn less_than(self, rhs: Self) -> (r: bool) {
        self < rhs
    }

    fn add(self, rhs: Self) -> (r: Self) {
        proof {
            lemma_pow2_values();
        }
        self + rhs
    }

    fn wrapping_neg(self) -> (r: Self) {
        proof {
            lemma_pow2_values();
        }
        if self == 0 {
            0
        } else {
            usize::MAX - self + 1
        }
    }

    fn to_unsigned(self) -> (r: Option<Self::UnsignedType>) {
        Some(self)
    }
}

} // verus!
