//! The unsigned machine integers behind one interface.
//!
//! [`UnsignedInt`] names the operations that the generic arithmetic needs and
//! says of each what it does to the numbers that the values stand for. It is
//! implemented for `u8`, `u16`, `u32`, `u64`, `u128` and `usize`.

use vstd::prelude::*;
use vstd::arithmetic::power2::pow2;
use vstd::layout::size_of;
use crate::bits::{
    bit_and, bit_xor, lemma_mod_pow2_twice, lemma_pow2_values, lemma_shl_word,
    lemma_wrapped_difference, lemma_wrapped_sum, shift_left, shift_right,
};

verus! {

/// An unsigned machine integer, with the operations that the arithmetic of
/// this crate is built from.
///
/// A value stands for the natural number `as_nat()`, which lies below
/// `2^bit_width()`. Every operation says what it does to those numbers.
pub trait UnsignedInt: Copy + Sized {
    /// The natural number that the value stands for.
    spec fn as_nat(self) -> nat;

    /// The width of the type in bits.
    spec fn bit_width() -> nat;

    /// The width is at least 8 and at most 128 bits.
    proof fn lemma_bit_width()
        ensures
            8 <= Self::bit_width() <= 128,
    ;

    /// The width is the size of the type in memory, eight bits to the byte.
    proof fn lemma_size_of()
        ensures
            8 * size_of::<Self>() == Self::bit_width(),
    ;

    /// Every value lies below `2^bit_width()`.
    proof fn lemma_as_nat_bound(x: Self)
        ensures
            x.as_nat() < pow2(Self::bit_width()),
    ;

    /// Two values that stand for the same number are the same value.
    proof fn lemma_as_nat_injective(x: Self, y: Self)
        requires
            x.as_nat() == y.as_nat(),
        ensures
            x == y,
    ;

    /// The value 0.
    fn zero() -> (r: Self)
        ensures
            r.as_nat() == 0,
    ;

    /// The value 1.
    fn one() -> (r: Self)
        ensures
            r.as_nat() == 1,
    ;

    /// The largest value, with every bit set.
    fn max_value() -> (r: Self)
        ensures
            r.as_nat() == pow2(Self::bit_width()) - 1,
    ;

    /// The value as a 128-bit integer.
    fn to_u128(self) -> (r: u128)
        ensures
            r == self.as_nat(),
    ;

    /// The value that stands for `x`, if the type has one.
    fn from_u128(x: u128) -> (r: Option<Self>)
        ensures
            r.is_some() <==> x < pow2(Self::bit_width()),
            r.is_some() ==> r.unwrap().as_nat() == x,
    ;

    /// Whether the two values are equal.
    fn equals(self, rhs: Self) -> (r: bool)
        ensures
            r == (self.as_nat() == rhs.as_nat()),
    ;

    /// Whether `self` is smaller than `rhs`.
    fn less_than(self, rhs: Self) -> (r: bool)
        ensures
            r == (self.as_nat() < rhs.as_nat()),
    ;

    /// The sum, where it fits.
    fn add(self, rhs: Self) -> (r: Self)
        requires
            self.as_nat() + rhs.as_nat() < pow2(Self::bit_width()),
        ensures
            r.as_nat() == self.as_nat() + rhs.as_nat(),
    ;

    /// The difference, where it is not negative.
    fn sub(self, rhs: Self) -> (r: Self)
        requires
            rhs.as_nat() <= self.as_nat(),
        ensures
            r.as_nat() == self.as_nat() - rhs.as_nat(),
    ;

    /// The quotient of the division by a positive `rhs`.
    fn div(self, rhs: Self) -> (r: Self)
        requires
            rhs.as_nat() > 0,
        ensures
            r.as_nat() == self.as_nat() / rhs.as_nat(),
    ;

    /// The remainder of the division by a positive `rhs`.
    fn rem(self, rhs: Self) -> (r: Self)
        requires
            rhs.as_nat() > 0,
        ensures
            r.as_nat() == self.as_nat() % rhs.as_nat(),
    ;

    /// The sum modulo `2^bit_width()`.
    fn wrapping_add(self, rhs: Self) -> (r: Self)
        ensures
            r.as_nat() == (self.as_nat() + rhs.as_nat()) % pow2(Self::bit_width()),
    ;

    /// The difference modulo `2^bit_width()`.
    fn wrapping_sub(self, rhs: Self) -> (r: Self)
        ensures
            r.as_nat() == (self.as_nat() - rhs.as_nat()) % (pow2(Self::bit_width()) as int),
    ;

    /// The product modulo `2^bit_width()`.
    fn wrapping_mul(self, rhs: Self) -> (r: Self)
        ensures
            r.as_nat() == (self.as_nat() * rhs.as_nat()) % pow2(Self::bit_width()),
    ;

    /// The value shifted left by `n` bits; bits that leave the word are lost.
    fn shl(self, n: usize) -> (r: Self)
        requires
            n < Self::bit_width(),
        ensures
            r.as_nat() == shift_left(self.as_nat(), n as nat, Self::bit_width()),
    ;

    /// The value shifted right by `n` bits.
    fn shr(self, n: usize) -> (r: Self)
        requires
            n < Self::bit_width(),
        ensures
            r.as_nat() == shift_right(self.as_nat(), n as nat),
    ;

    /// Bitwise conjunction.
    fn bitand(self, rhs: Self) -> (r: Self)
        ensures
            r.as_nat() == bit_and(self.as_nat(), rhs.as_nat()),
    ;

    /// Bitwise exclusive-or.
    fn bitxor(self, rhs: Self) -> (r: Self)
        ensures
            r.as_nat() == bit_xor(self.as_nat(), rhs.as_nat()),
    ;
}

/// A left shift of a 32-bit word multiplies by a power of two modulo `2^32`.
pub proof fn lemma_u32_shl(x: u32, n: u32)
    requires
        n < 32,
    ensures
        (x << n) as nat == shift_left(x as nat, n as nat, 32),
{
    let wide = x as u128;
    let s = n as u128;
    lemma_shl_word(wide, n as nat);
    assert((x << n) as u128 == (wide << s) % 0x1_0000_0000u128) by (bit_vector)
        requires
            wide == x as u128,
            s == n as u128,
            n < 32,
    ;
    lemma_pow2_values();
    lemma_mod_pow2_twice(x as nat * pow2(n as nat), 32, 128);
}

/// A left shift of a 64-bit word multiplies by a power of two modulo `2^64`.
pub proof fn lemma_u64_shl(x: u64, n: u64)
    requires
        n < 64,
    ensures
        (x << n) as nat == shift_left(x as nat, n as nat, 64),
{
    let wide = x as u128;
    let s = n as u128;
    lemma_shl_word(wide, n as nat);
    assert((x << n) as u128 == (wide << s) % 0x1_0000_0000_0000_0000u128) by (bit_vector)
        requires
            wide == x as u128,
            s == n as u128,
            n < 64,
    ;
    lemma_pow2_values();
    lemma_mod_pow2_twice(x as nat * pow2(n as nat), 64, 128);
}

impl UnsignedInt for u8 {
    open spec fn as_nat(self) -> nat {
        self as nat
    }

    open spec fn bit_width() -> nat {
        8
    }

    proof fn lemma_bit_width() {
    }

    proof fn lemma_size_of() {
        broadcast use vstd::layout::layout_of_primitives;

    }

    proof fn lemma_as_nat_bound(x: Self) {
        lemma_pow2_values();
    }

    proof fn lemma_as_nat_injective(x: Self, y: Self) {
    }

    fn zero() -> (r: Self) {
        0
    }

    fn one() -> (r: Self) {
        1
    }

    fn max_value() -> (r: Self) {
        proof {
            lemma_pow2_values();
        }
        u8::MAX
    }

    fn to_u128(self) -> (r: u128) {
        self as u128
    }

    fn from_u128(x: u128) -> (r: Option<Self>) {
        proof {
            lemma_pow2_values();
        }
        if x <= u8::MAX as u128 {
            Some(x as u8)
        } else {
            None
        }
    }

    fn equals(self, rhs: Self) -> (r: bool) {
        self == rhs
    }

    fn less_than(self, rhs: Self) -> (r: bool) {
        self < rhs
    }

    fn add(self, rhs: Self) -> (r: Self) {
        proof {
            lemma_pow2_values();
        }
        self + rhs
    }

    fn sub(self, rhs: Self) -> (r: Self) {
        self - rhs
    }

    fn div(self, rhs: Self) -> (r: Self) {
        self / rhs
    }

    fn rem(self, rhs: Self) -> (r: Self) {
        self % rhs
    }

    fn wrapping_add(self, rhs: Self) -> (r: Self) {
        proof {
            lemma_pow2_values();
            lemma_wrapped_sum(self as nat, rhs as nat, pow2(8));
        }
        self.wrapping_add(rhs)
    }

    fn wrapping_sub(self, rhs: Self) -> (r: Self) {
        proof {
            lemma_pow2_values();
            lemma_wrapped_difference(self as nat, rhs as nat, pow2(8));
        }
        self.wrapping_sub(rhs)
    }

    fn wrapping_mul(self, rhs: Self) -> (r: Self) {
        proof {
            lemma_pow2_values();
        }
        self.wrapping_mul(rhs)
    }

    fn shl(self, n: usize) -> (r: Self) {
        proof {
            lemma_shl_word(self as u128, n as nat);
            let x = self as u128;
            let s = n as u128;
            let m = n as u8;
            assert((self << m) as u128 == (x << s) % 0x100u128) by (bit_vector)
                requires
                    x == self as u128,
                    s == m as u128,
                    m < 8,
            ;
            lemma_pow2_values();
            lemma_mod_pow2_twice(self as nat * pow2(n as nat), 8, 128);
        }
        self << n
    }

    fn shr(self, n: usize) -> (r: Self) {
        proof {
            vstd::bits::lemma_u8_shr_is_div(self, n as u8);
        }
        self >> n
    }

    fn bitand(self, rhs: Self) -> (r: Self) {
        self & rhs
    }

    fn bitxor(self, rhs: Self) -> (r: Self) {
        self ^ rhs
    }
}

impl UnsignedInt for u16 {
    open spec fn as_nat(self) -> nat {
        self as nat
    }

    open spec fn bit_width() -> nat {
        16
    }

    proof fn lemma_bit_width() {
    }

    proof fn lemma_size_of() {
        broadcast use vstd::layout::layout_of_primitives;

    }

    proof fn lemma_as_nat_bound(x: Self) {
        lemma_pow2_values();
    }

    proof fn lemma_as_nat_injective(x: Self, y: Self) {
    }

    fn zero() -> (r: Self) {
        0
    }

    fn one() -> (r: Self) {
        1
    }

    fn max_value() -> (r: Self) {
        proof {
            lemma_pow2_values();
        }
        u16::MAX
    }

    fn to_u128(self) -> (r: u128) {
        self as u128
    }

    fn from_u128(x: u128) -> (r: Option<Self>) {
        proof {
            lemma_pow2_values();
        }
        if x <= u16::MAX as u128 {
            Some(x as u16)
        } else {
            None
        }
    }

    fn equals(self, rhs: Self) -> (r: bool) {
        self == rhs
    }

    fn less_than(self, rhs: Self) -> (r: bool) {
        self < rhs
    }

    fn add(self, rhs: Self) -> (r: Self) {
        proof {
            lemma_pow2_values();
        }
        self + rhs
    }

    fn sub(self, rhs: Self) -> (r: Self) {
        self - rhs
    }

    fn div(self, rhs: Self) -> (r: Self) {
        self / rhs
    }

    fn rem(self, rhs: Self) -> (r: Self) {
        self % rhs
    }

    fn wrapping_add(self, rhs: Self) -> (r: Self) {
        proof {
            lemma_pow2_values();
            lemma_wrapped_sum(self as nat, rhs as nat, pow2(16));
        }
        self.wrapping_add(rhs)
    }

    fn wrapping_sub(self, rhs: Self) -> (r: Self) {
        proof {
            lemma_pow2_values();
            lemma_wrapped_difference(self as nat, rhs as nat, pow2(16));
        }
        self.wrapping_sub(rhs)
    }

    fn wrapping_mul(self, rhs: Self) -> (r: Self) {
        proof {
            lemma_pow2_values();
        }
        self.wrapping_mul(rhs)
    }

    fn shl(self, n: usize) -> (r: Self) {
        proof {
            lemma_shl_word(self as u128, n as nat);
            let x = self as u128;
            let s = n as u128;
            let m = n as u16;
            assert((self << m) as u128 == (x << s) % 0x1_0000u128) by (bit_vector)
                requires
                    x == self as u128,
                    s == m as u128,
                    m < 16,
            ;
            lemma_pow2_values();
            lemma_mod_pow2_twice(self as nat * pow2(n as nat), 16, 128);
        }
        self << n
    }

    fn shr(self, n: usize) -> (r: Self) {
        proof {
            vstd::bits::lemma_u16_shr_is_div(self, n as u16);
        }
        self >> n
    }

    fn bitand(self, rhs: Self) -> (r: Self) {
        self & rhs
    }

    fn bitxor(self, rhs: Self) -> (r: Self) {
        self ^ rhs
    }
}

impl UnsignedInt for u32 {
    open spec fn as_nat(self) -> nat {
        self as nat
    }

    open spec fn bit_width() -> nat {
        32
    }

    proof fn lemma_bit_width() {
    }

    proof fn lemma_size_of() {
        broadcast use vstd::layout::layout_of_primitives;

    }

    proof fn lemma_as_nat_bound(x: Self) {
        lemma_pow2_values();
    }

    proof fn lemma_as_nat_injective(x: Self, y: Self) {
    }

    fn zero() -> (r: Self) {
        0
    }

    fn one() -> (r: Self) {
        1
    }

    fn max_value() -> (r: Self) {
        proof {
            lemma_pow2_values();
        }
        u32::MAX
    }

    fn to_u128(self) -> (r: u128) {
        self as u128
    }

    fn from_u128(x: u128) -> (r: Option<Self>) {
        proof {
            lemma_pow2_values();
        }
        if x <= u32::MAX as u128 {
            Some(x as u32)
        } else {
            None
        }
    }

    fn equals(self, rhs: Self) -> (r: bool) {
        self == rhs
    }

    fn less_than(self, rhs: Self) -> (r: bool) {
        self < rhs
    }

    fn add(self, rhs: Self) -> (r: Self) {
        proof {
            lemma_pow2_values();
        }
        self + rhs
    }

    fn sub(self, rhs: Self) -> (r: Self) {
        self - rhs
    }

    fn div(self, rhs: Self) -> (r: Self) {
        self / rhs
    }

    fn rem(self, rhs: Self) -> (r: Self) {
        self % rhs
    }

    fn wrapping_add(self, rhs: Self) -> (r: Self) {
        proof {
            lemma_pow2_values();
            lemma_wrapped_sum(self as nat, rhs as nat, pow2(32));
        }
        self.wrapping_add(rhs)
    }

    fn wrapping_sub(self, rhs: Self) -> (r: Self) {
        proof {
            lemma_pow2_values();
            lemma_wrapped_difference(self as nat, rhs as nat, pow2(32));
        }
        self.wrapping_sub(rhs)
    }

    fn wrapping_mul(self, rhs: Self) -> (r: Self) {
        proof {
            lemma_pow2_values();
        }
        self.wrapping_mul(rhs)
    }

    fn shl(self, n: usize) -> (r: Self) {
        proof {
            lemma_u32_shl(self, n as u32);
        }
        self << n
    }

    fn shr(self, n: usize) -> (r: Self) {
        proof {
            vstd::bits::lemma_u32_shr_is_div(self, n as u32);
        }
        self >> n
    }

    fn bitand(self, rhs: Self) -> (r: Self) {
        self & rhs
    }

    fn bitxor(self, rhs: Self) -> (r: Self) {
        self ^ rhs
    }
}

impl UnsignedInt for u64 {
    open spec fn as_nat(self) -> nat {
        self as nat
    }

    open spec fn bit_width() -> nat {
        64
    }

    proof fn lemma_bit_width() {
    }

    proof fn lemma_size_of() {
        broadcast use vstd::layout::layout_of_primitives;

    }

    proof fn lemma_as_nat_bound(x: Self) {
        lemma_pow2_values();
    }

    proof fn lemma_as_nat_injective(x: Self, y: Self) {
    }

    fn zero() -> (r: Self) {
        0
    }

    fn one() -> (r: Self) {
        1
    }

    fn max_value() -> (r: Self) {
        proof {
            lemma_pow2_values();
        }
        u64::MAX
    }

    fn to_u128(self) -> (r: u128) {
        self as u128
    }

    fn from_u128(x: u128) -> (r: Option<Self>) {
        proof {
            lemma_pow2_values();
        }
        if x <= u64::MAX as u128 {
            Some(x as u64)
        } else {
            None
        }
    }

    fn equals(self, rhs: Self) -> (r: bool) {
        self == rhs
    }

    fn less_than(self, rhs: Self) -> (r: bool) {
        self < rhs
    }

    fn add(self, rhs: Self) -> (r: Self) {
        proof {
            lemma_pow2_values();
        }
        self + rhs
    }

    fn sub(self, rhs: Self) -> (r: Self) {
        self - rhs
    }

    fn div(self, rhs: Self) -> (r: Self) {
        self / rhs
    }

    fn rem(self, rhs: Self) -> (r: Self) {
        self % rhs
    }

    fn wrapping_add(self, rhs: Self) -> (r: Self) {
        proof {
            lemma_pow2_values();
            lemma_wrapped_sum(self as nat, rhs as nat, pow2(64));
        }
        self.wrapping_add(rhs)
    }

    fn wrapping_sub(self, rhs: Self) -> (r: Self) {
        proof {
            lemma_pow2_values();
            lemma_wrapped_difference(self as nat, rhs as nat, pow2(64));
        }
        self.wrapping_sub(rhs)
    }

    fn wrapping_mul(self, rhs: Self) -> (r: Self) {
        proof {
            lemma_pow2_values();
        }
        self.wrapping_mul(rhs)
    }

    fn shl(self, n: usize) -> (r: Self) {
        proof {
            lemma_u64_shl(self, n as u64);
        }
        self << n
    }

    fn shr(self, n: usize) -> (r: Self) {
        proof {
            vstd::bits::lemma_u64_shr_is_div(self, n as u64);
        }
        self >> n
    }

    fn bitand(self, rhs: Self) -> (r: Self) {
        self & rhs
    }

    fn bitxor(self, rhs: Self) -> (r: Self) {
        self ^ rhs
    }
}

impl UnsignedInt for u128 {
    open spec fn as_nat(self) -> nat {
        self as nat
    }

    open spec fn bit_width() -> nat {
        128
    }

    proof fn lemma_bit_width() {
    }

    proof fn lemma_size_of() {
        broadcast use vstd::layout::layout_of_primitives;

    }

    proof fn lemma_as_nat_bound(x: Self) {
        lemma_pow2_values();
    }

    proof fn lemma_as_nat_injective(x: Self, y: Self) {
    }

    fn zero() -> (r: Self) {
        0
    }

    fn one() -> (r: Self) {
        1
    }

    fn max_value() -> (r: Self) {
        proof {
            lemma_pow2_values();
        }
        u128::MAX
    }

    fn to_u128(self) -> (r: u128) {
        self
    }

    fn from_u128(x: u128) -> (r: Option<Self>) {
        proof {
            lemma_pow2_values();
        }
        Some(x)
    }

    fn equals(self, rhs: Self) -> (r: bool) {
        self == rhs
    }

    fn less_than(self, rhs: Self) -> (r: bool) {
        self < rhs
    }

    fn add(self, rhs: Self) -> (r: Self) {
        proof {
            lemma_pow2_values();
        }
        self + rhs
    }

    fn sub(self, rhs: Self) -> (r: Self) {
        self - rhs
    }

    fn div(self, rhs: Self) -> (r: Self) {
        self / rhs
    }

    fn rem(self, rhs: Self) -> (r: Self) {
        self % rhs
    }

    fn wrapping_add(self, rhs: Self) -> (r: Self) {
        proof {
            lemma_pow2_values();
            lemma_wrapped_sum(self as nat, rhs as nat, pow2(128));
        }
        self.wrapping_add(rhs)
    }

    fn wrapping_sub(self, rhs: Self) -> (r: Self) {
        proof {
            lemma_pow2_values();
            lemma_wrapped_difference(self as nat, rhs as nat, pow2(128));
        }
        self.wrapping_sub(rhs)
    }

    fn wrapping_mul(self, rhs: Self) -> (r: Self) {
        proof {
            lemma_pow2_values();
        }
        self.wrapping_mul(rhs)
    }

    fn shl(self, n: usize) -> (r: Self) {
        proof {
            lemma_shl_word(self, n as nat);
        }
        self << n
    }

    fn shr(self, n: usize) -> (r: Self) {
        proof {
            vstd::bits::lemma_u128_shr_is_div(self, n as u128);
        }
        self >> n
    }

    fn bitand(self, rhs: Self) -> (r: Self) {
        self & rhs
    }

    fn bitxor(self, rhs: Self) -> (r: Self) {
        self ^ rhs
    }
}

impl UnsignedInt for usize {
    open spec fn as_nat(self) -> nat {
        self as nat
    }

    open spec fn bit_width() -> nat {
        usize::BITS as nat
    }

    proof fn lemma_bit_width() {
    }

    proof fn lemma_size_of() {
        broadcast use vstd::layout::layout_of_primitives;

    }

    proof fn lemma_as_nat_bound(x: Self) {
        lemma_pow2_values();
    }

    proof fn lemma_as_nat_injective(x: Self, y: Self) {
    }

    fn zero() -> (r: Self) {
        0
    }

    fn one() -> (r: Self) {
        1
    }

    fn max_value() -> (r: Self) {
        proof {
            lemma_pow2_values();
        }
        usize::MAX
    }

    fn to_u128(self) -> (r: u128) {
        self as u128
    }

    fn from_u128(x: u128) -> (r: Option<Self>) {
        proof {
            lemma_pow2_values();
        }
        if x <= usize::MAX as u128 {
            Some(x as usize)
        } else {
            None
        }
    }

    fn equals(self, rhs: Self) -> (r: bool) {
        self == rhs
    }

    fn less_than(self, rhs: Self) -> (r: bool) {
        self < rhs
    }

    fn add(self, rhs: Self) -> (r: Self) {
        proof {
            lemma_pow2_values();
        }
        self + rhs
    }

    fn sub(self, rhs: Self) -> (r: Self) {
        self - rhs
    }

    fn div(self, rhs: Self) -> (r: Self) {
        self / rhs
    }

    fn rem(self, rhs: Self) -> (r: Self) {
        self % rhs
    }

    fn wrapping_add(self, rhs: Self) -> (r: Self) {
        proof {
            lemma_pow2_values();
            lemma_wrapped_sum(self as nat, rhs as nat, pow2(usize::BITS as nat));
        }
        self.wrapping_add(rhs)
    }

    fn wrapping_sub(self, rhs: Self) -> (r: Self) {
        proof {
            lemma_pow2_values();
            lemma_wrapped_difference(self as nat, rhs as nat, pow2(usize::BITS as nat));
        }
        self.wrapping_sub(rhs)
    }

    fn wrapping_mul(self, rhs: Self) -> (r: Self) {
        proof {
            lemma_pow2_values();
        }
        self.wrapping_mul(rhs)
    }

    fn shl(self, n: usize) -> (r: Self) {
        proof {
            lemma_pow2_values();
            if usize::BITS == 32 {
                let y = self as u32;
                let m = n as u32;
                assert(self << n == y << m);
                lemma_u32_shl(y, m);
            } else {
                let y = self as u64;
                let m = n as u64;
                assert(self << n == y << m);
                lemma_u64_shl(y, m);
            }
        }
        self << n
    }

    fn shr(self, n: usize) -> (r: Self) {
        proof {
            vstd::bits::lemma_usize_shr_is_div(self, n);
        }
        self >> n
    }

    fn bitand(self, rhs: Self) -> (r: Self) {
        self & rhs
    }

    fn bitxor(self, rhs: Self) -> (r: Self) {
        self ^ rhs
    }
}

} // verus!
