//! Integer utilities, modular arithmetic and wrapping arithmetic over the
//! unsigned machine integers.

use vstd::prelude::*;
use vstd::arithmetic::power2::pow2;
use vstd::arithmetic::div_mod::{lemma_mul_mod_noop_right, lemma_small_mod};
use vstd::arithmetic::power::{lemma_pow0, lemma_pow1, pow};
use vstd::layout::size_of;
use crate::arith::{
    lemma_add_mod_by_wrapping, lemma_double_and_add_step, lemma_geom_series_step,
    lemma_mod_of_negation, lemma_reduce_once, lemma_square_and_multiply_step,
};
use crate::bits::{lemma_and_one, lemma_pow2_values, lemma_pow2_monotone};
use vstd::math::abs;
use crate::machine_int::MachineInt;
use crate::uint::UnsignedInt;

verus! {

/// The number of bits that a value of type `T` takes in memory.
pub fn size_of_bits<T>() -> (r: usize)
    requires
        8 * size_of::<T>() <= usize::MAX,
    ensures
        r == 8 * size_of::<T>(),
{
    core::mem::size_of::<T>() * 8
}

/// The sum `1 + r + r^2 + ... + r^(n - 1)` of the first `n` powers of `r`.
pub open spec fn geom_sum(r: int, n: nat) -> int
    decreases n,
{
    if n == 0 {
        0
    } else {
        geom_sum(r, (n - 1) as nat) + pow(r, (n - 1) as nat)
    }
}

/// The unsigned machine integers with a multiplication modulo `m`, which
/// each type does in the way that suits it best.
pub trait UIntTypes: UnsignedInt {
    /// The product of `a` and `b` modulo `m`, computed without overflow.
    fn mul_mod(a: Self, b: Self, m: Self) -> (r: Self)
        requires
            m.as_nat() > 0,
        ensures
            r.as_nat() == (a.as_nat() * b.as_nat()) % m.as_nat(),
    ;
}

/// Multiplies `a` and `b` modulo `m` by doubling and adding, within the
/// word type itself.
///
/// No intermediate value leaves the range of `T`, so this works for the
/// widest type too. The result is exact for every `a` and `b`.
pub fn mul_mod_generic<T>(a: T, b: T, m: T) -> (r: T) where T: UnsignedInt
    requires
        m.as_nat() > 0,
    ensures
        r.as_nat() == (a.as_nat() * b.as_nat()) % m.as_nat(),
{
    let mut a_work: T = a;
    let mut b_work: T = b;
    let mut result: T = T::zero();
    let ghost w = pow2(T::bit_width());
    let ghost mn = m.as_nat();
    proof {
        T::lemma_bit_width();
        T::lemma_as_nat_bound(a);
        T::lemma_as_nat_bound(b);
        T::lemma_as_nat_bound(m);
        lemma_pow2_values();
        lemma_pow2_monotone(8, T::bit_width());
        lemma_pow2_monotone(T::bit_width(), 128);
    }

    if !b_work.less_than(m) {
        if T::max_value().div(T::one().add(T::one())).less_than(m) {
            b_work = b_work.wrapping_sub(m);
            proof {
                lemma_small_mod((b.as_nat() - mn) as nat, w);
                lemma_reduce_once(b.as_nat(), mn);
            }
        } else {
            b_work = b_work.rem(m);
        }
    } else {
        proof {
            lemma_small_mod(b.as_nat(), mn);
        }
    }
    proof {
        lemma_mul_mod_noop_right(a.as_nat() as int, b.as_nat() as int, mn as int);
        assert(a.as_nat() * b_work.as_nat() == 0 + a.as_nat() * b_work.as_nat());
    }

    while !a_work.equals(T::zero())
        invariant
            mn == m.as_nat(),
            mn > 0,
            w == pow2(T::bit_width()),
            mn < w,
            w <= pow2(128),
            8 <= T::bit_width(),
            result.as_nat() < mn,
            b_work.as_nat() < mn,
            (result.as_nat() + a_work.as_nat() * b_work.as_nat()) % mn == (a.as_nat()
                * b.as_nat()) % mn,
        decreases a_work.as_nat(),
    {
        let ghost acc = result.as_nat();
        let ghost an = a_work.as_nat();
        let ghost bn = b_work.as_nat();
        proof {
            T::lemma_as_nat_bound(a_work);
            lemma_pow2_values();
            lemma_and_one(an);
            lemma_double_and_add_step(acc, an, bn, mn);
            lemma_add_mod_by_wrapping(acc, bn, mn, w);
            lemma_add_mod_by_wrapping(bn, bn, mn, w);
        }
        if !a_work.bitand(T::one()).equals(T::zero()) {
            if !b_work.less_than(m.sub(result)) {
                result = result.wrapping_sub(m);
            }
            result = result.wrapping_add(b_work);
            assert(result.as_nat() == (acc + (an % 2) * bn) % mn) by {
                assert(an % 2 == 1);
                assert((an % 2) * bn == bn) by (nonlinear_arith)
                    requires
                        an % 2 == 1,
                ;
            }
        } else {
            assert(result.as_nat() == (acc + (an % 2) * bn) % mn) by {
                assert(an % 2 == 0);
                assert((an % 2) * bn == 0) by (nonlinear_arith)
                    requires
                        an % 2 == 0,
                ;
                lemma_small_mod(acc, mn);
            }
        }
        a_work = a_work.shr(1);

        let mut temp_b = b_work;
        if !b_work.less_than(m.sub(temp_b)) {
            temp_b = temp_b.wrapping_sub(m);
        }
        b_work = b_work.wrapping_add(temp_b);
    }
    proof {
        assert(a_work.as_nat() * b_work.as_nat() == 0);
        lemma_small_mod(result.as_nat(), mn);
    }
    result
}

impl UIntTypes for u8 {
    /// Multiplies in `u16`, where the product fits.
    fn mul_mod(a: Self, b: Self, m: Self) -> (r: Self) {
        proof {
            assert((a as u16) * (b as u16) <= 0xff * 0xff) by (nonlinear_arith)
                requires
                    a <= 0xff,
                    b <= 0xff,
            ;
        }
        (((a as u16) * (b as u16)) % (m as u16)) as u8
    }
}

impl UIntTypes for u16 {
    /// Multiplies in `u32`, where the product fits.
    fn mul_mod(a: Self, b: Self, m: Self) -> (r: Self) {
        proof {
            assert((a as u32) * (b as u32) <= 0xffff * 0xffff) by (nonlinear_arith)
                requires
                    a <= 0xffff,
                    b <= 0xffff,
            ;
        }
        (((a as u32) * (b as u32)) % (m as u32)) as u16
    }
}

impl UIntTypes for u32 {
    /// Multiplies in `u64`, where the product fits.
    fn mul_mod(a: Self, b: Self, m: Self) -> (r: Self) {
        proof {
            assert((a as u64) * (b as u64) <= 0xffff_ffff * 0xffff_ffff) by (nonlinear_arith)
                requires
                    a <= 0xffff_ffff,
                    b <= 0xffff_ffff,
            ;
        }
        (((a as u64) * (b as u64)) % (m as u64)) as u32
    }
}

impl UIntTypes for u64 {
    /// Multiplies in `u128`, where the product fits.
    fn mul_mod(a: Self, b: Self, m: Self) -> (r: Self) {
        proof {
            assert((a as u128) * (b as u128) <= 0xffff_ffff_ffff_ffff * 0xffff_ffff_ffff_ffff)
                by (nonlinear_arith)
                requires
                    a <= 0xffff_ffff_ffff_ffff,
                    b <= 0xffff_ffff_ffff_ffff,
            ;
        }
        (((a as u128) * (b as u128)) % (m as u128)) as u64
    }
}

impl UIntTypes for u128 {
    /// No wider type is at hand: doubles and adds.
    fn mul_mod(a: Self, b: Self, m: Self) -> (r: Self) {
        mul_mod_generic::<Self>(a, b, m)
    }
}

impl UIntTypes for usize {
    /// Doubles and adds, whatever the width of the machine word.
    fn mul_mod(a: Self, b: Self, m: Self) -> (r: Self) {
        mul_mod_generic::<Self>(a, b, m)
    }
}

/// Multiplies `a` and `b` modulo `m`, in the way that suits the type best.
pub fn mul_mod<T>(a: T, b: T, m: T) -> (r: T) where T: UIntTypes
    requires
        m.as_nat() > 0,
    ensures
        r.as_nat() == (a.as_nat() * b.as_nat()) % m.as_nat(),
{
    T::mul_mod(a, b, m)
}

/// The machine integers, signed and unsigned, each with its companions of
/// the same width and with its absolute value as an unsigned number.
pub trait IntTypes: MachineInt {
    /// The signed type of the same width.
    type SignedType: MachineInt;

    /// The type of the same width and of the other sign.
    type OtherSignType: MachineInt;

    /// The absolute value of `a`, in the unsigned type of the same width.
    fn abs_as_unsigned(a: Self) -> (r: Self::UnsignedType)
        ensures
            r.as_nat() == abs(a.as_int()),
    ;
}

/// The absolute value of `a` in the unsigned type of the same width, for
/// signed and unsigned types alike.
///
/// The smallest value of a signed type has no negation in that type. Its
/// absolute value is found as one more than the negation of its successor.
pub fn abs_as_unsigned_generic<T>(a: T) -> (r: T::UnsignedType) where T: MachineInt
    ensures
        r.as_nat() == abs(a.as_int()),
{
    proof {
        T::lemma_as_int_bound(a);
        T::UnsignedType::lemma_bit_width();
        lemma_pow2_values();
        vstd::arithmetic::power2::lemma_pow2_unfold(T::UnsignedType::bit_width());
        lemma_pow2_monotone(7, (T::UnsignedType::bit_width() - 1) as nat);
    }
    if a.less_than(T::zero()) {
        // Negative input. Negate it.
        match a.wrapping_neg().to_unsigned() {
            Some(result) => result,
            None => {
                // The smallest value: its negation does not fit the signed type.
                let result_minus_1 = match a.add(T::one()).wrapping_neg().to_unsigned() {
                    Some(v) => v,
                    None => T::UnsignedType::zero(),
                };
                result_minus_1.add(T::UnsignedType::one())
            },
        }
    } else {
        // Input that is not negative. Return it as it is.
        match a.to_unsigned() {
            Some(result) => result,
            None => T::UnsignedType::zero(),
        }
    }
}

impl IntTypes for i8 {
    type SignedType = i8;

    type OtherSignType = u8;

    fn abs_as_unsigned(a: Self) -> (r: Self::UnsignedType) {
        abs_as_unsigned_generic::<Self>(a)
    }
}

impl IntTypes for i16 {
    type SignedType = i16;

    type OtherSignType = u16;

    fn abs_as_unsigned(a: Self) -> (r: Self::UnsignedType) {
        abs_as_unsigned_generic::<Self>(a)
    }
}

impl IntTypes for i32 {
    type SignedType = i32;

    type OtherSignType = u32;

    fn abs_as_unsigned(a: Self) -> (r: Self::UnsignedType) {
        abs_as_unsigned_generic::<Self>(a)
    }
}

impl IntTypes for i64 {
    type SignedType = i64;

    type OtherSignType = u64;

    fn abs_as_unsigned(a: Self) -> (r: Self::UnsignedType) {
        abs_as_unsigned_generic::<Self>(a)
    }
}

impl IntTypes for i128 {
    type SignedType = i128;

    type OtherSignType = u128;

    fn abs_as_unsigned(a: Self) -> (r: Self::UnsignedType) {
        abs_as_unsigned_generic::<Self>(a)
    }
}

impl IntTypes for isize {
    type SignedType = isize;

    type OtherSignType = usize;

    fn abs_as_unsigned(a: Self) -> (r: Self::UnsignedType) {
        abs_as_unsigned_generic::<Self>(a)
    }
}

impl IntTypes for u8 {
    type SignedType = i8;

    type OtherSignType = i8;

    fn abs_as_unsigned(a: Self) -> (r: Self::UnsignedType) {
        a
    }
}

impl IntTypes for u16 {
    type SignedType = i16;

    type OtherSignType = i16;

    fn abs_as_unsigned(a: Self) -> (r: Self::UnsignedType) {
        a
    }
}

impl IntTypes for u32 {
    type SignedType = i32;

    type OtherSignType = i32;

    fn abs_as_unsigned(a: Self) -> (r: Self::UnsignedType) {
        a
    }
}

impl IntTypes for u64 {
    type SignedType = i64;

    type OtherSignType = i64;

    fn abs_as_unsigned(a: Self) -> (r: Self::UnsignedType) {
        a
    }
}

impl IntTypes for u128 {
    type SignedType = i128;

    type OtherSignType = i128;

    fn abs_as_unsigned(a: Self) -> (r: Self::UnsignedType) {
        a
    }
}

impl IntTypes for usize {
    type SignedType = isize;

    type OtherSignType = isize;

    fn abs_as_unsigned(a: Self) -> (r: Self::UnsignedType) {
        a
    }
}

/// The absolute value of `a` in the unsigned type of the same width, in the
/// way that suits the type best.
pub fn abs_as_unsigned<T>(a: T) -> (r: T::UnsignedType) where T: IntTypes
    ensures
        r.as_nat() == abs(a.as_int()),
{
    T::abs_as_unsigned(a)
}

/// The value `x` in the unsigned type `D`, if `D` holds it.
fn checked_cast<S, D>(x: S) -> (r: Option<D>) where S: UnsignedInt, D: UnsignedInt
    ensures
        r.is_some() <==> x.as_nat() < pow2(D::bit_width()),
        r.is_some() ==> r.unwrap().as_nat() == x.as_nat(),
{
    D::from_u128(x.to_u128())
}

/// The remainder of `u` modulo `m`, where the two may differ in width: the
/// division is done in the type of `m` if `u` fits there, and else in the
/// type of `u`, which then holds `m`.
fn reduce<U, M>(u: U, m: M) -> (r: M) where U: UnsignedInt, M: UnsignedInt
    requires
        m.as_nat() > 0,
    ensures
        r.as_nat() == u.as_nat() % m.as_nat(),
{
    proof {
        U::lemma_as_nat_bound(u);
        M::lemma_as_nat_bound(m);
    }
    match checked_cast::<U, M>(u) {
        Some(u_m) => u_m.rem(m),
        None => {
            let m_u = checked_cast::<M, U>(m).unwrap();
            checked_cast::<U, M>(u.rem(m_u)).unwrap()
        },
    }
}

/// The remainder of `a` modulo `m`, in the type of the modulus.
///
/// `a` may be signed or unsigned and of any width. The result lies in
/// `[0, m)` also for a negative `a`: it is the number there that differs
/// from `a` by a multiple of `m`.
pub fn modulo<A, M>(a: A, m: M) -> (r: M) where A: IntTypes, M: UnsignedInt
    requires
        m.as_nat() > 0,
    ensures
        r.as_nat() == a.as_int() % (m.as_nat() as int),
        r.as_nat() < m.as_nat(),
        (a.as_int() - r.as_nat()) % (m.as_nat() as int) == 0,
{
    let a_abs = abs_as_unsigned(a);
    let rest = reduce(a_abs, m);
    proof {
        lemma_mod_of_negation(a_abs.as_nat(), m.as_nat());
        vstd::arithmetic::div_mod::lemma_mod_equivalence(
            a.as_int(),
            a.as_int() % (m.as_nat() as int),
            m.as_nat() as int,
        );
        vstd::arithmetic::div_mod::lemma_mod_twice(a.as_int(), m.as_nat() as int);
    }
    if a.less_than(A::zero()) && !rest.equals(M::zero()) {
        m.sub(rest)
    } else {
        rest
    }
}

/// The mask of the lowest `bit_width` bits: `2^bit_width - 1`, and the
/// all-ones value once `bit_width` reaches the width of `T`.
pub fn bit_width_mask<T>(bit_width: usize) -> (r: T) where T: UnsignedInt
    ensures
        bit_width < T::bit_width() ==> r.as_nat() == pow2(bit_width as nat) - 1,
        bit_width >= T::bit_width() ==> r.as_nat() == pow2(T::bit_width()) - 1,
{
    proof {
        T::lemma_size_of();
        T::lemma_bit_width();
    }
    if bit_width < size_of_bits::<T>() {
        proof {
            lemma_pow2_monotone(bit_width as nat, T::bit_width());
            vstd::arithmetic::power2::lemma_pow2_strictly_increases(
                bit_width as nat,
                T::bit_width(),
            );
            assert(1 * pow2(bit_width as nat) == pow2(bit_width as nat));
            lemma_small_mod(pow2(bit_width as nat), pow2(T::bit_width()));
        }
        T::one().shl(bit_width).sub(T::one())
    } else {
        T::max_value()
    }
}

/// Raises `base` to the power `n` modulo `2^bit_width()`, by squaring and
/// multiplying with wrapping multiplication. The power 0 gives 1.
pub fn wrapping_pow<T, N>(base: T, n: N) -> (r: T) where T: UnsignedInt, N: UnsignedInt
    ensures
        r.as_nat() == pow(base.as_nat() as int, n.as_nat()) % (pow2(T::bit_width()) as int),
{
    let mut result: T = T::one();
    let mut temp_exp = base;
    let mut n_work: N = n;
    let ghost w = pow2(T::bit_width()) as int;
    let ghost goal = pow(base.as_nat() as int, n.as_nat()) % w;
    proof {
        T::lemma_bit_width();
        N::lemma_bit_width();
        lemma_pow2_monotone(1, T::bit_width());
        lemma_pow2_values();
        assert(1 * pow(base.as_nat() as int, n.as_nat()) == pow(base.as_nat() as int, n.as_nat()));
    }

    loop
        invariant_except_break
            (result.as_nat() * pow(temp_exp.as_nat() as int, n_work.as_nat())) % w == goal,
        invariant
            w == pow2(T::bit_width()),
            w > 1,
            8 <= N::bit_width(),
        ensures
            result.as_nat() == goal,
        decreases n_work.as_nat(),
    {
        let ghost acc = result.as_nat() as int;
        let ghost t = temp_exp.as_nat() as int;
        let ghost e = n_work.as_nat();
        proof {
            N::lemma_as_nat_bound(n_work);
            N::lemma_bit_width();
            lemma_pow2_monotone(N::bit_width(), 128);
            lemma_pow2_values();
            lemma_and_one(e);
            lemma_square_and_multiply_step(acc, t, e, w);
            lemma_pow0(t);
            lemma_pow1(t);
            T::lemma_as_nat_bound(result);
            lemma_small_mod(acc as nat, w as nat);
        }
        if !n_work.bitand(N::one()).equals(N::zero()) {
            result = result.wrapping_mul(temp_exp);
        } else {
            assert(acc * 1 == acc);
        }
        assert(result.as_nat() == (acc * pow(t, e % 2)) % w);
        n_work = n_work.shr(1);
        if n_work.equals(N::zero()) {
            proof {
                lemma_pow0((t * t) % w);
                assert(result.as_nat() * 1 == result.as_nat());
                T::lemma_as_nat_bound(result);
                lemma_small_mod(result.as_nat(), w as nat);
            }
            break ;
        }
        temp_exp = temp_exp.wrapping_mul(temp_exp);
    }
    result
}

/// Raises `base` to the power `n` modulo `m`, by squaring and multiplying
/// with [`mul_mod`].
///
/// The result is always reduced: the power 0 gives `1 % m`, which is 0 for
/// the modulus 1.
pub fn pow_mod<T, N>(base: T, n: N, m: T) -> (r: T) where T: UIntTypes, N: UnsignedInt
    requires
        m.as_nat() > 0,
    ensures
        r.as_nat() == pow(base.as_nat() as int, n.as_nat()) % (m.as_nat() as int),
{
    let mut result: T = T::one().rem(m);
    let mut temp_exp = base;
    let mut n_work: N = n;
    let ghost mi = m.as_nat() as int;
    let ghost goal = pow(base.as_nat() as int, n.as_nat()) % mi;
    proof {
        lemma_pow0(base.as_nat() as int);
        vstd::arithmetic::div_mod::lemma_mul_mod_noop_left(
            1,
            pow(base.as_nat() as int, n.as_nat()),
            mi,
        );
        assert(1 * pow(base.as_nat() as int, n.as_nat()) == pow(base.as_nat() as int, n.as_nat()));
    }

    loop
        invariant_except_break
            (result.as_nat() * pow(temp_exp.as_nat() as int, n_work.as_nat())) % mi == goal,
        invariant
            mi == m.as_nat(),
            mi > 0,
            result.as_nat() < mi,
        ensures
            result.as_nat() == goal,
        decreases n_work.as_nat(),
    {
        let ghost acc = result.as_nat() as int;
        let ghost t = temp_exp.as_nat() as int;
        let ghost e = n_work.as_nat();
        proof {
            N::lemma_as_nat_bound(n_work);
            N::lemma_bit_width();
            lemma_pow2_monotone(N::bit_width(), 128);
            lemma_pow2_values();
            lemma_and_one(e);
            lemma_square_and_multiply_step(acc, t, e, mi);
            lemma_pow0(t);
            lemma_pow1(t);
            lemma_small_mod(acc as nat, mi as nat);
        }
        if !n_work.bitand(N::one()).equals(N::zero()) {
            result = mul_mod(result, temp_exp, m);
        } else {
            assert(acc * 1 == acc);
        }
        assert(result.as_nat() == (acc * pow(t, e % 2)) % mi);
        n_work = n_work.shr(1);
        if n_work.equals(N::zero()) {
            proof {
                lemma_pow0((t * t) % mi);
                assert(result.as_nat() * 1 == result.as_nat());
                lemma_small_mod(result.as_nat(), mi as nat);
            }
            break ;
        }
        temp_exp = mul_mod(temp_exp, temp_exp, m);
    }
    result
}

/// Sums the geometric series `1 + r + r^2 + ... + r^(n - 1)` modulo
/// `2^bit_width()`, in a number of steps that grows with the logarithm of
/// `n` and in constant space. No terms give the sum 0.
pub fn wrapping_geom_series<T, N>(r: T, n: N) -> (sum: T) where T: UnsignedInt, N: UnsignedInt
    ensures
        sum.as_nat() == geom_sum(r.as_nat() as int, n.as_nat()) % (pow2(T::bit_width()) as int),
{
    let mut temp_r = r;
    let mut mult = T::one();
    let mut result = T::zero();
    let ghost w = pow2(T::bit_width()) as int;
    let ghost goal = geom_sum(r.as_nat() as int, n.as_nat()) % w;
    proof {
        T::lemma_bit_width();
        lemma_pow2_monotone(1, T::bit_width());
        lemma_pow2_values();
    }

    if n.equals(N::zero()) {
        proof {
            assert(geom_sum(r.as_nat() as int, 0) == 0);
            lemma_small_mod(0, w as nat);
        }
        return T::zero();
    }
    let mut n_work = n;
    proof {
        assert(1 * geom_sum(r.as_nat() as int, n.as_nat()) == geom_sum(
            r.as_nat() as int,
            n.as_nat(),
        ));
    }
    while N::one().less_than(n_work)
        invariant
            w == pow2(T::bit_width()),
            w > 1,
            n_work.as_nat() >= 1,
            (result.as_nat() + mult.as_nat() * geom_sum(temp_r.as_nat() as int, n_work.as_nat()))
                % w == goal,
        decreases n_work.as_nat(),
    {
        let ghost acc = result.as_nat() as int;
        let ghost ml = mult.as_nat() as int;
        let ghost t = temp_r.as_nat() as int;
        let ghost e = n_work.as_nat();
        proof {
            N::lemma_as_nat_bound(n_work);
            N::lemma_bit_width();
            lemma_pow2_monotone(N::bit_width(), 128);
            lemma_pow2_values();
            lemma_and_one(e);
            lemma_geom_series_step(acc, ml, t, e, w);
        }
        if !n_work.bitand(N::one()).equals(N::zero()) {
            result = wrapping_pow(temp_r, n_work.sub(N::one())).wrapping_mul(mult).wrapping_add(
                result,
            );
        }
        mult = T::one().wrapping_add(temp_r).wrapping_mul(mult);
        temp_r = temp_r.wrapping_mul(temp_r);
        n_work = n_work.shr(1);
    }
    proof {
        let t = temp_r.as_nat() as int;
        assert(geom_sum(t, 1) == geom_sum(t, 0) + pow(t, 0));
        lemma_pow0(t);
        assert(mult.as_nat() * 1 == mult.as_nat());
    }
    result = result.wrapping_add(mult);
    result
}

} // verus!
