//! Square matrices of bits, over GF(2).
//!
//! The bits of a matrix are held in an array of unsigned integers, one for
//! each column, of a width that suits the size of the matrix: a 32×32 matrix
//! is an array of 32 values of `u32`. Bit `i` of column `j`, counted from the
//! least significant, is the entry in row `i` and column `j`.

use vstd::prelude::*;
use vstd::std_specs::cmp::PartialEqSpecImpl;
use vstd::std_specs::ops::{AddSpecImpl, BitAndSpecImpl, MulSpecImpl, ShlSpecImpl, ShrSpecImpl};
use vstd::arithmetic::div_mod::{lemma_div_denominator, lemma_small_mod};
use vstd::arithmetic::power2::{
    lemma_pow2_pos, lemma_pow2_strictly_increases, lemma_pow2_unfold, pow2,
};
use crate::bits::{
    lemma_and_bound, lemma_and_low_mask, lemma_and_one, lemma_mod_pow2_twice, lemma_pow2_monotone,
    lemma_pow2_values, lemma_shift_left_out, lemma_xor_bound,
};
use crate::gf2::{
    dot_vec_upto, is_matrix, lemma_dot_vec_bound, lemma_mat_mul_is_matrix, lemma_mat_mul_one,
    lemma_mat_one_is_matrix, lemma_mat_pow_is_matrix, lemma_mat_pow_one, lemma_mat_pow_step,
    mat_add, mat_and, mat_dot_vec, mat_mul, mat_one, mat_pow, mat_shift, mat_shl, mat_shr,
    mat_zero,
};
use crate::math::{bit_width_mask, size_of_bits};
use crate::uint::UnsignedInt;

verus! {

/// The integer types that can hold a column of a [`BitMatrix`]: every
/// unsigned machine integer.
pub trait BitMatrixInt: UnsignedInt {

}

impl<T: UnsignedInt> BitMatrixInt for T {

}

/// A square matrix of `WIDTH` rows and columns over GF(2), with its columns
/// held in integers of type `T`.
///
/// A matrix that [`wf`](BitMatrix::wf) holds of has no more columns than `T`
/// has bits, and no bit set at or above position `WIDTH` in any column.
#[derive(Debug)]
pub struct BitMatrix<T, const WIDTH: usize> where T: BitMatrixInt {
    columns: [T; WIDTH],
}

impl<T, const WIDTH: usize> BitMatrix<T, WIDTH> where T: BitMatrixInt {
    /// The columns of the matrix, as numbers.
    pub closed spec fn view(&self) -> Seq<nat> {
        Seq::new(WIDTH as nat, |j: int| self.columns[j].as_nat())
    }

    /// Whether the matrix is well formed: `T` has a bit for every row, and
    /// every column lies below `2^WIDTH`.
    pub open spec fn wf(&self) -> bool {
        &&& WIDTH <= T::bit_width()
        &&& is_matrix(self@, WIDTH as nat)
    }

    /// The matrix with the given columns.
    pub fn new(init_data: &[T; WIDTH]) -> (r: BitMatrix<T, WIDTH>)
        requires
            WIDTH <= T::bit_width(),
            forall|j: int|
                0 <= j < WIDTH ==> (#[trigger] init_data[j]).as_nat() < pow2(WIDTH as nat),
        ensures
            r.wf(),
            r@.len() == WIDTH,
            forall|j: int| 0 <= j < WIDTH ==> #[trigger] r@[j] == init_data[j].as_nat(),
    {
        proof {
            T::lemma_bit_width();
        }
        BitMatrix::<T, WIDTH> { columns: *init_data }
    }

    /// The matrix that shifts a vector by `shift_value` places: to the left
    /// if it is positive, to the right if it is negative. Bits that leave the
    /// `WIDTH` rows are lost.
    pub fn shift(shift_value: i8) -> (r: BitMatrix<T, WIDTH>)
        requires
            WIDTH <= T::bit_width(),
        ensures
            r.wf(),
            r@ == mat_shift(WIDTH as nat, shift_value as int),
    {
        let mut result = BitMatrix::<T, WIDTH> { columns: [T::zero(); WIDTH] };
        let ghost goal = mat_shift(WIDTH as nat, shift_value as int);
        let ghost w = pow2(WIDTH as nat);
        proof {
            T::lemma_bit_width();
            lemma_pow2_values();
            lemma_pow2_monotone(WIDTH as nat, T::bit_width());
            lemma_pow2_monotone(T::bit_width(), 128);
        }
        let mut value: T = if shift_value >= 0 && (shift_value as usize) < WIDTH {
            proof {
                lemma_pow2_strictly_increases(shift_value as nat, T::bit_width());
                assert(1 * pow2(shift_value as nat) == pow2(shift_value as nat));
                lemma_small_mod(pow2(shift_value as nat), pow2(T::bit_width()));
            }
            T::one().shl(shift_value as usize)
        } else {
            T::zero()
        };
        let mask: T = bit_width_mask(WIDTH);
        let mut shift_temp = shift_value;
        let mut i: usize = 0;
        while i < WIDTH
            invariant
                0 <= i <= WIDTH,
                WIDTH <= T::bit_width() <= 128,
                8 <= T::bit_width(),
                w == pow2(WIDTH as nat),
                w <= pow2(T::bit_width()) <= pow2(128),
                mask.as_nat() == w - 1,
                goal == mat_shift(WIDTH as nat, shift_value as int),
                i < WIDTH ==> value.as_nat() == goal[i as int],
                shift_temp == if shift_value + i < 0 {
                    shift_value + i
                } else if shift_value < 0 {
                    0
                } else {
                    shift_value as int
                },
                forall|j: int| 0 <= j < i ==> (#[trigger] result.columns[j]).as_nat() == goal[j],
            decreases WIDTH - i,
        {
            result.columns[i] = value;
            let ghost e = shift_value + i;
            let ghost v = value.as_nat();
            let ghost next = if 0 <= e + 1 < WIDTH {
                pow2((e + 1) as nat)
            } else {
                0
            };
            proof {
                lemma_pow2_values();
                assert(i + 1 < WIDTH ==> goal[i + 1] == next);
            }
            if shift_temp < 0 {
                shift_temp += 1;
                if shift_temp == 0 {
                    value = T::one();
                }
            } else {
                proof {
                    let wide = pow2(T::bit_width());
                    assert(v * pow2(1) == v * 2);
                    vstd::arithmetic::div_mod::lemma_mod_bound((v * 2) as int, wide as int);
                    lemma_and_low_mask((v * 2) % wide, WIDTH as nat);
                    lemma_mod_pow2_twice(v * 2, WIDTH as nat, T::bit_width());
                    if e < WIDTH {
                        lemma_pow2_unfold((e + 1) as nat);
                        if e + 1 < WIDTH {
                            lemma_pow2_strictly_increases((e + 1) as nat, WIDTH as nat);
                            lemma_small_mod(pow2((e + 1) as nat), w);
                        } else {
                            vstd::arithmetic::div_mod::lemma_mod_self_0(w as int);
                        }
                    } else {
                        lemma_pow2_pos(WIDTH as nat);
                        lemma_small_mod(0, w);
                    }
                    assert((v * 2) % w == next);
                }
                value = value.shl(1).bitand(mask);
            }
            assert(value.as_nat() == next);
            i += 1;
        }
        proof {
            assert(result@ =~= goal);
            assert forall|j: int| 0 <= j < WIDTH implies #[trigger] goal[j] < w by {
                if 0 <= j + shift_value < WIDTH {
                    lemma_pow2_strictly_increases((j + shift_value) as nat, WIDTH as nat);
                }
            }
        }
        result
    }

    /// The matrix times the vector `b`: the exclusive-or of the columns
    /// that the set bits of `b` pick, bit `i` picking column `i`.
    pub fn dot_vec(&self, b: T) -> (r: T)
        requires
            self.wf(),
        ensures
            r.as_nat() == mat_dot_vec(self@, b.as_nat()),
            r.as_nat() < pow2(WIDTH as nat),
    {
        let mut result: T = T::zero();
        let mut b_temp = b;
        let mut i: usize = 0;
        proof {
            T::lemma_bit_width();
            lemma_pow2_values();
            lemma_dot_vec_bound(self@, b.as_nat(), WIDTH as nat);
        }
        while i < WIDTH
            invariant
                0 <= i <= WIDTH,
                self.wf(),
                8 <= T::bit_width() <= 128,
                b_temp.as_nat() == b.as_nat() / pow2(i as nat),
                result.as_nat() == dot_vec_upto(self@, b.as_nat(), i as nat),
            decreases WIDTH - i,
        {
            proof {
                T::lemma_as_nat_bound(b_temp);
                lemma_pow2_monotone(T::bit_width(), 128);
                lemma_and_one(b_temp.as_nat());
                lemma_pow2_values();
                lemma_pow2_pos(i as nat);
                lemma_pow2_unfold((i + 1) as nat);
                lemma_div_denominator(b.as_nat() as int, pow2(i as nat) as int, 2);
                crate::bits::lemma_xor_zero(result.as_nat());
                assert(self@[i as int] == self.columns[i as int].as_nat());
            }
            if !b_temp.bitand(T::one()).equals(T::zero()) {
                result = result.bitxor(self.columns[i]);
            }
            b_temp = b_temp.shr(1);
            i += 1;
        }
        result
    }

    /// The product of the matrix and `b`.
    pub fn dot(&self, b: &BitMatrix<T, WIDTH>) -> (r: BitMatrix<T, WIDTH>)
        requires
            self.wf(),
            b.wf(),
        ensures
            r.wf(),
            r@ == mat_mul(self@, b@),
    {
        let mut result = BitMatrix::<T, WIDTH> { columns: [T::zero(); WIDTH] };
        let mut i: usize = 0;
        while i < WIDTH
            invariant
                0 <= i <= WIDTH,
                self.wf(),
                b.wf(),
                forall|j: int|
                    0 <= j < i ==> (#[trigger] result.columns[j]).as_nat() == mat_dot_vec(
                        self@,
                        b@[j],
                    ),
            decreases WIDTH - i,
        {
            result.columns[i] = self.dot_vec(b.columns[i]);
            i += 1;
        }
        proof {
            assert(result@ =~= mat_mul(self@, b@));
            lemma_mat_mul_is_matrix(self@, b@, WIDTH as nat);
        }
        result
    }

    /// Multiplies the matrix by `b` in place.
    pub fn dot_equ(&mut self, b: &BitMatrix<T, WIDTH>)
        requires
            old(self).wf(),
            b.wf(),
        ensures
            final(self).wf(),
            final(self)@ == mat_mul(old(self)@, b@),
    {
        let a = BitMatrix::<T, WIDTH> { columns: self.columns };
        let mut i: usize = 0;
        assert(a@ =~= old(self)@);
        while i < WIDTH
            invariant
                0 <= i <= WIDTH,
                a.wf(),
                b.wf(),
                forall|j: int|
                    0 <= j < i ==> (#[trigger] self.columns[j]).as_nat() == mat_dot_vec(a@, b@[j]),
            decreases WIDTH - i,
        {
            self.columns[i] = a.dot_vec(b.columns[i]);
            i += 1;
        }
        proof {
            assert(self@ =~= mat_mul(a@, b@));
            lemma_mat_mul_is_matrix(a@, b@, WIDTH as nat);
        }
    }

    /// The zero matrix.
    pub fn zero() -> (r: BitMatrix<T, WIDTH>)
        requires
            WIDTH <= T::bit_width(),
        ensures
            r.wf(),
            r@ == mat_zero(WIDTH as nat),
    {
        let r = BitMatrix::<T, WIDTH> { columns: [T::zero(); WIDTH] };
        proof {
            T::lemma_bit_width();
            lemma_pow2_pos(WIDTH as nat);
            assert(r@ =~= mat_zero(WIDTH as nat));
        }
        r
    }

    /// Whether every entry of the matrix is zero.
    pub fn is_zero(&self) -> (r: bool)
        ensures
            r == (self@ == mat_zero(WIDTH as nat)),
    {
        let mut i: usize = 0;
        while i < WIDTH
            invariant
                0 <= i <= WIDTH,
                forall|j: int| 0 <= j < i ==> (#[trigger] self.columns[j]).as_nat() == 0,
            decreases WIDTH - i,
        {
            if !self.columns[i].equals(T::zero()) {
                assert(self@[i as int] != mat_zero(WIDTH as nat)[i as int]);
                return false;
            }
            i += 1;
        }
        assert(self@ =~= mat_zero(WIDTH as nat));
        true
    }

    /// The identity matrix: ones on the diagonal, zeros elsewhere.
    pub fn one() -> (r: BitMatrix<T, WIDTH>)
        requires
            WIDTH <= T::bit_width(),
        ensures
            r.wf(),
            r@ == mat_one(WIDTH as nat),
    {
        let mut result = BitMatrix::<T, WIDTH> { columns: [T::zero(); WIDTH] };
        let mut value: T = T::one();
        let mut i: usize = 0;
        proof {
            T::lemma_bit_width();
            lemma_pow2_values();
        }
        while i < WIDTH
            invariant
                0 <= i <= WIDTH,
                WIDTH <= T::bit_width(),
                8 <= T::bit_width(),
                i < WIDTH ==> value.as_nat() == pow2(i as nat),
                forall|j: int|
                    0 <= j < i ==> (#[trigger] result.columns[j]).as_nat() == pow2(j as nat),
            decreases WIDTH - i,
        {
            result.columns[i] = value;
            if i + 1 < WIDTH {
                proof {
                    lemma_pow2_values();
                    lemma_pow2_unfold((i + 1) as nat);
                    lemma_pow2_strictly_increases((i + 1) as nat, T::bit_width());
                    lemma_small_mod(pow2((i + 1) as nat), pow2(T::bit_width()));
                }
                value = value.shl(1);
            }
            i += 1;
        }
        proof {
            assert(result@ =~= mat_one(WIDTH as nat));
            lemma_mat_one_is_matrix(WIDTH as nat);
        }
        result
    }

    /// The power `n` of the matrix, by squaring and multiplying. The power 0
    /// is the identity.
    pub fn pow<N>(self, n: N) -> (r: BitMatrix<T, WIDTH>) where N: UnsignedInt
        requires
            self.wf(),
        ensures
            r.wf(),
            r@ == mat_pow(self@, n.as_nat()),
    {
        let mut result = BitMatrix::<T, WIDTH>::one();
        let mut temp_exp = BitMatrix::<T, WIDTH> { columns: self.columns };
        let mut n_work: N = n;
        let ghost width = WIDTH as nat;
        let ghost goal = mat_pow(self@, n.as_nat());
        proof {
            assert(temp_exp@ =~= self@);
            lemma_mat_pow_is_matrix(self@, n.as_nat(), width);
            lemma_mat_mul_one(goal, width);
        }

        loop
            invariant_except_break
                mat_mul(result@, mat_pow(temp_exp@, n_work.as_nat())) == goal,
            invariant
                width == WIDTH,
                result.wf(),
                temp_exp.wf(),
            ensures
                result@ == goal,
            decreases n_work.as_nat(),
        {
            let ghost acc = result@;
            let ghost t = temp_exp@;
            let ghost e = n_work.as_nat();
            proof {
                N::lemma_as_nat_bound(n_work);
                N::lemma_bit_width();
                lemma_pow2_monotone(N::bit_width(), 128);
                lemma_pow2_values();
                lemma_and_one(e);
                lemma_mat_pow_step(acc, t, e, width);
                lemma_mat_pow_one(t, width);
                lemma_mat_mul_one(acc, width);
            }
            if !n_work.bitand(N::one()).equals(N::zero()) {
                result.dot_equ(&temp_exp);
            }
            assert(result@ == mat_mul(acc, mat_pow(t, e % 2)));
            n_work = n_work.shr(1);
            if n_work.equals(N::zero()) {
                proof {
                    lemma_mat_mul_one(result@, width);
                }
                break ;
            }
            let temp_exp2 = BitMatrix::<T, WIDTH> { columns: temp_exp.columns };
            assert(temp_exp2@ =~= temp_exp@);
            temp_exp.dot_equ(&temp_exp2);
        }
        result
    }
}

impl<T, const WIDTH: usize> Clone for BitMatrix<T, WIDTH> where T: BitMatrixInt {
    /// A copy of the matrix.
    fn clone(&self) -> (r: Self)
        ensures
            r == *self,
    {
        BitMatrix::<T, WIDTH> { columns: self.columns }
    }
}

impl<T, const WIDTH: usize> PartialEq for BitMatrix<T, WIDTH> where T: BitMatrixInt {
    /// Whether the two matrices have the same entries.
    fn eq(&self, other: &Self) -> (r: bool) {
        let mut i: usize = 0;
        while i < WIDTH
            invariant
                0 <= i <= WIDTH,
                forall|j: int| 0 <= j < i ==> #[trigger] self@[j] == other@[j],
            decreases WIDTH - i,
        {
            if !self.columns[i].equals(other.columns[i]) {
                assert(self@[i as int] != other@[i as int]);
                return false;
            }
            assert(self@[i as int] == other@[i as int]);
            i += 1;
        }
        assert(self@ =~= other@);
        true
    }
}

impl<T, const WIDTH: usize> PartialEqSpecImpl for BitMatrix<T, WIDTH> where T: BitMatrixInt {
    open spec fn obeys_eq_spec() -> bool {
        true
    }

    open spec fn eq_spec(&self, other: &Self) -> bool {
        self@ == other@
    }
}

impl<T, const WIDTH: usize> Eq for BitMatrix<T, WIDTH> where T: BitMatrixInt {

}

/// Two matrices with the same columns are the same matrix.
pub proof fn lemma_view_injective<T: BitMatrixInt, const WIDTH: usize>(
    a: BitMatrix<T, WIDTH>,
    b: BitMatrix<T, WIDTH>,
)
    requires
        a@ == b@,
    ensures
        a == b,
{
    assert forall|j: int| 0 <= j < WIDTH implies a.columns[j] == b.columns[j] by {
        assert(a@[j] == a.columns[j].as_nat());
        assert(b@[j] == b.columns[j].as_nat());
        T::lemma_as_nat_injective(a.columns[j], b.columns[j]);
    }
    assert(a.columns =~= b.columns);
}

impl<T, const WIDTH: usize> std::ops::BitAnd<T> for BitMatrix<T, WIDTH> where T: BitMatrixInt {
    type Output = BitMatrix<T, WIDTH>;

    /// The matrix with every column masked by `rhs`. Multiplying by the
    /// result is multiplying by the matrix and then masking with `rhs`.
    fn bitand(self, rhs: T) -> (r: BitMatrix<T, WIDTH>)
        ensures
            r.wf(),
            r@ == mat_and(self@, rhs.as_nat()),
    {
        let mut result = BitMatrix::<T, WIDTH> { columns: [T::zero(); WIDTH] };
        let mut i: usize = 0;
        proof {
            lemma_pow2_monotone(WIDTH as nat, 128);
        }
        while i < WIDTH
            invariant
                0 <= i <= WIDTH,
                self.wf(),
                pow2(WIDTH as nat) <= pow2(128),
                forall|j: int|
                    0 <= j < i ==> (#[trigger] result.columns[j]).as_nat() == mat_and(
                        self@,
                        rhs.as_nat(),
                    )[j],
                forall|j: int|
                    0 <= j < i ==> (#[trigger] result.columns[j]).as_nat() < pow2(WIDTH as nat),
            decreases WIDTH - i,
        {
            proof {
                assert(self@[i as int] == self.columns[i as int].as_nat());
                lemma_and_bound(self@[i as int], rhs.as_nat());
            }
            result.columns[i] = self.columns[i].bitand(rhs);
            i += 1;
        }
        assert(result@ =~= mat_and(self@, rhs.as_nat()));
        proof {
            let picked = choose|m: BitMatrix<T, WIDTH>| m@ == mat_and(self@, rhs.as_nat());
            lemma_view_injective(result, picked);
        }
        result
    }
}

impl<T, const WIDTH: usize> BitAndSpecImpl<T> for BitMatrix<T, WIDTH> where T: BitMatrixInt {
    open spec fn obeys_bitand_spec() -> bool {
        true
    }

    open spec fn bitand_req(self, rhs: T) -> bool {
        self.wf()
    }

    open spec fn bitand_spec(self, rhs: T) -> BitMatrix<T, WIDTH> {
        choose|m: BitMatrix<T, WIDTH>| m@ == mat_and(self@, rhs.as_nat())
    }
}

impl<T, const WIDTH: usize> std::ops::Shl<usize> for BitMatrix<T, WIDTH> where T: BitMatrixInt {
    type Output = BitMatrix<T, WIDTH>;

    /// The matrix with every column shifted left by `n` bits; bits that
    /// leave the `WIDTH` rows are lost. Multiplying by the result is
    /// multiplying by the matrix and then shifting left.
    fn shl(self, n: usize) -> (r: BitMatrix<T, WIDTH>)
        ensures
            r.wf(),
            r@ == mat_shl(self@, n as nat),
    {
        let ghost w = pow2(WIDTH as nat);
        proof {
            T::lemma_bit_width();
            T::lemma_size_of();
            lemma_pow2_values();
            lemma_pow2_pos(WIDTH as nat);
            lemma_pow2_monotone(WIDTH as nat, T::bit_width());
            lemma_pow2_monotone(T::bit_width(), 128);
        }
        if n >= size_of_bits::<T>() {
            let r = BitMatrix::<T, WIDTH>::zero();
            proof {
                assert forall|j: int| 0 <= j < WIDTH implies #[trigger] mat_shl(self@, n as nat)[j]
                    == 0 by {
                    lemma_shift_left_out(self@[j], n as nat, WIDTH as nat);
                }
                assert(r@ =~= mat_shl(self@, n as nat));
            }
            proof {
                let picked = choose|m: BitMatrix<T, WIDTH>| m@ == mat_shl(self@, n as nat);
                lemma_view_injective(r, picked);
            }
            return r;
        }
        let mask: T = bit_width_mask(WIDTH);
        let mut result = BitMatrix::<T, WIDTH> { columns: [T::zero(); WIDTH] };
        let mut i: usize = 0;
        while i < WIDTH
            invariant
                0 <= i <= WIDTH,
                self.wf(),
                n < T::bit_width() <= 128,
                w == pow2(WIDTH as nat),
                0 < w <= pow2(T::bit_width()) <= pow2(128),
                mask.as_nat() == w - 1,
                forall|j: int|
                    0 <= j < i ==> (#[trigger] result.columns[j]).as_nat() == mat_shl(
                        self@,
                        n as nat,
                    )[j],
            decreases WIDTH - i,
        {
            proof {
                let c = self.columns[i as int].as_nat();
                assert(self@[i as int] == c);
                vstd::arithmetic::div_mod::lemma_mod_bound(
                    (c * pow2(n as nat)) as int,
                    pow2(T::bit_width()) as int,
                );
                lemma_and_low_mask((c * pow2(n as nat)) % pow2(T::bit_width()), WIDTH as nat);
                lemma_mod_pow2_twice(c * pow2(n as nat), WIDTH as nat, T::bit_width());
            }
            result.columns[i] = self.columns[i].shl(n).bitand(mask);
            i += 1;
        }
        proof {
            assert(result@ =~= mat_shl(self@, n as nat));
            assert forall|j: int| 0 <= j < WIDTH implies #[trigger] result@[j] < w by {
                vstd::arithmetic::div_mod::lemma_mod_bound(
                    (self@[j] * pow2(n as nat)) as int,
                    w as int,
                );
            }
            let picked = choose|m: BitMatrix<T, WIDTH>| m@ == mat_shl(self@, n as nat);
            lemma_view_injective(result, picked);
        }
        result
    }
}

impl<T, const WIDTH: usize> ShlSpecImpl<usize> for BitMatrix<T, WIDTH> where T: BitMatrixInt {
    open spec fn obeys_shl_spec() -> bool {
        true
    }

    open spec fn shl_req(self, n: usize) -> bool {
        self.wf()
    }

    open spec fn shl_spec(self, n: usize) -> BitMatrix<T, WIDTH> {
        choose|m: BitMatrix<T, WIDTH>| m@ == mat_shl(self@, n as nat)
    }
}

impl<T, const WIDTH: usize> std::ops::Shr<usize> for BitMatrix<T, WIDTH> where T: BitMatrixInt {
    type Output = BitMatrix<T, WIDTH>;

    /// The matrix with every column shifted right by `n` bits.
    /// Multiplying by the result is multiplying by the matrix and then
    /// shifting right.
    fn shr(self, n: usize) -> (r: BitMatrix<T, WIDTH>)
        ensures
            r.wf(),
            r@ == mat_shr(self@, n as nat),
    {
        proof {
            T::lemma_bit_width();
            T::lemma_size_of();
            lemma_pow2_pos(WIDTH as nat);
        }
        if n >= size_of_bits::<T>() {
            let r = BitMatrix::<T, WIDTH>::zero();
            proof {
                assert forall|j: int| 0 <= j < WIDTH implies #[trigger] mat_shr(self@, n as nat)[j]
                    == 0 by {
                    lemma_pow2_monotone(WIDTH as nat, n as nat);
                    vstd::arithmetic::div_mod::lemma_basic_div(
                        self@[j] as int,
                        pow2(n as nat) as int,
                    );
                }
                assert(r@ =~= mat_shr(self@, n as nat));
            }
            proof {
                let picked = choose|m: BitMatrix<T, WIDTH>| m@ == mat_shr(self@, n as nat);
                lemma_view_injective(r, picked);
            }
            return r;
        }
        let mut result = BitMatrix::<T, WIDTH> { columns: [T::zero(); WIDTH] };
        let mut i: usize = 0;
        while i < WIDTH
            invariant
                0 <= i <= WIDTH,
                self.wf(),
                n < T::bit_width(),
                forall|j: int|
                    0 <= j < i ==> (#[trigger] result.columns[j]).as_nat() == mat_shr(
                        self@,
                        n as nat,
                    )[j],
            decreases WIDTH - i,
        {
            assert(self@[i as int] == self.columns[i as int].as_nat());
            result.columns[i] = self.columns[i].shr(n);
            i += 1;
        }
        proof {
            assert(result@ =~= mat_shr(self@, n as nat));
            assert forall|j: int| 0 <= j < WIDTH implies #[trigger] result@[j] < pow2(
                WIDTH as nat,
            ) by {
                lemma_pow2_pos(n as nat);
                vstd::arithmetic::div_mod::lemma_div_nonincreasing(
                    self@[j] as int,
                    pow2(n as nat) as int,
                );
            }
            let picked = choose|m: BitMatrix<T, WIDTH>| m@ == mat_shr(self@, n as nat);
            lemma_view_injective(result, picked);
        }
        result
    }
}

impl<T, const WIDTH: usize> ShrSpecImpl<usize> for BitMatrix<T, WIDTH> where T: BitMatrixInt {
    open spec fn obeys_shr_spec() -> bool {
        true
    }

    open spec fn shr_req(self, n: usize) -> bool {
        self.wf()
    }

    open spec fn shr_spec(self, n: usize) -> BitMatrix<T, WIDTH> {
        choose|m: BitMatrix<T, WIDTH>| m@ == mat_shr(self@, n as nat)
    }
}

impl<T, const WIDTH: usize> std::ops::Add for BitMatrix<T, WIDTH> where T: BitMatrixInt {
    type Output = BitMatrix<T, WIDTH>;

    /// The sum of the matrix and `b`.
    fn add(self, b: BitMatrix<T, WIDTH>) -> (r: BitMatrix<T, WIDTH>)
        ensures
            r.wf(),
            r@ == mat_add(self@, b@),
    {
        let mut result = BitMatrix::<T, WIDTH> { columns: self.columns };
        let mut i: usize = 0;
        while i < WIDTH
            invariant
                0 <= i <= WIDTH,
                self.wf(),
                b.wf(),
                forall|j: int|
                    0 <= j < i ==> (#[trigger] result.columns[j]).as_nat() == mat_add(self@, b@)[j],
                forall|j: int| i <= j < WIDTH ==> #[trigger] result.columns[j] == self.columns[j],
            decreases WIDTH - i,
        {
            assert(self@[i as int] == self.columns[i as int].as_nat());
            assert(b@[i as int] == b.columns[i as int].as_nat());
            result.columns[i] = result.columns[i].bitxor(b.columns[i]);
            i += 1;
        }
        proof {
            assert(result@ =~= mat_add(self@, b@));
            assert forall|j: int| 0 <= j < WIDTH implies #[trigger] result@[j] < pow2(
                WIDTH as nat,
            ) by {
                lemma_xor_bound(self@[j], b@[j], WIDTH as nat);
            }
            let picked = choose|m: BitMatrix<T, WIDTH>| m@ == mat_add(self@, b@);
            lemma_view_injective(result, picked);
        }
        result
    }
}

impl<T, const WIDTH: usize> AddSpecImpl for BitMatrix<T, WIDTH> where T: BitMatrixInt {
    open spec fn obeys_add_spec() -> bool {
        true
    }

    open spec fn add_req(self, b: BitMatrix<T, WIDTH>) -> bool {
        self.wf() && b.wf()
    }

    open spec fn add_spec(self, b: BitMatrix<T, WIDTH>) -> BitMatrix<T, WIDTH> {
        choose|m: BitMatrix<T, WIDTH>| m@ == mat_add(self@, b@)
    }
}

impl<'a, 'b, T, const WIDTH: usize> std::ops::Add<&'b BitMatrix<T, WIDTH>> for &'a BitMatrix<T, WIDTH> where T: BitMatrixInt {
    type Output = BitMatrix<T, WIDTH>;

    /// The sum of the matrix and `b`, by reference.
    fn add(self, b: &'b BitMatrix<T, WIDTH>) -> (r: BitMatrix<T, WIDTH>)
        ensures
            r.wf(),
            r@ == mat_add(self@, b@),
    {
        let mut result = BitMatrix::<T, WIDTH> { columns: self.columns };
        let mut i: usize = 0;
        while i < WIDTH
            invariant
                0 <= i <= WIDTH,
                self.wf(),
                b.wf(),
                forall|j: int|
                    0 <= j < i ==> (#[trigger] result.columns[j]).as_nat() == mat_add(self@, b@)[j],
                forall|j: int| i <= j < WIDTH ==> #[trigger] result.columns[j] == self.columns[j],
            decreases WIDTH - i,
        {
            assert(self@[i as int] == self.columns[i as int].as_nat());
            assert(b@[i as int] == b.columns[i as int].as_nat());
            result.columns[i] = result.columns[i].bitxor(b.columns[i]);
            i += 1;
        }
        proof {
            assert(result@ =~= mat_add(self@, b@));
            assert forall|j: int| 0 <= j < WIDTH implies #[trigger] result@[j] < pow2(
                WIDTH as nat,
            ) by {
                lemma_xor_bound(self@[j], b@[j], WIDTH as nat);
            }
            let picked = choose|m: BitMatrix<T, WIDTH>| m@ == mat_add(self@, b@);
            lemma_view_injective(result, picked);
        }
        result
    }
}

impl<'a, 'b, T, const WIDTH: usize> AddSpecImpl<&'b BitMatrix<T, WIDTH>> for &'a BitMatrix<T, WIDTH> where T: BitMatrixInt {
    open spec fn obeys_add_spec() -> bool {
        true
    }

    open spec fn add_req(self, b: &'b BitMatrix<T, WIDTH>) -> bool {
        self.wf() && b.wf()
    }

    open spec fn add_spec(self, b: &'b BitMatrix<T, WIDTH>) -> BitMatrix<T, WIDTH> {
        choose|m: BitMatrix<T, WIDTH>| m@ == mat_add(self@, b@)
    }
}

impl<T, const WIDTH: usize> std::ops::Mul for BitMatrix<T, WIDTH> where T: BitMatrixInt {
    type Output = BitMatrix<T, WIDTH>;

    /// The product of the matrix and `b`.
    fn mul(self, b: BitMatrix<T, WIDTH>) -> (r: BitMatrix<T, WIDTH>)
        ensures
            r.wf(),
            r@ == mat_mul(self@, b@),
    {
        let result = self.dot(&b);
        proof {
            let picked = choose|m: BitMatrix<T, WIDTH>| m@ == mat_mul(self@, b@);
            lemma_view_injective(result, picked);
        }
        result
    }
}

impl<T, const WIDTH: usize> MulSpecImpl for BitMatrix<T, WIDTH> where T: BitMatrixInt {
    open spec fn obeys_mul_spec() -> bool {
        true
    }

    open spec fn mul_req(self, b: BitMatrix<T, WIDTH>) -> bool {
        self.wf() && b.wf()
    }

    open spec fn mul_spec(self, b: BitMatrix<T, WIDTH>) -> BitMatrix<T, WIDTH> {
        choose|m: BitMatrix<T, WIDTH>| m@ == mat_mul(self@, b@)
    }
}

impl<'a, 'b, T, const WIDTH: usize> std::ops::Mul<&'b BitMatrix<T, WIDTH>> for &'a BitMatrix<T, WIDTH> where T: BitMatrixInt {
    type Output = BitMatrix<T, WIDTH>;

    /// The product of the matrix and `b`, by reference.
    fn mul(self, b: &'b BitMatrix<T, WIDTH>) -> (r: BitMatrix<T, WIDTH>)
        ensures
            r.wf(),
            r@ == mat_mul(self@, b@),
    {
        let result = self.dot(b);
        proof {
            let picked = choose|m: BitMatrix<T, WIDTH>| m@ == mat_mul(self@, b@);
            lemma_view_injective(result, picked);
        }
        result
    }
}

impl<'a, 'b, T, const WIDTH: usize> MulSpecImpl<&'b BitMatrix<T, WIDTH>> for &'a BitMatrix<T, WIDTH> where T: BitMatrixInt {
    open spec fn obeys_mul_spec() -> bool {
        true
    }

    open spec fn mul_req(self, b: &'b BitMatrix<T, WIDTH>) -> bool {
        self.wf() && b.wf()
    }

    open spec fn mul_spec(self, b: &'b BitMatrix<T, WIDTH>) -> BitMatrix<T, WIDTH> {
        choose|m: BitMatrix<T, WIDTH>| m@ == mat_mul(self@, b@)
    }
}

} // verus!
