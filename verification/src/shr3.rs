//! The shift-register generator SHR3.

use vstd::prelude::*;
use vstd::arithmetic::div_mod::lemma_small_mod;
use vstd::arithmetic::power2::pow2;
use crate::arith::lemma_mod_whole_cycles;
use crate::bitmatrix::BitMatrix;
use crate::bits::{bit_xor, lemma_pow2_values, shift_left, shift_right};
use crate::gf2::{
    is_matrix, iterate, lemma_dot_vec_compose, lemma_dot_vec_of_pow_iterates, lemma_dot_vec_of_shift,
    lemma_dot_vec_of_sum, lemma_dot_vec_one, lemma_mat_add_is_matrix, lemma_mat_mul_is_matrix,
    lemma_mat_one_is_matrix, lemma_mat_pow_periodic, lemma_mat_shift_is_matrix, mat_add, mat_dot_vec, mat_mul, mat_one,
    mat_pow, mat_shift,
};
use crate::jump::RngJumpAhead;
use crate::math::{modulo, IntTypes};
use crate::uint::lemma_u32_shl;

verus! {

/// The length of the cycle of SHR3: it goes through every state but zero.
pub const SHR3_CYCLE_LEN: u32 = 0xFFFF_FFFF;

/// One step of SHR3: three shifts, each folded into the word by
/// exclusive-or.
pub open spec fn shr3_step(x: u32) -> u32 {
    let a = x ^ (x << 13u32);
    let b = a ^ (a >> 17u32);
    b ^ (b << 5u32)
}

/// The state that a seed of SHR3 gives: the seed, or the word of all ones
/// for the seed 0.
pub open spec fn shr3_sanitised(seed: u32) -> u32 {
    if seed == 0 {
        0xFFFF_FFFFu32
    } else {
        seed
    }
}

/// `n` steps of SHR3 from `x`.
pub open spec fn shr3_steps(x: u32, n: nat) -> u32
    decreases n,
{
    if n == 0 {
        x
    } else {
        shr3_step(shr3_steps(x, (n - 1) as nat))
    }
}

/// The matrix that folds a shift by `k` places into a word of 32 bits:
/// the identity plus the shift.
pub open spec fn fold_shift_matrix(k: int) -> Seq<nat> {
    mat_add(mat_one(32), mat_shift(32, k))
}

/// The matrix of one step of SHR3.
pub open spec fn shr3_matrix_spec() -> Seq<nat> {
    mat_mul(mat_mul(fold_shift_matrix(5), fold_shift_matrix(-17)), fold_shift_matrix(13))
}

/// The matrix of one step of SHR3 times a state is the next state.
pub proof fn lemma_shr3_matrix_steps(x: u32)
    ensures
        is_matrix(shr3_matrix_spec(), 32),
        mat_dot_vec(shr3_matrix_spec(), x as nat) == shr3_step(x) as nat,
{
    let ma = fold_shift_matrix(13);
    let mb = fold_shift_matrix(-17);
    let mc = fold_shift_matrix(5);
    let a = x ^ (x << 13u32);
    let b = a ^ (a >> 17u32);
    lemma_pow2_values();
    lemma_mat_one_is_matrix(32);
    lemma_fold_shift_matrix(13, x);
    lemma_fold_shift_matrix(-17, a);
    lemma_fold_shift_matrix(5, b);
    lemma_mat_mul_is_matrix(mc, mb, 32);
    lemma_mat_mul_is_matrix(mat_mul(mc, mb), ma, 32);
    lemma_dot_vec_compose(mat_mul(mc, mb), ma, x as nat, 32);
    lemma_dot_vec_compose(mc, mb, a as nat, 32);
    lemma_u32_shl(x, 13);
    lemma_u32_shl(b, 5);
    vstd::bits::lemma_u32_shr_is_div(a, 17);
}

/// The identity plus a shift, times a word, is the word with its shifted
/// self folded in.
pub proof fn lemma_fold_shift_matrix(k: int, x: u32)
    ensures
        is_matrix(fold_shift_matrix(k), 32),
        k >= 0 ==> mat_dot_vec(fold_shift_matrix(k), x as nat) == bit_xor(
            x as nat,
            shift_left(x as nat, k as nat, 32),
        ),
        k < 0 ==> mat_dot_vec(fold_shift_matrix(k), x as nat) == bit_xor(
            x as nat,
            shift_right(x as nat, (-k) as nat),
        ),
{
    lemma_pow2_values();
    lemma_mat_one_is_matrix(32);
    lemma_mat_shift_is_matrix(32, k);
    lemma_mat_add_is_matrix(mat_one(32), mat_shift(32, k), 32);
    lemma_dot_vec_of_sum(mat_one(32), mat_shift(32, k), x as nat, 32);
    lemma_dot_vec_one(x as nat, 32);
    lemma_dot_vec_of_shift(32, k, x as nat);
}

/// Power `n` of the matrix of SHR3 times a state is the state `n` steps on.
pub proof fn lemma_shr3_matrix_power(x: u32, n: nat)
    ensures
        mat_dot_vec(mat_pow(shr3_matrix_spec(), n), x as nat) == shr3_steps(x, n) as nat,
{
    let f = |y: nat| shr3_step(y as u32) as nat;
    lemma_pow2_values();
    assert forall|y: nat| y < pow2(32) implies #[trigger] mat_dot_vec(
        shr3_matrix_spec(),
        y,
    ) == f(y) by {
        lemma_shr3_matrix_steps(y as u32);
    }
    lemma_shr3_matrix_steps(x);
    lemma_dot_vec_of_pow_iterates(shr3_matrix_spec(), f, x as nat, n, 32);
    lemma_shr3_steps_iterate(x, n);
}

/// The steps of SHR3 are its step, iterated.
proof fn lemma_shr3_steps_iterate(x: u32, n: nat)
    ensures
        iterate(|y: nat| shr3_step(y as u32) as nat, x as nat, n) == shr3_steps(x, n) as nat,
    decreases n,
{
    if n > 0 {
        lemma_shr3_steps_iterate(x, (n - 1) as nat);
    }
}

/// A step of SHR3 never leads to the state zero from another state.
pub proof fn lemma_shr3_step_nonzero(x: u32)
    requires
        x != 0,
    ensures
        shr3_step(x) != 0,
{
    assert(x != 0 ==> shr3_step(x) != 0) by (bit_vector);
}

/// The generator SHR3: a 32-bit shift register with three shifts.
#[derive(Debug, PartialEq, Eq, Structural)]
pub struct SHR3 {
    shr3: u32,
}

/// The matrix of one step of SHR3, built from its three shifts.
pub fn shr3_matrix() -> (m: BitMatrix<u32, 32>)
    ensures
        m.wf(),
        m@ == shr3_matrix_spec(),
{
    proof {
        lemma_mat_shift_is_matrix(32, 13);
        lemma_mat_shift_is_matrix(32, -17);
        lemma_mat_shift_is_matrix(32, 5);
    }
    let a = BitMatrix::<u32, 32>::one() + BitMatrix::<u32, 32>::shift(13);
    let b = BitMatrix::<u32, 32>::one() + BitMatrix::<u32, 32>::shift(-17);
    let c = BitMatrix::<u32, 32>::one() + BitMatrix::<u32, 32>::shift(5);
    c * b * a
}

impl Clone for SHR3 {
    /// A copy of the generator, in the same state.
    fn clone(&self) -> (r: Self)
        ensures
            r == *self,
    {
        SHR3 { shr3: self.shr3 }
    }
}

impl SHR3 {
    /// The generator with the state `seed`. The seed 0, from which the
    /// generator would never move, is replaced by the word of all ones.
    pub fn new(seed: u32) -> (r: SHR3)
        ensures
            SHR3::valid(r.state()),
            r.state() == shr3_sanitised(seed),
    {
        if seed == 0 {
            SHR3 { shr3: 0xFFFF_FFFF }
        } else {
            SHR3 { shr3: seed }
        }
    }

    /// Makes one step and returns the new state as the next word of the
    /// stream.
    pub fn next_u32(&mut self) -> (r: u32)
        requires
            SHR3::valid(old(self).state()),
        ensures
            SHR3::valid(final(self).state()),
            final(self).state() == shr3_step(old(self).state()),
            r == final(self).state(),
    {
        proof {
            lemma_shr3_step_nonzero(self.shr3);
        }
        let mut shr3 = self.shr3;
        shr3 ^= shr3 << 13;
        shr3 ^= shr3 >> 17;
        shr3 ^= shr3 << 5;
        self.shr3 = shr3;
        shr3
    }
}

impl RngJumpAhead for SHR3 {
    type State = u32;

    closed spec fn state(&self) -> u32 {
        self.shr3
    }

    open spec fn valid(s: u32) -> bool {
        s != 0
    }

    open spec fn step(s: u32) -> u32 {
        shr3_step(s)
    }

    open spec fn steps(s: u32, n: nat) -> u32 {
        shr3_steps(s, n)
    }

    open spec fn jumped(s: u32, n: int) -> u32 {
        shr3_steps(s, (n % (SHR3_CYCLE_LEN as int)) as nat)
    }

    open spec fn exact_below() -> nat {
        SHR3_CYCLE_LEN as nat
    }

    open spec fn cycle_len() -> nat {
        SHR3_CYCLE_LEN as nat
    }

    proof fn lemma_steps(s: u32, n: nat) {
    }

    proof fn lemma_step_valid(s: u32) {
        lemma_shr3_step_nonzero(s);
    }

    proof fn lemma_exact_below() {
    }

    proof fn lemma_jump_is_steps(s: u32, n: nat) {
        lemma_small_mod(n, SHR3_CYCLE_LEN as nat);
    }

    proof fn lemma_jump_periodic(s: u32, n: int, k: int) {
        lemma_mod_whole_cycles(n, k, 1, SHR3_CYCLE_LEN as int);
        assert(1 * (SHR3_CYCLE_LEN as int) == SHR3_CYCLE_LEN);
    }

    fn jumpahead<N>(&mut self, n: N) where N: IntTypes
        ensures
            0 <= n.as_int() < SHR3_CYCLE_LEN ==> final(self).state() == shr3_steps(
                old(self).state(),
                n.as_int() as nat,
            ),
    {
        proof {
            if 0 <= n.as_int() < SHR3_CYCLE_LEN {
                lemma_small_mod(n.as_int() as nat, SHR3_CYCLE_LEN as nat);
            }
        }
        let count: u32 = modulo(n, SHR3_CYCLE_LEN);
        let matrix = shr3_matrix().pow(count);
        proof {
            lemma_shr3_matrix_power(self.shr3, count as nat);
            lemma_shr3_steps_valid(self.shr3, count as nat);
        }
        self.shr3 = matrix.dot_vec(self.shr3);
    }
}

/// Steps of SHR3 never lead to the state zero from another state.
pub proof fn lemma_shr3_steps_valid(x: u32, n: nat)
    requires
        x != 0,
    ensures
        shr3_steps(x, n) != 0,
    decreases n,
{
    if n > 0 {
        lemma_shr3_steps_valid(x, (n - 1) as nat);
        lemma_shr3_step_nonzero(shr3_steps(x, (n - 1) as nat));
    }
}

/// If the matrix of SHR3 has the order `SHR3_CYCLE_LEN`, a jump is exact
/// for every count: it leads where as many steps lead.
pub proof fn lemma_shr3_jump_exact(s: u32, n: nat)
    requires
        mat_pow(shr3_matrix_spec(), SHR3_CYCLE_LEN as nat) == mat_one(32),
    ensures
        SHR3::jumped(s, n as int) == shr3_steps(s, n),
{
    let p = SHR3_CYCLE_LEN as nat;
    let k = n / p;
    let r = n % p;
    lemma_shr3_matrix_steps(s);
    lemma_mat_pow_periodic(shr3_matrix_spec(), p, k, r, 32);
    vstd::arithmetic::div_mod::lemma_fundamental_div_mod(n as int, p as int);
    assert(k * p + r == n) by (nonlinear_arith)
        requires
            n == p * k + r,
    ;
    lemma_shr3_matrix_power(s, n);
    lemma_shr3_matrix_power(s, r);
}

/// Steps of SHR3 add up: `m` steps and then `n` steps are `m + n` steps.
pub proof fn lemma_shr3_steps_compose(x: u32, m: nat, n: nat)
    ensures
        shr3_steps(shr3_steps(x, m), n) == shr3_steps(x, m + n),
    decreases n,
{
    if n > 0 {
        lemma_shr3_steps_compose(x, m, (n - 1) as nat);
    }
}

/// If the matrix of SHR3 has the order `SHR3_CYCLE_LEN`, a jump back by `n`
/// steps is undone by `n` steps.
pub proof fn lemma_shr3_jump_back(s: u32, n: nat)
    requires
        mat_pow(shr3_matrix_spec(), SHR3_CYCLE_LEN as nat) == mat_one(32),
    ensures
        shr3_steps(SHR3::jumped(s, -(n as int)), n) == s,
{
    let p = SHR3_CYCLE_LEN as int;
    let back = ((-(n as int)) % p) as nat;
    vstd::arithmetic::div_mod::lemma_add_mod_noop(-(n as int), n as int, p);
    vstd::arithmetic::div_mod::lemma_mod_twice(n as int, p);
    vstd::arithmetic::div_mod::lemma_add_mod_noop_right((-(n as int)) % p, n as int, p);
    assert((back + n) % (p as nat) == 0);
    lemma_shr3_steps_compose(s, back, n);
    lemma_shr3_jump_exact(s, back + n);
    assert(shr3_steps(s, 0) == s);
}

} // verus!
