//! The combined Tausworthe generators LFSR88 and LFSR113.
//!
//! Each is made of three or four shift registers of 32 bits that run side
//! by side, and gives the exclusive-or of their words. A register with the
//! mask `mask` and the shifts `a`, `b` and `c` steps from `z` to
//! `((z & mask) << a) ^ (((z << b) ^ z) >> c)`, which is linear over GF(2).
//! A jump raises the matrix of that step to a power.

use vstd::prelude::*;
use vstd::arithmetic::div_mod::lemma_small_mod;
use vstd::arithmetic::power2::pow2;
use crate::arith::lemma_mod_whole_cycles;
use crate::bitmatrix::BitMatrix;
use crate::bits::lemma_pow2_values;
use crate::gf2::{
    is_matrix, iterate, lemma_dot_vec_compose, lemma_dot_vec_of_masked,
    lemma_dot_vec_of_pow_iterates, lemma_mat_pow_is_matrix, lemma_mat_pow_periodic_from_first,
    lemma_dot_vec_of_shift, lemma_dot_vec_of_shifted_left, lemma_dot_vec_of_shifted_right,
    lemma_dot_vec_of_sum, lemma_dot_vec_one, lemma_mat_add_is_matrix, lemma_mat_and_is_matrix,
    lemma_mat_one_is_matrix, lemma_mat_shift_is_matrix, lemma_mat_shl_is_matrix,
    lemma_mat_shr_is_matrix,
    mat_add, mat_and, mat_dot_vec, mat_mul, mat_one, mat_pow, mat_shift, mat_shl, mat_shr,
};
use crate::jump::RngJumpAhead;
use crate::math::{modulo, IntTypes};
use crate::uint::lemma_u32_shl;

verus! {

/// A shift register of a Tausworthe generator: the mask that picks the bits
/// of its state, and its three shifts.
#[derive(Clone, Copy, Debug, PartialEq, Eq, Structural)]
pub struct Register {
    /// The bits of the word that belong to the state.
    pub mask: u32,
    /// The shift of the masked word, to the left.
    pub a: u8,
    /// The shift that is folded into the word, to the left.
    pub b: u8,
    /// The shift of the folded word, to the right.
    pub c: u8,
}

impl Register {
    /// Whether every shift stays inside a word of 32 bits.
    pub open spec fn wf(self) -> bool {
        self.a < 32 && self.b < 32 && self.c < 32
    }

    /// One step of the register from `z`.
    pub open spec fn step(self, z: u32) -> u32 {
        ((z & self.mask) << self.a) ^ (((z << self.b) ^ z) >> self.c)
    }

    /// `n` steps of the register from `z`.
    pub open spec fn steps(self, z: u32, n: nat) -> u32
        decreases n,
    {
        if n == 0 {
            z
        } else {
            self.step(self.steps(z, (n - 1) as nat))
        }
    }

    /// The matrix of one step of the register.
    pub open spec fn matrix_spec(self) -> Seq<nat> {
        mat_add(
            mat_shl(mat_and(mat_one(32), self.mask as nat), self.a as nat),
            mat_shr(mat_add(mat_shift(32, self.b as int), mat_one(32)), self.c as nat),
        )
    }

    /// The matrix of one step of the register times a word is the next
    /// word.
    pub proof fn lemma_matrix_steps(self, z: u32)
        requires
            self.wf(),
        ensures
            is_matrix(self.matrix_spec(), 32),
            mat_dot_vec(self.matrix_spec(), z as nat) == self.step(z) as nat,
    {
        let one = mat_one(32);
        let masked = mat_and(one, self.mask as nat);
        let left = mat_shl(masked, self.a as nat);
        let folded = mat_add(mat_shift(32, self.b as int), one);
        let right = mat_shr(folded, self.c as nat);
        let x = z as nat;
        lemma_pow2_values();
        lemma_mat_one_is_matrix(32);
        lemma_mat_shift_is_matrix(32, self.b as int);
        lemma_mat_add_is_matrix(mat_shift(32, self.b as int), one, 32);
        // The left half: mask, then shift left.
        lemma_dot_vec_one(x, 32);
        lemma_dot_vec_of_masked(one, self.mask as nat, x, 32);
        lemma_mat_and_is_matrix(one, self.mask as nat, 32);
        lemma_dot_vec_of_shifted_left(masked, self.a as nat, x, 32);
        lemma_u32_shl(z & self.mask, self.a as u32);
        lemma_mat_shl_is_matrix(masked, self.a as nat, 32);
        // The right half: fold the shifted word in, then shift right.
        lemma_dot_vec_of_sum(mat_shift(32, self.b as int), one, x, 32);
        lemma_dot_vec_of_shift(32, self.b as int, x);
        lemma_u32_shl(z, self.b as u32);
        lemma_dot_vec_of_shifted_right(folded, self.c as nat, x, 32);
        vstd::bits::lemma_u32_shr_is_div((z << self.b) ^ z, self.c as u32);
        lemma_mat_shr_is_matrix(folded, self.c as nat, 32);
        // The two halves together.
        lemma_dot_vec_of_sum(left, right, x, 32);
        lemma_mat_add_is_matrix(left, right, 32);
    }

    /// Power `n` of the matrix of the register times a word is the word `n`
    /// steps on.
    pub proof fn lemma_matrix_power(self, z: u32, n: nat)
        requires
            self.wf(),
        ensures
            mat_dot_vec(mat_pow(self.matrix_spec(), n), z as nat) == self.steps(z, n) as nat,
    {
        let f = |y: nat| self.step(y as u32) as nat;
        lemma_pow2_values();
        assert forall|y: nat| y < pow2(32) implies #[trigger] mat_dot_vec(self.matrix_spec(), y)
            == f(y) by {
            self.lemma_matrix_steps(y as u32);
        }
        self.lemma_matrix_steps(z);
        lemma_dot_vec_of_pow_iterates(self.matrix_spec(), f, z as nat, n, 32);
        self.lemma_steps_iterate(z, n);
    }

    /// The steps of the register are its step, iterated.
    proof fn lemma_steps_iterate(self, z: u32, n: nat)
        ensures
            iterate(|y: nat| self.step(y as u32) as nat, z as nat, n) == self.steps(z, n) as nat,
        decreases n,
    {
        if n > 0 {
            self.lemma_steps_iterate(z, (n - 1) as nat);
        }
    }

    /// If power `p + 1` of the matrix of the register is that matrix, then
    /// after a first step the register is on a cycle of `p` steps: as many
    /// steps as a count and as many as its remainder modulo `p` lead from
    /// there to the same word.
    pub proof fn lemma_cycle_after_a_step(self, y: u32, n: nat, p: nat)
        requires
            self.wf(),
            p > 0,
            mat_pow(self.matrix_spec(), p + 1) == self.matrix_spec(),
        ensures
            self.steps(self.step(y), n) == self.steps(self.step(y), n % p),
    {
        let m = self.matrix_spec();
        let z = self.step(y);
        let k = n / p;
        let r = n % p;
        self.lemma_matrix_steps(y);
        self.lemma_matrix_power(z, n);
        self.lemma_matrix_power(z, r);
        // m^n * (m * y) is m^(n + 1) * y, and the same for r.
        lemma_mat_pow_is_matrix(m, n, 32);
        lemma_mat_pow_is_matrix(m, r, 32);
        lemma_dot_vec_compose(mat_pow(m, n), m, y as nat, 32);
        lemma_dot_vec_compose(mat_pow(m, r), m, y as nat, 32);
        assert(mat_pow(m, n + 1) == mat_mul(mat_pow(m, n), m));
        assert(mat_pow(m, r + 1) == mat_mul(mat_pow(m, r), m));
        vstd::arithmetic::div_mod::lemma_fundamental_div_mod(n as int, p as int);
        assert(k * p + (r + 1) == n + 1) by (nonlinear_arith)
            requires
                n == p * k + r,
        ;
        lemma_mat_pow_periodic_from_first(m, p, k, r + 1, 32);
    }

    /// The matrix of one step of the register, built from its mask and its
    /// shifts.
    pub fn matrix(self) -> (m: BitMatrix<u32, 32>)
        requires
            self.wf(),
        ensures
            m.wf(),
            m@ == self.matrix_spec(),
    {
        proof {
            lemma_mat_shift_is_matrix(32, self.b as int);
        }
        let one = BitMatrix::<u32, 32>::one();
        let left = (one.clone() & self.mask) << (self.a as usize);
        let right = (BitMatrix::<u32, 32>::shift(self.b as i8) + one) >> (self.c as usize);
        left + right
    }

    /// One step of the register from `z`.
    pub fn next(self, z: u32) -> (r: u32)
        requires
            self.wf(),
        ensures
            r == self.step(z),
    {
        ((z & self.mask) << self.a) ^ (((z << self.b) ^ z) >> self.c)
    }

    /// The word `count` steps on from `z`, by a power of the matrix of the
    /// register.
    pub fn jump(self, z: u32, count: u32) -> (r: u32)
        requires
            self.wf(),
        ensures
            r == self.steps(z, count as nat),
    {
        proof {
            self.lemma_matrix_power(z, count as nat);
        }
        self.matrix().pow(count).dot_vec(z)
    }
}

/// The word that a seed gives to a register whose state must be at least
/// `least`: the seed, or the inverted seed if the seed is too small.
pub open spec fn sanitised_word(seed: u32, least: u32) -> u32 {
    if seed < least {
        seed ^ 0xFFFF_FFFFu32
    } else {
        seed
    }
}

/// Inverts a seed that is smaller than `least`.
fn sanitise_word(seed: u32, least: u32) -> (r: u32)
    requires
        least <= 128,
    ensures
        r == sanitised_word(seed, least),
        r >= least,
{
    if seed < least {
        proof {
            assert(seed < 128u32 ==> (seed ^ 0xFFFF_FFFFu32) >= 128u32) by (bit_vector);
        }
        seed ^ 0xFFFF_FFFF
    } else {
        seed
    }
}

/// Register 1 of LFSR88.
pub open spec fn lfsr88_register_1() -> Register {
    Register { mask: 0xFFFF_FFFE, a: 12, b: 13, c: 19 }
}

/// Register 2 of LFSR88.
pub open spec fn lfsr88_register_2() -> Register {
    Register { mask: 0xFFFF_FFF8, a: 4, b: 2, c: 25 }
}

/// Register 3 of LFSR88.
pub open spec fn lfsr88_register_3() -> Register {
    Register { mask: 0xFFFF_FFF0, a: 17, b: 3, c: 11 }
}

/// The length of the cycle of register 1 of LFSR88: `2^31 - 1`.
pub const LFSR88_CYCLE_LEN_1: u32 = 0x7FFF_FFFF;

/// The length of the cycle of register 2 of LFSR88: `2^29 - 1`.
pub const LFSR88_CYCLE_LEN_2: u32 = 0x1FFF_FFFF;

/// The length of the cycle of register 3 of LFSR88: `2^28 - 1`.
pub const LFSR88_CYCLE_LEN_3: u32 = 0x0FFF_FFFF;

/// A state of LFSR88: the words of its registers.
pub type Lfsr88State = (u32, u32, u32);

/// Whether every register of a state holds a bit of its own: the bits
/// that the mask of a register leaves out do not count.
pub open spec fn lfsr88_valid(s: Lfsr88State) -> bool {
    &&& s.0 >= 2
    &&& s.1 >= 8
    &&& s.2 >= 16
}

/// One step of LFSR88: a step of each register.
pub open spec fn lfsr88_step(s: Lfsr88State) -> Lfsr88State {
    (
        lfsr88_register_1().step(s.0),
        lfsr88_register_2().step(s.1),
        lfsr88_register_3().step(s.2),
    )
}

/// `n` steps of LFSR88 from `s`.
pub open spec fn lfsr88_steps(s: Lfsr88State, n: nat) -> Lfsr88State
    decreases n,
{
    if n == 0 {
        s
    } else {
        lfsr88_step(lfsr88_steps(s, (n - 1) as nat))
    }
}

/// The state that a jump by `n` leads to: every register has made as many
/// steps as `n` reduced modulo the length of its cycle.
pub open spec fn lfsr88_jumped(s: Lfsr88State, n: int) -> Lfsr88State {
    (
        lfsr88_register_1().steps(s.0, (n % (LFSR88_CYCLE_LEN_1 as int)) as nat),
        lfsr88_register_2().steps(s.1, (n % (LFSR88_CYCLE_LEN_2 as int)) as nat),
        lfsr88_register_3().steps(s.2, (n % (LFSR88_CYCLE_LEN_3 as int)) as nat),
    )
}

/// The word that LFSR88 gives in the state `s`: the exclusive-or of the words
/// of its registers.
pub open spec fn lfsr88_output(s: Lfsr88State) -> u32 {
    s.0 ^ s.1 ^ s.2
}

/// The state that the seeds of LFSR88 give: a seed that holds no bit of its
/// register is inverted.
pub open spec fn lfsr88_sanitised(seed1: u32, seed2: u32, seed3: u32) -> Lfsr88State {
    (
        sanitised_word(seed1, 2),
        sanitised_word(seed2, 8),
        sanitised_word(seed3, 16),
    )
}

/// A step of LFSR88 leads from a valid state to a valid state.
pub proof fn lemma_lfsr88_step_valid(s: Lfsr88State)
    requires
        lfsr88_valid(s),
    ensures
        lfsr88_valid(lfsr88_step(s)),
{
    let z1 = s.0;
    assert(z1 >= 2u32 ==> (((z1 & 0xFFFF_FFFEu32) << 12u32) ^ (((z1 << 13u32) ^ z1) >> 19u32))
        >= 2u32) by (bit_vector);
    let z2 = s.1;
    assert(z2 >= 8u32 ==> (((z2 & 0xFFFF_FFF8u32) << 4u32) ^ (((z2 << 2u32) ^ z2) >> 25u32))
        >= 8u32) by (bit_vector);
    let z3 = s.2;
    assert(z3 >= 16u32 ==> (((z3 & 0xFFFF_FFF0u32) << 17u32) ^ (((z3 << 3u32) ^ z3) >> 11u32))
        >= 16u32) by (bit_vector);
}

/// The steps of LFSR88 are the steps of its registers, and they lead from a
/// valid state to a valid state.
pub proof fn lemma_lfsr88_steps(s: Lfsr88State, n: nat)
    requires
        lfsr88_valid(s),
    ensures
        lfsr88_valid(lfsr88_steps(s, n)),
        lfsr88_steps(s, n) == (
            lfsr88_register_1().steps(s.0, n),
            lfsr88_register_2().steps(s.1, n),
            lfsr88_register_3().steps(s.2, n),
        ),
    decreases n,
{
    if n > 0 {
        lemma_lfsr88_steps(s, (n - 1) as nat);
        lemma_lfsr88_step_valid(lfsr88_steps(s, (n - 1) as nat));
    }
}

/// A jump of LFSR88 leads from a valid state to a valid state.
pub proof fn lemma_lfsr88_jumped_valid(s: Lfsr88State, n: int)
    requires
        lfsr88_valid(s),
    ensures
        lfsr88_valid(lfsr88_jumped(s, n)),
{
    lemma_lfsr88_steps(s, (n % (LFSR88_CYCLE_LEN_1 as int)) as nat);
    lemma_lfsr88_steps(s, (n % (LFSR88_CYCLE_LEN_2 as int)) as nat);
    lemma_lfsr88_steps(s, (n % (LFSR88_CYCLE_LEN_3 as int)) as nat);
}

/// If the matrices of the registers of LFSR88 repeat after the lengths of
/// their cycles, a jump of LFSR88 from a state that a step has led to is
/// exact for every count: it leads where as many steps lead.
pub proof fn lemma_lfsr88_jump_exact(s: Lfsr88State, n: nat)
    requires
        lfsr88_valid(s),
        mat_pow(lfsr88_register_1().matrix_spec(), LFSR88_CYCLE_LEN_1 as nat + 1)
            == lfsr88_register_1().matrix_spec(),
        mat_pow(lfsr88_register_2().matrix_spec(), LFSR88_CYCLE_LEN_2 as nat + 1)
            == lfsr88_register_2().matrix_spec(),
        mat_pow(lfsr88_register_3().matrix_spec(), LFSR88_CYCLE_LEN_3 as nat + 1)
            == lfsr88_register_3().matrix_spec(),
    ensures
        lfsr88_jumped(lfsr88_step(s), n as int) == lfsr88_steps(lfsr88_step(s), n),
{
    lemma_lfsr88_step_valid(s);
    lemma_lfsr88_steps(lfsr88_step(s), n);
    lfsr88_register_1().lemma_cycle_after_a_step(s.0, n, LFSR88_CYCLE_LEN_1 as nat);
    lfsr88_register_2().lemma_cycle_after_a_step(s.1, n, LFSR88_CYCLE_LEN_2 as nat);
    lfsr88_register_3().lemma_cycle_after_a_step(s.2, n, LFSR88_CYCLE_LEN_3 as nat);
}

/// The generator LFSR88.
#[derive(Debug, PartialEq, Eq, Structural)]
pub struct LFSR88 {
    z1: u32,
    z2: u32,
    z3: u32,
}

impl Clone for LFSR88 {
    /// A copy of the generator, in the same state.
    fn clone(&self) -> (r: Self)
        ensures
            r == *self,
    {
        LFSR88 { z1: self.z1, z2: self.z2, z3: self.z3 }
    }
}

impl LFSR88 {
    /// The generator with its registers seeded by the seeds. A seed that
    /// holds no bit of its register, from which the register would never
    /// move, is inverted.
    pub fn new(seed1: u32, seed2: u32, seed3: u32) -> (r: LFSR88)
        ensures
            LFSR88::valid(r.state()),
            r.state() == lfsr88_sanitised(seed1, seed2, seed3),
    {
        LFSR88 {
            z1: sanitise_word(seed1, 2),
            z2: sanitise_word(seed2, 8),
            z3: sanitise_word(seed3, 16),
        }
    }

    /// Makes one step and returns the next word of the stream.
    pub fn next_u32(&mut self) -> (r: u32)
        requires
            LFSR88::valid(old(self).state()),
        ensures
            LFSR88::valid(final(self).state()),
            final(self).state() == lfsr88_step(old(self).state()),
            r == lfsr88_output(final(self).state()),
    {
        proof {
            lemma_lfsr88_step_valid((self.z1, self.z2, self.z3));
        }
        self.z1 = Register { mask: 0xFFFF_FFFE, a: 12, b: 13, c: 19 }.next(self.z1);
        self.z2 = Register { mask: 0xFFFF_FFF8, a: 4, b: 2, c: 25 }.next(self.z2);
        self.z3 = Register { mask: 0xFFFF_FFF0, a: 17, b: 3, c: 11 }.next(self.z3);
        self.z1 ^ self.z2 ^ self.z3
    }
}

impl RngJumpAhead for LFSR88 {
    type State = Lfsr88State;

    closed spec fn state(&self) -> Lfsr88State {
        (self.z1, self.z2, self.z3)
    }

    open spec fn valid(s: Lfsr88State) -> bool {
        lfsr88_valid(s)
    }

    open spec fn step(s: Lfsr88State) -> Lfsr88State {
        lfsr88_step(s)
    }

    open spec fn steps(s: Lfsr88State, n: nat) -> Lfsr88State {
        lfsr88_steps(s, n)
    }

    open spec fn jumped(s: Lfsr88State, n: int) -> Lfsr88State {
        lfsr88_jumped(s, n)
    }

    open spec fn exact_below() -> nat {
        LFSR88_CYCLE_LEN_3 as nat
    }

    open spec fn cycle_len() -> nat {
        LFSR88_CYCLE_LEN_1 as nat * LFSR88_CYCLE_LEN_2 as nat * LFSR88_CYCLE_LEN_3 as nat
    }

    proof fn lemma_steps(s: Lfsr88State, n: nat) {
    }

    proof fn lemma_step_valid(s: Lfsr88State) {
        lemma_lfsr88_step_valid(s);
    }

    proof fn lemma_exact_below() {
    }

    proof fn lemma_jump_is_steps(s: Lfsr88State, n: nat) {
        lemma_lfsr88_steps(s, n);
        lemma_small_mod(n, LFSR88_CYCLE_LEN_1 as nat);
        lemma_small_mod(n, LFSR88_CYCLE_LEN_2 as nat);
        lemma_small_mod(n, LFSR88_CYCLE_LEN_3 as nat);
    }

    proof fn lemma_jump_periodic(s: Lfsr88State, n: int, k: int) {
        let whole = Self::cycle_len() as int;
        let rest1 = (LFSR88_CYCLE_LEN_2 as int) * (LFSR88_CYCLE_LEN_3 as int);
        let rest2 = (LFSR88_CYCLE_LEN_1 as int) * (LFSR88_CYCLE_LEN_3 as int);
        let rest3 = (LFSR88_CYCLE_LEN_1 as int) * (LFSR88_CYCLE_LEN_2 as int);
        assert(whole > 0
            && k * whole == k * (rest1 * LFSR88_CYCLE_LEN_1)
            && k * whole == k * (rest2 * LFSR88_CYCLE_LEN_2)
            && k * whole == k * (rest3 * LFSR88_CYCLE_LEN_3))
            by (nonlinear_arith)
            requires
                whole == LFSR88_CYCLE_LEN_1 * LFSR88_CYCLE_LEN_2 * LFSR88_CYCLE_LEN_3,
                rest1 == LFSR88_CYCLE_LEN_2 * LFSR88_CYCLE_LEN_3,
                rest2 == LFSR88_CYCLE_LEN_1 * LFSR88_CYCLE_LEN_3,
                rest3 == LFSR88_CYCLE_LEN_1 * LFSR88_CYCLE_LEN_2,
        ;
        lemma_mod_whole_cycles(n, k, rest1, LFSR88_CYCLE_LEN_1 as int);
        lemma_mod_whole_cycles(n, k, rest2, LFSR88_CYCLE_LEN_2 as int);
        lemma_mod_whole_cycles(n, k, rest3, LFSR88_CYCLE_LEN_3 as int);
    }

    fn jumpahead<N>(&mut self, n: N) where N: IntTypes
        ensures
            0 <= n.as_int() < LFSR88_CYCLE_LEN_3 ==> final(self).state() == lfsr88_steps(
                old(self).state(),
                n.as_int() as nat,
            ),
    {
        proof {
            if 0 <= n.as_int() < LFSR88_CYCLE_LEN_3 {
                Self::lemma_jump_is_steps(self.state(), n.as_int() as nat);
            }
            lemma_lfsr88_jumped_valid((self.z1, self.z2, self.z3), n.as_int());
        }
        let count1: u32 = modulo(n, LFSR88_CYCLE_LEN_1);
        self.z1 = Register { mask: 0xFFFF_FFFE, a: 12, b: 13, c: 19 }.jump(self.z1, count1);
        let count2: u32 = modulo(n, LFSR88_CYCLE_LEN_2);
        self.z2 = Register { mask: 0xFFFF_FFF8, a: 4, b: 2, c: 25 }.jump(self.z2, count2);
        let count3: u32 = modulo(n, LFSR88_CYCLE_LEN_3);
        self.z3 = Register { mask: 0xFFFF_FFF0, a: 17, b: 3, c: 11 }.jump(self.z3, count3);
    }
}

/// Register 1 of LFSR113.
pub open spec fn lfsr113_register_1() -> Register {
    Register { mask: 0xFFFF_FFFE, a: 18, b: 6, c: 13 }
}

/// Register 2 of LFSR113.
pub open spec fn lfsr113_register_2() -> Register {
    Register { mask: 0xFFFF_FFF8, a: 2, b: 2, c: 27 }
}

/// Register 3 of LFSR113.
pub open spec fn lfsr113_register_3() -> Register {
    Register { mask: 0xFFFF_FFF0, a: 7, b: 13, c: 21 }
}

/// Register 4 of LFSR113.
pub open spec fn lfsr113_register_4() -> Register {
    Register { mask: 0xFFFF_FF80, a: 13, b: 3, c: 12 }
}

/// The length of the cycle of register 1 of LFSR113: `2^31 - 1`.
pub const LFSR113_CYCLE_LEN_1: u32 = 0x7FFF_FFFF;

/// The length of the cycle of register 2 of LFSR113: `2^29 - 1`.
pub const LFSR113_CYCLE_LEN_2: u32 = 0x1FFF_FFFF;

/// The length of the cycle of register 3 of LFSR113: `2^28 - 1`.
pub const LFSR113_CYCLE_LEN_3: u32 = 0x0FFF_FFFF;

/// The length of the cycle of register 4 of LFSR113: `2^25 - 1`.
pub const LFSR113_CYCLE_LEN_4: u32 = 0x01FF_FFFF;

/// A state of LFSR113: the words of its registers.
pub type Lfsr113State = (u32, u32, u32, u32);

/// Whether every register of a state holds a bit of its own: the bits
/// that the mask of a register leaves out do not count.
pub open spec fn lfsr113_valid(s: Lfsr113State) -> bool {
    &&& s.0 >= 2
    &&& s.1 >= 8
    &&& s.2 >= 16
    &&& s.3 >= 128
}

/// One step of LFSR113: a step of each register.
pub open spec fn lfsr113_step(s: Lfsr113State) -> Lfsr113State {
    (
        lfsr113_register_1().step(s.0),
        lfsr113_register_2().step(s.1),
        lfsr113_register_3().step(s.2),
        lfsr113_register_4().step(s.3),
    )
}

/// `n` steps of LFSR113 from `s`.
pub open spec fn lfsr113_steps(s: Lfsr113State, n: nat) -> Lfsr113State
    decreases n,
{
    if n == 0 {
        s
    } else {
        lfsr113_step(lfsr113_steps(s, (n - 1) as nat))
    }
}

/// The state that a jump by `n` leads to: every register has made as many
/// steps as `n` reduced modulo the length of its cycle.
pub open spec fn lfsr113_jumped(s: Lfsr113State, n: int) -> Lfsr113State {
    (
        lfsr113_register_1().steps(s.0, (n % (LFSR113_CYCLE_LEN_1 as int)) as nat),
        lfsr113_register_2().steps(s.1, (n % (LFSR113_CYCLE_LEN_2 as int)) as nat),
        lfsr113_register_3().steps(s.2, (n % (LFSR113_CYCLE_LEN_3 as int)) as nat),
        lfsr113_register_4().steps(s.3, (n % (LFSR113_CYCLE_LEN_4 as int)) as nat),
    )
}

/// The word that LFSR113 gives in the state `s`: the exclusive-or of the words
/// of its registers.
pub open spec fn lfsr113_output(s: Lfsr113State) -> u32 {
    s.0 ^ s.1 ^ s.2 ^ s.3
}

/// The state that the seeds of LFSR113 give: a seed that holds no bit of its
/// register is inverted.
pub open spec fn lfsr113_sanitised(seed1: u32, seed2: u32, seed3: u32, seed4: u32) -> Lfsr113State {
    (
        sanitised_word(seed1, 2),
        sanitised_word(seed2, 8),
        sanitised_word(seed3, 16),
        sanitised_word(seed4, 128),
    )
}

/// A step of LFSR113 leads from a valid state to a valid state.
pub proof fn lemma_lfsr113_step_valid(s: Lfsr113State)
    requires
        lfsr113_valid(s),
    ensures
        lfsr113_valid(lfsr113_step(s)),
{
    let z1 = s.0;
    assert(z1 >= 2u32 ==> (((z1 & 0xFFFF_FFFEu32) << 18u32) ^ (((z1 << 6u32) ^ z1) >> 13u32))
        >= 2u32) by (bit_vector);
    let z2 = s.1;
    assert(z2 >= 8u32 ==> (((z2 & 0xFFFF_FFF8u32) << 2u32) ^ (((z2 << 2u32) ^ z2) >> 27u32))
        >= 8u32) by (bit_vector);
    let z3 = s.2;
    assert(z3 >= 16u32 ==> (((z3 & 0xFFFF_FFF0u32) << 7u32) ^ (((z3 << 13u32) ^ z3) >> 21u32))
        >= 16u32) by (bit_vector);
    let z4 = s.3;
    assert(z4 >= 128u32 ==> (((z4 & 0xFFFF_FF80u32) << 13u32) ^ (((z4 << 3u32) ^ z4) >> 12u32))
        >= 128u32) by (bit_vector);
}

/// The steps of LFSR113 are the steps of its registers, and they lead from a
/// valid state to a valid state.
pub proof fn lemma_lfsr113_steps(s: Lfsr113State, n: nat)
    requires
        lfsr113_valid(s),
    ensures
        lfsr113_valid(lfsr113_steps(s, n)),
        lfsr113_steps(s, n) == (
            lfsr113_register_1().steps(s.0, n),
            lfsr113_register_2().steps(s.1, n),
            lfsr113_register_3().steps(s.2, n),
            lfsr113_register_4().steps(s.3, n),
        ),
    decreases n,
{
    if n > 0 {
        lemma_lfsr113_steps(s, (n - 1) as nat);
        lemma_lfsr113_step_valid(lfsr113_steps(s, (n - 1) as nat));
    }
}

/// A jump of LFSR113 leads from a valid state to a valid state.
pub proof fn lemma_lfsr113_jumped_valid(s: Lfsr113State, n: int)
    requires
        lfsr113_valid(s),
    ensures
        lfsr113_valid(lfsr113_jumped(s, n)),
{
    lemma_lfsr113_steps(s, (n % (LFSR113_CYCLE_LEN_1 as int)) as nat);
    lemma_lfsr113_steps(s, (n % (LFSR113_CYCLE_LEN_2 as int)) as nat);
    lemma_lfsr113_steps(s, (n % (LFSR113_CYCLE_LEN_3 as int)) as nat);
    lemma_lfsr113_steps(s, (n % (LFSR113_CYCLE_LEN_4 as int)) as nat);
}

/// If the matrices of the registers of LFSR113 repeat after the lengths of
/// their cycles, a jump of LFSR113 from a state that a step has led to is
/// exact for every count: it leads where as many steps lead.
pub proof fn lemma_lfsr113_jump_exact(s: Lfsr113State, n: nat)
    requires
        lfsr113_valid(s),
        mat_pow(lfsr113_register_1().matrix_spec(), LFSR113_CYCLE_LEN_1 as nat + 1)
            == lfsr113_register_1().matrix_spec(),
        mat_pow(lfsr113_register_2().matrix_spec(), LFSR113_CYCLE_LEN_2 as nat + 1)
            == lfsr113_register_2().matrix_spec(),
        mat_pow(lfsr113_register_3().matrix_spec(), LFSR113_CYCLE_LEN_3 as nat + 1)
            == lfsr113_register_3().matrix_spec(),
        mat_pow(lfsr113_register_4().matrix_spec(), LFSR113_CYCLE_LEN_4 as nat + 1)
            == lfsr113_register_4().matrix_spec(),
    ensures
        lfsr113_jumped(lfsr113_step(s), n as int) == lfsr113_steps(lfsr113_step(s), n),
{
    lemma_lfsr113_step_valid(s);
    lemma_lfsr113_steps(lfsr113_step(s), n);
    lfsr113_register_1().lemma_cycle_after_a_step(s.0, n, LFSR113_CYCLE_LEN_1 as nat);
    lfsr113_register_2().lemma_cycle_after_a_step(s.1, n, LFSR113_CYCLE_LEN_2 as nat);
    lfsr113_register_3().lemma_cycle_after_a_step(s.2, n, LFSR113_CYCLE_LEN_3 as nat);
    lfsr113_register_4().lemma_cycle_after_a_step(s.3, n, LFSR113_CYCLE_LEN_4 as nat);
}

/// The generator LFSR113.
#[derive(Debug, PartialEq, Eq, Structural)]
pub struct LFSR113 {
    z1: u32,
    z2: u32,
    z3: u32,
    z4: u32,
}

impl Clone for LFSR113 {
    /// A copy of the generator, in the same state.
    fn clone(&self) -> (r: Self)
        ensures
            r == *self,
    {
        LFSR113 { z1: self.z1, z2: self.z2, z3: self.z3, z4: self.z4 }
    }
}

impl LFSR113 {
    /// The generator with its registers seeded by the seeds. A seed that
    /// holds no bit of its register, from which the register would never
    /// move, is inverted.
    pub fn new(seed1: u32, seed2: u32, seed3: u32, seed4: u32) -> (r: LFSR113)
        ensures
            LFSR113::valid(r.state()),
            r.state() == lfsr113_sanitised(seed1, seed2, seed3, seed4),
    {
        LFSR113 {
            z1: sanitise_word(seed1, 2),
            z2: sanitise_word(seed2, 8),
            z3: sanitise_word(seed3, 16),
            z4: sanitise_word(seed4, 128),
        }
    }

    /// Makes one step and returns the next word of the stream.
    pub fn next_u32(&mut self) -> (r: u32)
        requires
            LFSR113::valid(old(self).state()),
        ensures
            LFSR113::valid(final(self).state()),
            final(self).state() == lfsr113_step(old(self).state()),
            r == lfsr113_output(final(self).state()),
    {
        proof {
            lemma_lfsr113_step_valid((self.z1, self.z2, self.z3, self.z4));
        }
        self.z1 = Register { mask: 0xFFFF_FFFE, a: 18, b: 6, c: 13 }.next(self.z1);
        self.z2 = Register { mask: 0xFFFF_FFF8, a: 2, b: 2, c: 27 }.next(self.z2);
        self.z3 = Register { mask: 0xFFFF_FFF0, a: 7, b: 13, c: 21 }.next(self.z3);
        self.z4 = Register { mask: 0xFFFF_FF80, a: 13, b: 3, c: 12 }.next(self.z4);
        self.z1 ^ self.z2 ^ self.z3 ^ self.z4
    }
}

impl RngJumpAhead for LFSR113 {
    type State = Lfsr113State;

    closed spec fn state(&self) -> Lfsr113State {
        (self.z1, self.z2, self.z3, self.z4)
    }

    open spec fn valid(s: Lfsr113State) -> bool {
        lfsr113_valid(s)
    }

    open spec fn step(s: Lfsr113State) -> Lfsr113State {
        lfsr113_step(s)
    }

    open spec fn steps(s: Lfsr113State, n: nat) -> Lfsr113State {
        lfsr113_steps(s, n)
    }

    open spec fn jumped(s: Lfsr113State, n: int) -> Lfsr113State {
        lfsr113_jumped(s, n)
    }

    open spec fn exact_below() -> nat {
        LFSR113_CYCLE_LEN_4 as nat
    }

    open spec fn cycle_len() -> nat {
        LFSR113_CYCLE_LEN_1 as nat * LFSR113_CYCLE_LEN_2 as nat * LFSR113_CYCLE_LEN_3 as nat
            * LFSR113_CYCLE_LEN_4 as nat
    }

    proof fn lemma_steps(s: Lfsr113State, n: nat) {
    }

    proof fn lemma_step_valid(s: Lfsr113State) {
        lemma_lfsr113_step_valid(s);
    }

    proof fn lemma_exact_below() {
    }

    proof fn lemma_jump_is_steps(s: Lfsr113State, n: nat) {
        lemma_lfsr113_steps(s, n);
        lemma_small_mod(n, LFSR113_CYCLE_LEN_1 as nat);
        lemma_small_mod(n, LFSR113_CYCLE_LEN_2 as nat);
        lemma_small_mod(n, LFSR113_CYCLE_LEN_3 as nat);
        lemma_small_mod(n, LFSR113_CYCLE_LEN_4 as nat);
    }

    proof fn lemma_jump_periodic(s: Lfsr113State, n: int, k: int) {
        let whole = Self::cycle_len() as int;
        let rest1 = (LFSR113_CYCLE_LEN_2 as int) * (LFSR113_CYCLE_LEN_3 as int)
            * (LFSR113_CYCLE_LEN_4 as int);
        let rest2 = (LFSR113_CYCLE_LEN_1 as int) * (LFSR113_CYCLE_LEN_3 as int)
            * (LFSR113_CYCLE_LEN_4 as int);
        let rest3 = (LFSR113_CYCLE_LEN_1 as int) * (LFSR113_CYCLE_LEN_2 as int)
            * (LFSR113_CYCLE_LEN_4 as int);
        let rest4 = (LFSR113_CYCLE_LEN_1 as int) * (LFSR113_CYCLE_LEN_2 as int)
            * (LFSR113_CYCLE_LEN_3 as int);
        assert(whole > 0
            && k * whole == k * (rest1 * LFSR113_CYCLE_LEN_1)
            && k * whole == k * (rest2 * LFSR113_CYCLE_LEN_2)
            && k * whole == k * (rest3 * LFSR113_CYCLE_LEN_3)
            && k * whole == k * (rest4 * LFSR113_CYCLE_LEN_4))
            by (nonlinear_arith)
            requires
                whole == LFSR113_CYCLE_LEN_1 * LFSR113_CYCLE_LEN_2 * LFSR113_CYCLE_LEN_3
                    * LFSR113_CYCLE_LEN_4,
                rest1 == LFSR113_CYCLE_LEN_2 * LFSR113_CYCLE_LEN_3 * LFSR113_CYCLE_LEN_4,
                rest2 == LFSR113_CYCLE_LEN_1 * LFSR113_CYCLE_LEN_3 * LFSR113_CYCLE_LEN_4,
                rest3 == LFSR113_CYCLE_LEN_1 * LFSR113_CYCLE_LEN_2 * LFSR113_CYCLE_LEN_4,
                rest4 == LFSR113_CYCLE_LEN_1 * LFSR113_CYCLE_LEN_2 * LFSR113_CYCLE_LEN_3,
        ;
        lemma_mod_whole_cycles(n, k, rest1, LFSR113_CYCLE_LEN_1 as int);
        lemma_mod_whole_cycles(n, k, rest2, LFSR113_CYCLE_LEN_2 as int);
        lemma_mod_whole_cycles(n, k, rest3, LFSR113_CYCLE_LEN_3 as int);
        lemma_mod_whole_cycles(n, k, rest4, LFSR113_CYCLE_LEN_4 as int);
    }

    fn jumpahead<N>(&mut self, n: N) where N: IntTypes
        ensures
            0 <= n.as_int() < LFSR113_CYCLE_LEN_4 ==> final(self).state() == lfsr113_steps(
                old(self).state(),
                n.as_int() as nat,
            ),
    {
        proof {
            if 0 <= n.as_int() < LFSR113_CYCLE_LEN_4 {
                Self::lemma_jump_is_steps(self.state(), n.as_int() as nat);
            }
            lemma_lfsr113_jumped_valid((self.z1, self.z2, self.z3, self.z4), n.as_int());
        }
        let count1: u32 = modulo(n, LFSR113_CYCLE_LEN_1);
        self.z1 = Register { mask: 0xFFFF_FFFE, a: 18, b: 6, c: 13 }.jump(self.z1, count1);
        let count2: u32 = modulo(n, LFSR113_CYCLE_LEN_2);
        self.z2 = Register { mask: 0xFFFF_FFF8, a: 2, b: 2, c: 27 }.jump(self.z2, count2);
        let count3: u32 = modulo(n, LFSR113_CYCLE_LEN_3);
        self.z3 = Register { mask: 0xFFFF_FFF0, a: 7, b: 13, c: 21 }.jump(self.z3, count3);
        let count4: u32 = modulo(n, LFSR113_CYCLE_LEN_4);
        self.z4 = Register { mask: 0xFFFF_FF80, a: 13, b: 3, c: 12 }.jump(self.z4, count4);
    }
}

} // verus!
