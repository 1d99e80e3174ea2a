//! The multiply-with-carry generators MWC1, MWC2 and MWC64.
//!
//! A multiply-with-carry step splits the state `x` at a base `b` into its
//! low part `x % b` and its carry `x / b`, and makes `a * (x % b) + x / b` of
//! them. On the states strictly between 0 and `m = a * b - 1` this is the
//! multiplication by `a` modulo `m`, so `n` steps multiply by `a^n` modulo
//! `m`, which a jump computes directly.

use vstd::prelude::*;
use vstd::arithmetic::div_mod::{
    lemma_fundamental_div_mod, lemma_fundamental_div_mod_converse, lemma_mod_twice,
    lemma_small_mod,
};
use vstd::arithmetic::power::{lemma_pow0, lemma_pow1, lemma_pow_adds, pow};
use crate::arith::{lemma_add_mod_noop_left, lemma_congruent_product, lemma_mod_whole_cycles};
use crate::bits::lemma_wrapped_sum;
use crate::jump::RngJumpAhead;
use crate::math::{modulo, mul_mod, pow_mod, IntTypes};
use crate::orders::{lemma_mwc64_jump_exact, lemma_mwc_pair_jump_exact};

verus! {

/// The multiplier of the upper half of MWC1 and MWC2.
pub const MWC_UPPER_MULT: u32 = 36969;

/// The multiplier of the lower half of MWC1 and MWC2.
pub const MWC_LOWER_MULT: u32 = 18000;

/// The modulus of the upper half: `36969 * 2^16 - 1`.
pub const MWC_UPPER_MODULO: u32 = 0x9068_FFFF;

/// The modulus of the lower half: `18000 * 2^16 - 1`.
pub const MWC_LOWER_MODULO: u32 = 0x464F_FFFF;

/// The length of the cycle of the upper half: `36969 * 2^15 - 1`.
pub const MWC_UPPER_CYCLE_LEN: u32 = 0x4834_7FFF;

/// The length of the cycle of the lower half: `18000 * 2^15 - 1`.
pub const MWC_LOWER_CYCLE_LEN: u32 = 0x2327_FFFF;

/// The multiplier of MWC64.
pub const MWC64_MULT: u64 = 698769069;

/// The modulus of MWC64: `698769069 * 2^32 - 1`.
pub const MWC64_MODULO: u64 = 0x29A6_5EAC_FFFF_FFFF;

/// The length of the cycle of MWC64: `698769069 * 2^31 - 1`.
pub const MWC64_CYCLE_LEN: u64 = 0x14D3_2F56_7FFF_FFFF;

/// One multiply-with-carry step with the multiplier `a` and the base `b`.
pub open spec fn mwc_step(a: nat, b: nat, x: nat) -> nat {
    a * (x % b) + x / b
}

/// `n` multiply-with-carry steps from `x`.
pub open spec fn mwc_steps(a: nat, b: nat, x: nat, n: nat) -> nat
    decreases n,
{
    if n == 0 {
        x
    } else {
        mwc_step(a, b, mwc_steps(a, b, x, (n - 1) as nat))
    }
}

/// On the states strictly between 0 and `m = a * b - 1`, a
/// multiply-with-carry step is the multiplication by `a` modulo `m`, and it
/// leads to such a state again.
pub proof fn lemma_mwc_step(a: nat, b: nat, x: nat)
    requires
        a >= 1,
        b >= 2,
        0 < x < a * b - 1,
    ensures
        0 < mwc_step(a, b, x) < a * b - 1,
        mwc_step(a, b, x) == (a * x) as int % (a * b - 1),
{
    let q = x / b;
    let r = x % b;
    let m = a * b - 1;
    let y = a * r + q;
    lemma_fundamental_div_mod(x as int, b as int);
    assert(q < a) by (nonlinear_arith)
        requires
            x == b * q + r,
            0 <= r,
            x < a * b,
            b >= 2,
    ;
    assert(0 < y) by (nonlinear_arith)
        requires
            y == a * r + q,
            x == b * q + r,
            x > 0,
            a >= 1,
            0 <= r,
            0 <= q,
    ;
    assert(y < m) by (nonlinear_arith)
        requires
            y == a * r + q,
            x == b * q + r,
            x < a * b - 1,
            m == a * b - 1,
            0 <= r < b,
            0 <= q < a,
            a >= 1,
    ;
    assert(a * x == q * m + y) by (nonlinear_arith)
        requires
            y == a * r + q,
            x == b * q + r,
            m == a * b - 1,
    ;
    lemma_fundamental_div_mod_converse((a * x) as int, m as int, q as int, y as int);
}

/// On the states strictly between 0 and `m = a * b - 1`, `n`
/// multiply-with-carry steps are the multiplication by `a^n` modulo `m`,
/// and they lead to such a state again.
pub proof fn lemma_mwc_steps(a: nat, b: nat, x: nat, n: nat)
    requires
        a >= 1,
        b >= 2,
        0 < x < a * b - 1,
    ensures
        0 < mwc_steps(a, b, x, n) < a * b - 1,
        mwc_steps(a, b, x, n) == (pow(a as int, n) * x) % (a * b - 1),
    decreases n,
{
    let m = (a * b - 1) as int;
    if n == 0 {
        lemma_pow0(a as int);
        assert(1 * x == x);
        lemma_small_mod(x, m as nat);
    } else {
        let p = (n - 1) as nat;
        let before = mwc_steps(a, b, x, p);
        lemma_mwc_steps(a, b, x, p);
        lemma_mwc_step(a, b, before);
        lemma_mod_twice(pow(a as int, p) * x, m);
        lemma_congruent_product(a as int, a as int, before as int, pow(a as int, p) * x, m);
        lemma_pow_adds(a as int, 1, p);
        lemma_pow1(a as int);
        assert(a * (pow(a as int, p) * x) == pow(a as int, n) * x) by (nonlinear_arith)
            requires
                pow(a as int, n) == a * pow(a as int, p),
        ;
    }
}

/// A state of MWC1 or MWC2: the upper half and the lower half.
pub type MwcState = (u32, u32);

/// Whether the halves of a state lie strictly between 0 and their moduli.
pub open spec fn mwc_valid(s: MwcState) -> bool {
    &&& 0 < s.0 < MWC_UPPER_MODULO
    &&& 0 < s.1 < MWC_LOWER_MODULO
}

/// One step of a 16-bit multiply-with-carry half, on machine words.
pub open spec fn mwc16_step(mult: u32, x: u32) -> u32 {
    mwc_step(mult as nat, 0x1_0000, x as nat) as u32
}

/// One step of MWC1 and MWC2: a step of each half.
pub open spec fn mwc_pair_step(s: MwcState) -> MwcState {
    (mwc16_step(MWC_UPPER_MULT, s.0), mwc16_step(MWC_LOWER_MULT, s.1))
}

/// `n` steps of MWC1 and MWC2 from `s`.
pub open spec fn mwc_pair_steps(s: MwcState, n: nat) -> MwcState
    decreases n,
{
    if n == 0 {
        s
    } else {
        mwc_pair_step(mwc_pair_steps(s, (n - 1) as nat))
    }
}

/// The state that a jump by `n` leads to: the upper half multiplied by
/// `36969^k` and the lower half by `18000^l`, modulo their moduli, where `k`
/// and `l` are `n` reduced modulo the lengths of the cycles of the halves.
pub open spec fn mwc_pair_jumped(s: MwcState, n: int) -> MwcState {
    let k = (n % (MWC_UPPER_CYCLE_LEN as int)) as nat;
    let l = (n % (MWC_LOWER_CYCLE_LEN as int)) as nat;
    let upper = (pow(MWC_UPPER_MULT as int, k) * s.0) % (MWC_UPPER_MODULO as int);
    let lower = (pow(MWC_LOWER_MULT as int, l) * s.1) % (MWC_LOWER_MODULO as int);
    (upper as u32, lower as u32)
}

/// A count that jumps by whole cycles of both halves: the product of the
/// lengths of their cycles.
pub open spec fn mwc_pair_cycle_len() -> nat {
    MWC_UPPER_CYCLE_LEN as nat * MWC_LOWER_CYCLE_LEN as nat
}

/// Whole cycles of both halves make no difference to a jump of MWC1 and
/// MWC2.
pub proof fn lemma_mwc_pair_jump_periodic(s: MwcState, n: int, k: int)
    ensures
        mwc_pair_cycle_len() > 0,
        mwc_pair_jumped(s, n + k * mwc_pair_cycle_len()) == mwc_pair_jumped(s, n),
{
    let cu = MWC_UPPER_CYCLE_LEN as int;
    let cl = MWC_LOWER_CYCLE_LEN as int;
    assert(mwc_pair_cycle_len() == cl * cu && mwc_pair_cycle_len() == cu * cl
        && mwc_pair_cycle_len() > 0) by (nonlinear_arith)
        requires
            mwc_pair_cycle_len() == cu * cl,
            cu > 0,
            cl > 0,
    ;
    lemma_mod_whole_cycles(n, k, cl, cu);
    lemma_mod_whole_cycles(n, k, cu, cl);
}

/// The word that MWC1 gives in the state `s`: the upper half moved up by
/// 16 bits, plus the lower half, modulo `2^32`.
pub open spec fn mwc1_output(s: MwcState) -> u32 {
    ((s.0 as nat * 0x1_0000 + s.1 as nat) % 0x1_0000_0000) as u32
}

/// The word that MWC2 gives in the state `s`: the upper half moved up by
/// 16 bits, plus its own top 16 bits, plus the lower half, modulo `2^32`.
pub open spec fn mwc2_output(s: MwcState) -> u32 {
    ((s.0 as nat * 0x1_0000 + s.0 as nat / 0x1_0000 + s.1 as nat) % 0x1_0000_0000) as u32
}

/// The steps of a valid state of MWC1 and MWC2 are valid, and each half has
/// made its own steps.
pub proof fn lemma_mwc_pair_steps(s: MwcState, n: nat)
    requires
        mwc_valid(s),
    ensures
        mwc_valid(mwc_pair_steps(s, n)),
        mwc_pair_steps(s, n).0 == mwc_steps(MWC_UPPER_MULT as nat, 0x1_0000, s.0 as nat, n),
        mwc_pair_steps(s, n).1 == mwc_steps(MWC_LOWER_MULT as nat, 0x1_0000, s.1 as nat, n),
    decreases n,
{
    lemma_mwc_steps(MWC_UPPER_MULT as nat, 0x1_0000, s.0 as nat, n);
    lemma_mwc_steps(MWC_LOWER_MULT as nat, 0x1_0000, s.1 as nat, n);
    if n > 0 {
        lemma_mwc_pair_steps(s, (n - 1) as nat);
    }
}

/// A step of MWC1 and MWC2 leads from a valid state to a valid state.
pub proof fn lemma_mwc_pair_step_valid(s: MwcState)
    requires
        mwc_valid(s),
    ensures
        mwc_valid(mwc_pair_step(s)),
{
    lemma_mwc_step(MWC_UPPER_MULT as nat, 0x1_0000, s.0 as nat);
    lemma_mwc_step(MWC_LOWER_MULT as nat, 0x1_0000, s.1 as nat);
}

/// A jump of MWC1 and MWC2 by `n` leads where `n` steps lead, for every `n`
/// below the lengths of the cycles of both halves.
pub proof fn lemma_mwc_pair_jump_is_steps(s: MwcState, n: nat)
    requires
        mwc_valid(s),
        n < MWC_LOWER_CYCLE_LEN,
    ensures
        mwc_pair_jumped(s, n as int) == mwc_pair_steps(s, n),
{
    lemma_mwc_pair_steps(s, n);
    lemma_mwc_steps(MWC_UPPER_MULT as nat, 0x1_0000, s.0 as nat, n);
    lemma_mwc_steps(MWC_LOWER_MULT as nat, 0x1_0000, s.1 as nat, n);
    lemma_small_mod(n, MWC_UPPER_CYCLE_LEN as nat);
    lemma_small_mod(n, MWC_LOWER_CYCLE_LEN as nat);
}

/// A jump of MWC1 and MWC2 leads from a valid state to a valid state.
pub proof fn lemma_mwc_pair_jumped_valid(s: MwcState, n: int)
    requires
        mwc_valid(s),
    ensures
        mwc_valid(mwc_pair_jumped(s, n)),
{
    lemma_mwc_steps(
        MWC_UPPER_MULT as nat,
        0x1_0000,
        s.0 as nat,
        (n % (MWC_UPPER_CYCLE_LEN as int)) as nat,
    );
    lemma_mwc_steps(
        MWC_LOWER_MULT as nat,
        0x1_0000,
        s.1 as nat,
        (n % (MWC_LOWER_CYCLE_LEN as int)) as nat,
    );
}

/// The seed of a half, turned into a state strictly between 0 and the
/// modulus: it is reduced modulo the modulus, and if that gives 0, the
/// inverted seed is reduced.
fn sanitise_half(seed: u32, modulus: u32) -> (r: u32)
    requires
        modulus == MWC_UPPER_MODULO || modulus == MWC_LOWER_MODULO,
    ensures
        0 < r < modulus,
        r == mwc_sanitised(seed, modulus),
{
    let reduced = seed % modulus;
    if reduced == 0 {
        proof {
            assert(seed % 0x9068_FFFFu32 == 0 ==> (seed ^ 0xFFFF_FFFFu32) % 0x9068_FFFFu32 != 0)
                by (bit_vector);
            assert(seed % 0x464F_FFFFu32 == 0 ==> (seed ^ 0xFFFF_FFFFu32) % 0x464F_FFFFu32 != 0)
                by (bit_vector);
        }
        (seed ^ 0xFFFF_FFFF) % modulus
    } else {
        reduced
    }
}

/// The state that the seed of a half gives.
pub open spec fn mwc_sanitised(seed: u32, modulus: u32) -> u32 {
    if seed % modulus == 0 {
        (seed ^ 0xFFFF_FFFFu32) % modulus
    } else {
        seed % modulus
    }
}

/// One step of a 16-bit multiply-with-carry half.
fn step_half(x: u32, mult: u32) -> (r: u32)
    requires
        mult <= 0xFFFF,
    ensures
        r == mwc16_step(mult, x),
{
    proof {
        assert(x & 0xFFFF == x % 0x1_0000 && x >> 16 == x / 0x1_0000) by (bit_vector);
        assert(mult * (x & 0xFFFF) <= 0xFFFF * 0xFFFF) by (nonlinear_arith)
            requires
                mult <= 0xFFFF,
                (x & 0xFFFF) <= 0xFFFF,
        ;
    }
    mult * (x & 0xFFFF) + (x >> 16)
}

/// A half after a jump by `count` steps: the state times `mult^count`
/// modulo the modulus.
fn jump_half(x: u32, mult: u32, modulus: u32, count: u32) -> (r: u32)
    requires
        modulus > 0,
    ensures
        r == (pow(mult as int, count as nat) * x) % (modulus as int),
{
    let factor = pow_mod(mult, count, modulus);
    proof {
        let m = modulus as int;
        let p = pow(mult as int, count as nat);
        lemma_mod_twice(p, m);
        lemma_congruent_product(factor as int, p, x as int, x as int, m);
    }
    mul_mod(factor, x, modulus)
}

/// The word that MWC2 makes of its halves: the upper half rotated by 16
/// bits, plus the lower half.
fn mwc2_word(upper: u32, lower: u32) -> (r: u32)
    ensures
        r == mwc2_output((upper, lower)),
{
    let shifted = upper << 16;
    let carry = upper >> 16;
    let rotated = shifted.wrapping_add(carry);
    proof {
        let w = 0x1_0000_0000int;
        assert(shifted == (upper * 0x1_0000) % 0x1_0000_0000 && carry == upper / 0x1_0000)
            by (bit_vector)
            requires
                shifted == upper << 16,
                carry == upper >> 16,
        ;
        lemma_wrapped_sum(shifted as nat, carry as nat, w as nat);
        lemma_wrapped_sum(rotated as nat, lower as nat, w as nat);
        lemma_add_mod_noop_left(upper * 0x1_0000, carry as int, w);
        lemma_add_mod_noop_left(shifted + carry, lower as int, w);
        lemma_add_mod_noop_left(upper * 0x1_0000 + carry, lower as int, w);
    }
    rotated.wrapping_add(lower)
}

/// The word that MWC1 makes of its halves: the upper half shifted by 16
/// bits, plus the lower half.
fn mwc1_word(upper: u32, lower: u32) -> (r: u32)
    ensures
        r == mwc1_output((upper, lower)),
{
    let shifted = upper << 16;
    proof {
        let w = 0x1_0000_0000int;
        assert(shifted == (upper * 0x1_0000) % 0x1_0000_0000) by (bit_vector)
            requires
                shifted == upper << 16,
        ;
        lemma_wrapped_sum(shifted as nat, lower as nat, w as nat);
        lemma_add_mod_noop_left(upper * 0x1_0000, lower as int, w);
    }
    shifted.wrapping_add(lower)
}

/// The generator MWC1: two 16-bit multiply-with-carry halves, with the
/// upper half shifted into the sum.
#[derive(Debug, PartialEq, Eq, Structural)]
pub struct MWC1 {
    mwc_upper: u32,
    mwc_lower: u32,
}

/// The generator MWC2: two 16-bit multiply-with-carry halves, with the
/// upper half rotated into the sum, which mixes the low bits better.
#[derive(Debug, PartialEq, Eq, Structural)]
pub struct MWC2 {
    mwc_upper: u32,
    mwc_lower: u32,
}

impl Clone for MWC1 {
    /// A copy of the generator, in the same state.
    fn clone(&self) -> (r: Self)
        ensures
            r == *self,
    {
        MWC1 { mwc_upper: self.mwc_upper, mwc_lower: self.mwc_lower }
    }
}

impl MWC1 {
    /// The generator with the halves seeded by `seed_upper` and
    /// `seed_lower`. A seed that is a multiple of the modulus of its half,
    /// from which the half would never move, is inverted first.
    pub fn new(seed_upper: u32, seed_lower: u32) -> (r: MWC1)
        ensures
            MWC1::valid(r.state()),
            r.state() == (
                mwc_sanitised(seed_upper, MWC_UPPER_MODULO),
                mwc_sanitised(seed_lower, MWC_LOWER_MODULO),
            ),
    {
        MWC1 {
            mwc_upper: sanitise_half(seed_upper, MWC_UPPER_MODULO),
            mwc_lower: sanitise_half(seed_lower, MWC_LOWER_MODULO),
        }
    }

    /// Makes one step and returns the next word of the stream.
    pub fn next_u32(&mut self) -> (r: u32)
        requires
            MWC1::valid(old(self).state()),
        ensures
            MWC1::valid(final(self).state()),
            final(self).state() == mwc_pair_step(old(self).state()),
            r == mwc1_output(final(self).state()),
    {
        proof {
            lemma_mwc_pair_step_valid((self.mwc_upper, self.mwc_lower));
        }
        self.mwc_upper = step_half(self.mwc_upper, MWC_UPPER_MULT);
        self.mwc_lower = step_half(self.mwc_lower, MWC_LOWER_MULT);
        mwc1_word(self.mwc_upper, self.mwc_lower)
    }
}

impl Clone for MWC2 {
    /// A copy of the generator, in the same state.
    fn clone(&self) -> (r: Self)
        ensures
            r == *self,
    {
        MWC2 { mwc_upper: self.mwc_upper, mwc_lower: self.mwc_lower }
    }
}

impl MWC2 {
    /// The generator with the halves seeded by `seed_upper` and
    /// `seed_lower`. A seed that is a multiple of the modulus of its half,
    /// from which the half would never move, is inverted first.
    pub fn new(seed_upper: u32, seed_lower: u32) -> (r: MWC2)
        ensures
            MWC2::valid(r.state()),
            r.state() == (
                mwc_sanitised(seed_upper, MWC_UPPER_MODULO),
                mwc_sanitised(seed_lower, MWC_LOWER_MODULO),
            ),
    {
        MWC2 {
            mwc_upper: sanitise_half(seed_upper, MWC_UPPER_MODULO),
            mwc_lower: sanitise_half(seed_lower, MWC_LOWER_MODULO),
        }
    }

    /// Makes one step and returns the next word of the stream.
    pub fn next_u32(&mut self) -> (r: u32)
        requires
            MWC2::valid(old(self).state()),
        ensures
            MWC2::valid(final(self).state()),
            final(self).state() == mwc_pair_step(old(self).state()),
            r == mwc2_output(final(self).state()),
    {
        proof {
            lemma_mwc_pair_step_valid((self.mwc_upper, self.mwc_lower));
        }
        self.mwc_upper = step_half(self.mwc_upper, MWC_UPPER_MULT);
        self.mwc_lower = step_half(self.mwc_lower, MWC_LOWER_MULT);
        mwc2_word(self.mwc_upper, self.mwc_lower)
    }
}

impl RngJumpAhead for MWC1 {
    type State = MwcState;

    closed spec fn state(&self) -> MwcState {
        (self.mwc_upper, self.mwc_lower)
    }

    open spec fn valid(s: MwcState) -> bool {
        mwc_valid(s)
    }

    open spec fn step(s: MwcState) -> MwcState {
        mwc_pair_step(s)
    }

    open spec fn steps(s: MwcState, n: nat) -> MwcState {
        mwc_pair_steps(s, n)
    }

    open spec fn jumped(s: MwcState, n: int) -> MwcState {
        mwc_pair_jumped(s, n)
    }

    open spec fn exact_below() -> nat {
        MWC_LOWER_CYCLE_LEN as nat
    }

    open spec fn cycle_len() -> nat {
        mwc_pair_cycle_len()
    }

    proof fn lemma_steps(s: MwcState, n: nat) {
    }

    proof fn lemma_step_valid(s: MwcState) {
        lemma_mwc_pair_step_valid(s);
    }

    proof fn lemma_exact_below() {
    }

    proof fn lemma_jump_is_steps(s: MwcState, n: nat) {
        lemma_mwc_pair_jump_is_steps(s, n);
    }

    proof fn lemma_jump_periodic(s: MwcState, n: int, k: int) {
        lemma_mwc_pair_jump_periodic(s, n, k);
    }

    fn jumpahead<N>(&mut self, n: N) where N: IntTypes
        ensures
            n.as_int() >= 0 ==> final(self).state() == mwc_pair_steps(
                old(self).state(),
                n.as_int() as nat,
            ),
    {
        proof {
            if n.as_int() >= 0 {
                lemma_mwc_pair_jump_exact((self.mwc_upper, self.mwc_lower), n.as_int() as nat);
            }
            lemma_mwc_pair_jumped_valid((self.mwc_upper, self.mwc_lower), n.as_int());
        }
        let n_upper: u32 = modulo(n, MWC_UPPER_CYCLE_LEN);
        self.mwc_upper = jump_half(self.mwc_upper, MWC_UPPER_MULT, MWC_UPPER_MODULO, n_upper);
        let n_lower: u32 = modulo(n, MWC_LOWER_CYCLE_LEN);
        self.mwc_lower = jump_half(self.mwc_lower, MWC_LOWER_MULT, MWC_LOWER_MODULO, n_lower);
    }
}

impl RngJumpAhead for MWC2 {
    type State = MwcState;

    closed spec fn state(&self) -> MwcState {
        (self.mwc_upper, self.mwc_lower)
    }

    open spec fn valid(s: MwcState) -> bool {
        mwc_valid(s)
    }

    open spec fn step(s: MwcState) -> MwcState {
        mwc_pair_step(s)
    }

    open spec fn steps(s: MwcState, n: nat) -> MwcState {
        mwc_pair_steps(s, n)
    }

    open spec fn jumped(s: MwcState, n: int) -> MwcState {
        mwc_pair_jumped(s, n)
    }

    open spec fn exact_below() -> nat {
        MWC_LOWER_CYCLE_LEN as nat
    }

    open spec fn cycle_len() -> nat {
        mwc_pair_cycle_len()
    }

    proof fn lemma_steps(s: MwcState, n: nat) {
    }

    proof fn lemma_step_valid(s: MwcState) {
        lemma_mwc_pair_step_valid(s);
    }

    proof fn lemma_exact_below() {
    }

    proof fn lemma_jump_is_steps(s: MwcState, n: nat) {
        lemma_mwc_pair_jump_is_steps(s, n);
    }

    proof fn lemma_jump_periodic(s: MwcState, n: int, k: int) {
        lemma_mwc_pair_jump_periodic(s, n, k);
    }

    fn jumpahead<N>(&mut self, n: N) where N: IntTypes
        ensures
            n.as_int() >= 0 ==> final(self).state() == mwc_pair_steps(
                old(self).state(),
                n.as_int() as nat,
            ),
    {
        proof {
            if n.as_int() >= 0 {
                lemma_mwc_pair_jump_exact((self.mwc_upper, self.mwc_lower), n.as_int() as nat);
            }
            lemma_mwc_pair_jumped_valid((self.mwc_upper, self.mwc_lower), n.as_int());
        }
        let n_upper: u32 = modulo(n, MWC_UPPER_CYCLE_LEN);
        self.mwc_upper = jump_half(self.mwc_upper, MWC_UPPER_MULT, MWC_UPPER_MODULO, n_upper);
        let n_lower: u32 = modulo(n, MWC_LOWER_CYCLE_LEN);
        self.mwc_lower = jump_half(self.mwc_lower, MWC_LOWER_MULT, MWC_LOWER_MODULO, n_lower);
    }
}

/// Whether a state of MWC64 lies strictly between 0 and the modulus.
pub open spec fn mwc64_valid(s: u64) -> bool {
    0 < s < MWC64_MODULO
}

/// One step of MWC64: a multiply-with-carry step at the base `2^32`.
pub open spec fn mwc64_step(s: u64) -> u64 {
    mwc_step(MWC64_MULT as nat, 0x1_0000_0000, s as nat) as u64
}

/// `n` steps of MWC64 from `s`.
pub open spec fn mwc64_steps(s: u64, n: nat) -> u64
    decreases n,
{
    if n == 0 {
        s
    } else {
        mwc64_step(mwc64_steps(s, (n - 1) as nat))
    }
}

/// The state that a jump by `n` leads to: the state multiplied by
/// `698769069^k` modulo the modulus, where `k` is `n` reduced modulo the
/// length of the cycle.
pub open spec fn mwc64_jumped(s: u64, n: int) -> u64 {
    let k = (n % (MWC64_CYCLE_LEN as int)) as nat;
    ((pow(MWC64_MULT as int, k) * s) % (MWC64_MODULO as int)) as u64
}

/// The word that MWC64 gives in the state `s`: its lower half.
pub open spec fn mwc64_output(s: u64) -> u32 {
    (s % 0x1_0000_0000) as u32
}

/// The state that the seeds of MWC64 give: the two seeds joined into 64
/// bits and reduced modulo the modulus, and if that gives 0, the same of the
/// inverted seeds.
pub open spec fn mwc64_sanitised(seed_upper: u32, seed_lower: u32) -> u64 {
    let joined = (seed_upper as nat * 0x1_0000_0000 + seed_lower as nat) as u64;
    if joined % MWC64_MODULO == 0 {
        ((0xFFFF_FFFF_FFFF_FFFF - joined) % (MWC64_MODULO as int)) as u64
    } else {
        joined % MWC64_MODULO
    }
}

/// The steps of a valid state of MWC64 are valid, and they are
/// multiply-with-carry steps.
pub proof fn lemma_mwc64_steps(s: u64, n: nat)
    requires
        mwc64_valid(s),
    ensures
        mwc64_valid(mwc64_steps(s, n)),
        mwc64_steps(s, n) == mwc_steps(MWC64_MULT as nat, 0x1_0000_0000, s as nat, n),
    decreases n,
{
    assert(MWC64_MULT * 0x1_0000_0000 - 1 == MWC64_MODULO);
    lemma_mwc_steps(MWC64_MULT as nat, 0x1_0000_0000, s as nat, n);
    if n > 0 {
        lemma_mwc64_steps(s, (n - 1) as nat);
    }
}

/// A step of MWC64 leads from a valid state to a valid state.
pub proof fn lemma_mwc64_step_valid(s: u64)
    requires
        mwc64_valid(s),
    ensures
        mwc64_valid(mwc64_step(s)),
{
    assert(MWC64_MULT * 0x1_0000_0000 - 1 == MWC64_MODULO);
    lemma_mwc_step(MWC64_MULT as nat, 0x1_0000_0000, s as nat);
}

/// A jump of MWC64 leads from a valid state to a valid state, and for a
/// count below the length of the cycle it leads where as many steps lead.
pub proof fn lemma_mwc64_jumped(s: u64, n: int)
    requires
        mwc64_valid(s),
    ensures
        mwc64_valid(mwc64_jumped(s, n)),
        0 <= n < MWC64_CYCLE_LEN ==> mwc64_jumped(s, n) == mwc64_steps(s, n as nat),
{
    let k = (n % (MWC64_CYCLE_LEN as int)) as nat;
    assert(MWC64_MULT * 0x1_0000_0000 - 1 == MWC64_MODULO);
    lemma_mwc_steps(MWC64_MULT as nat, 0x1_0000_0000, s as nat, k);
    lemma_mwc64_steps(s, k);
    if 0 <= n < MWC64_CYCLE_LEN {
        lemma_small_mod(n as nat, MWC64_CYCLE_LEN as nat);
    }
}

/// The generator MWC64: one multiply-with-carry generator of 64 bits.
#[derive(Debug, PartialEq, Eq, Structural)]
pub struct MWC64 {
    mwc_upper: u32,
    mwc_lower: u32,
}

/// The two halves of a 64-bit state.
fn split_halves(x: u64) -> (r: (u32, u32))
    ensures
        r.0 == x / 0x1_0000_0000,
        r.1 == x % 0x1_0000_0000,
        r.0 as nat * 0x1_0000_0000 + r.1 as nat == x,
{
    let upper = x >> 32;
    let lower = x & 0xFFFF_FFFF;
    proof {
        assert(upper == x / 0x1_0000_0000 && lower == x % 0x1_0000_0000 && upper <= 0xFFFF_FFFF
            && lower <= 0xFFFF_FFFF) by (bit_vector)
            requires
                upper == x >> 32,
                lower == x & 0xFFFF_FFFF,
        ;
    }
    (upper as u32, lower as u32)
}

/// The 64-bit state made of two halves.
fn join_halves(upper: u32, lower: u32) -> (r: u64)
    ensures
        r == upper as nat * 0x1_0000_0000 + lower as nat,
{
    let wide = upper as u64;
    let shifted = wide << 32;
    proof {
        assert(shifted == wide * 0x1_0000_0000) by (bit_vector)
            requires
                shifted == wide << 32,
                wide <= 0xFFFF_FFFF,
        ;
    }
    shifted + (lower as u64)
}

impl Clone for MWC64 {
    /// A copy of the generator, in the same state.
    fn clone(&self) -> (r: Self)
        ensures
            r == *self,
    {
        MWC64 { mwc_upper: self.mwc_upper, mwc_lower: self.mwc_lower }
    }
}

impl MWC64 {
    /// The state as one number of 64 bits.
    pub closed spec fn joined(&self) -> u64 {
        (self.mwc_upper as nat * 0x1_0000_0000 + self.mwc_lower as nat) as u64
    }

    /// The generator seeded by `seed_upper` and `seed_lower`. Seeds that
    /// join to a multiple of the modulus, from which the generator would
    /// never move, are inverted first.
    pub fn new(seed_upper: u32, seed_lower: u32) -> (r: MWC64)
        ensures
            MWC64::valid(r.state()),
            r.state() == mwc64_sanitised(seed_upper, seed_lower),
    {
        let joined = join_halves(seed_upper, seed_lower);
        let reduced = joined % MWC64_MODULO;
        let state = if reduced == 0 {
            let inverted = joined ^ 0xFFFF_FFFF_FFFF_FFFF;
            proof {
                assert(inverted == 0xFFFF_FFFF_FFFF_FFFF - joined) by (bit_vector)
                    requires
                        inverted == joined ^ 0xFFFF_FFFF_FFFF_FFFF,
                ;
                lemma_inverted_multiple(joined as int, MWC64_MODULO as int, 0xFFFF_FFFF_FFFF_FFFF);
            }
            inverted % MWC64_MODULO
        } else {
            reduced
        };
        let halves = split_halves(state);
        MWC64 { mwc_upper: halves.0, mwc_lower: halves.1 }
    }

    /// Makes one step and returns the next word of the stream.
    pub fn next_u32(&mut self) -> (r: u32)
        requires
            MWC64::valid(old(self).state()),
        ensures
            MWC64::valid(final(self).state()),
            final(self).state() == mwc64_step(old(self).state()),
            r == mwc64_output(final(self).state()),
    {
        proof {
            lemma_mwc64_step_valid(self.joined());
            assert(MWC64_MULT * self.mwc_lower <= 698769069 * 0xFFFF_FFFF) by (nonlinear_arith)
                requires
                    self.mwc_lower <= 0xFFFF_FFFF,
            ;
        }
        let temp64: u64 = MWC64_MULT * (self.mwc_lower as u64) + (self.mwc_upper as u64);
        let halves = split_halves(temp64);
        self.mwc_upper = halves.0;
        self.mwc_lower = halves.1;
        self.mwc_lower
    }
}

/// If a modulus divides `x`, the inverse `top - x` has the same remainder
/// as `top`.
proof fn lemma_inverted_multiple(x: int, m: int, top: int)
    requires
        m > 0,
        x % m == 0,
    ensures
        (top - x) % m == top % m,
{
    vstd::arithmetic::div_mod::lemma_sub_mod_noop_right(top, x, m);
}

impl RngJumpAhead for MWC64 {
    type State = u64;

    closed spec fn state(&self) -> u64 {
        self.joined()
    }

    open spec fn valid(s: u64) -> bool {
        mwc64_valid(s)
    }

    open spec fn step(s: u64) -> u64 {
        mwc64_step(s)
    }

    open spec fn steps(s: u64, n: nat) -> u64 {
        mwc64_steps(s, n)
    }

    open spec fn jumped(s: u64, n: int) -> u64 {
        mwc64_jumped(s, n)
    }

    open spec fn exact_below() -> nat {
        MWC64_CYCLE_LEN as nat
    }

    open spec fn cycle_len() -> nat {
        MWC64_CYCLE_LEN as nat
    }

    proof fn lemma_steps(s: u64, n: nat) {
    }

    proof fn lemma_step_valid(s: u64) {
        lemma_mwc64_step_valid(s);
    }

    proof fn lemma_exact_below() {
    }

    proof fn lemma_jump_is_steps(s: u64, n: nat) {
        lemma_mwc64_jumped(s, n as int);
    }

    proof fn lemma_jump_periodic(s: u64, n: int, k: int) {
        lemma_mod_whole_cycles(n, k, 1, MWC64_CYCLE_LEN as int);
        assert(1 * (MWC64_CYCLE_LEN as int) == MWC64_CYCLE_LEN);
    }

    fn jumpahead<N>(&mut self, n: N) where N: IntTypes
        ensures
            n.as_int() >= 0 ==> final(self).state() == mwc64_steps(
                old(self).state(),
                n.as_int() as nat,
            ),
    {
        proof {
            if n.as_int() >= 0 {
                lemma_mwc64_jump_exact(self.joined(), n.as_int() as nat);
            }
        }
        let count: u64 = modulo(n, MWC64_CYCLE_LEN);
        let state = join_halves(self.mwc_upper, self.mwc_lower);
        let factor = pow_mod(MWC64_MULT, count, MWC64_MODULO);
        proof {
            let m = MWC64_MODULO as int;
            let p = pow(MWC64_MULT as int, count as nat);
            lemma_mod_twice(p, m);
            lemma_congruent_product(factor as int, p, state as int, state as int, m);
            lemma_mwc64_jumped(state, n.as_int());
        }
        let halves = split_halves(mul_mod(factor, state, MWC64_MODULO));
        self.mwc_upper = halves.0;
        self.mwc_lower = halves.1;
    }
}

} // verus!
