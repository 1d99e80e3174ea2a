//! The combined generators KISS and KISS2.
//!
//! Each runs three generators side by side and mixes their words: KISS a
//! multiply-with-carry pair, Cong and SHR3; KISS2 the 64-bit
//! multiply-with-carry generator, Cong and SHR3. The three streams do not
//! touch each other, so a jump of the whole is a jump of each part.

use vstd::prelude::*;
use crate::arith::lemma_mod_whole_cycles;
use crate::cong::{cong_step, cong_steps, lemma_cong_jump_exact, Cong, CONG_CYCLE_LEN};
use crate::gf2::{mat_one, mat_pow};
use crate::jump::RngJumpAhead;
use crate::math::IntTypes;
use crate::mwc::{
    lemma_mwc64_jumped, lemma_mwc64_step_valid, lemma_mwc_pair_jump_is_steps,
    lemma_mwc_pair_jump_periodic, mwc_pair_cycle_len, MWC64_CYCLE_LEN,
    lemma_mwc_pair_step_valid, mwc2_output, mwc64_jumped, mwc64_output,
    mwc64_sanitised, mwc64_step, mwc64_steps, mwc64_valid, mwc_pair_jumped, mwc_pair_step,
    mwc_pair_steps, mwc_sanitised, mwc_valid, MwcState, MWC2, MWC64, MWC_LOWER_CYCLE_LEN,
    MWC_LOWER_MODULO, MWC_UPPER_MODULO,
};
use crate::orders::{lemma_mwc64_jump_exact, lemma_mwc_pair_jump_exact};
use crate::shr3::{
    lemma_shr3_jump_exact, lemma_shr3_step_nonzero, shr3_matrix_spec, shr3_sanitised, shr3_step,
    shr3_steps, SHR3, SHR3_CYCLE_LEN,
};

verus! {

/// A state of KISS: those of its multiply-with-carry pair, of its Cong and
/// of its SHR3.
pub type KissState = (MwcState, u32, u32);

/// A state of KISS2: those of its MWC64, of its Cong and of its SHR3.
pub type Kiss2State = (u64, u32, u32);

/// One step of KISS: a step of each part.
pub open spec fn kiss_step(s: KissState) -> KissState {
    (mwc_pair_step(s.0), cong_step(s.1), shr3_step(s.2))
}

/// `n` steps of KISS from `s`.
pub open spec fn kiss_steps(s: KissState, n: nat) -> KissState
    decreases n,
{
    if n == 0 {
        s
    } else {
        kiss_step(kiss_steps(s, (n - 1) as nat))
    }
}

/// The word that KISS gives in the state `s`: the words of the pair and of
/// Cong under exclusive-or, plus the word of SHR3, modulo `2^32`.
pub open spec fn kiss_output(s: KissState) -> u32 {
    (((mwc2_output(s.0) ^ s.1) + s.2) % 0x1_0000_0000) as u32
}

/// One step of KISS2: a step of each part.
pub open spec fn kiss2_step(s: Kiss2State) -> Kiss2State {
    (mwc64_step(s.0), cong_step(s.1), shr3_step(s.2))
}

/// `n` steps of KISS2 from `s`.
pub open spec fn kiss2_steps(s: Kiss2State, n: nat) -> Kiss2State
    decreases n,
{
    if n == 0 {
        s
    } else {
        kiss2_step(kiss2_steps(s, (n - 1) as nat))
    }
}

/// The word that KISS2 gives in the state `s`: the sum of the words of its
/// three parts, modulo `2^32`.
pub open spec fn kiss2_output(s: Kiss2State) -> u32 {
    ((mwc64_output(s.0) + s.1 + s.2) % 0x1_0000_0000) as u32
}

/// The steps of KISS are the steps of its parts.
pub proof fn lemma_kiss_steps(s: KissState, n: nat)
    ensures
        kiss_steps(s, n) == (mwc_pair_steps(s.0, n), cong_steps(s.1, n), shr3_steps(s.2, n)),
    decreases n,
{
    if n > 0 {
        lemma_kiss_steps(s, (n - 1) as nat);
    }
}

/// The steps of KISS2 are the steps of its parts.
pub proof fn lemma_kiss2_steps(s: Kiss2State, n: nat)
    ensures
        kiss2_steps(s, n) == (mwc64_steps(s.0, n), cong_steps(s.1, n), shr3_steps(s.2, n)),
    decreases n,
{
    if n > 0 {
        lemma_kiss2_steps(s, (n - 1) as nat);
    }
}

/// If the matrix of SHR3 has the order of the length of the cycle of
/// SHR3, a jump of KISS is exact for every count: it leads where as many
/// steps lead. The other two parts need no such condition.
pub proof fn lemma_kiss_jump_exact(s: KissState, n: nat)
    requires
        KISS::valid(s),
        mat_pow(shr3_matrix_spec(), SHR3_CYCLE_LEN as nat) == mat_one(32),
    ensures
        KISS::jumped(s, n as int) == kiss_steps(s, n),
{
    lemma_kiss_steps(s, n);
    lemma_mwc_pair_jump_exact(s.0, n);
    lemma_cong_jump_exact(s.1, n);
    lemma_shr3_jump_exact(s.2, n);
}

/// If the matrix of SHR3 has the order of the length of the cycle of
/// SHR3, a jump of KISS2 is exact for every count: it leads where as many
/// steps lead. The other two parts need no such condition.
pub proof fn lemma_kiss2_jump_exact(s: Kiss2State, n: nat)
    requires
        KISS2::valid(s),
        mat_pow(shr3_matrix_spec(), SHR3_CYCLE_LEN as nat) == mat_one(32),
    ensures
        KISS2::jumped(s, n as int) == kiss2_steps(s, n),
{
    lemma_kiss2_steps(s, n);
    lemma_mwc64_jump_exact(s.0, n);
    lemma_cong_jump_exact(s.1, n);
    lemma_shr3_jump_exact(s.2, n);
}

/// The generator KISS.
#[derive(Debug, PartialEq, Eq, Structural)]
pub struct KISS {
    mwc: MWC2,
    cong: Cong,
    shr3: SHR3,
}

/// The generator KISS2.
#[derive(Debug, PartialEq, Eq, Structural)]
pub struct KISS2 {
    mwc: MWC64,
    cong: Cong,
    shr3: SHR3,
}

impl Clone for KISS {
    /// A copy of the generator, in the same state.
    fn clone(&self) -> (r: Self)
        ensures
            r == *self,
    {
        KISS { mwc: self.mwc.clone(), cong: self.cong.clone(), shr3: self.shr3.clone() }
    }
}

impl KISS {
    /// The generator with its parts seeded by the four seeds, each as the
    /// part seeds itself.
    pub fn new(
        seed_mwc_upper: u32,
        seed_mwc_lower: u32,
        seed_cong: u32,
        seed_shr3: u32,
    ) -> (r: KISS)
        ensures
            KISS::valid(r.state()),
            r.state() == (
                (
                    mwc_sanitised(seed_mwc_upper, MWC_UPPER_MODULO),
                    mwc_sanitised(seed_mwc_lower, MWC_LOWER_MODULO),
                ),
                seed_cong,
                shr3_sanitised(seed_shr3),
            ),
    {
        KISS {
            mwc: MWC2::new(seed_mwc_upper, seed_mwc_lower),
            cong: Cong::new(seed_cong),
            shr3: SHR3::new(seed_shr3),
        }
    }

    /// Makes one step and returns the next word of the stream.
    pub fn next_u32(&mut self) -> (r: u32)
        requires
            KISS::valid(old(self).state()),
        ensures
            KISS::valid(final(self).state()),
            final(self).state() == kiss_step(old(self).state()),
            r == kiss_output(final(self).state()),
    {
        let mwc = self.mwc.next_u32();
        let cong = self.cong.next_u32();
        let shr3 = self.shr3.next_u32();
        proof {
            crate::bits::lemma_wrapped_sum((mwc ^ cong) as nat, shr3 as nat, 0x1_0000_0000);
        }
        (mwc ^ cong).wrapping_add(shr3)
    }
}

impl Clone for KISS2 {
    /// A copy of the generator, in the same state.
    fn clone(&self) -> (r: Self)
        ensures
            r == *self,
    {
        KISS2 { mwc: self.mwc.clone(), cong: self.cong.clone(), shr3: self.shr3.clone() }
    }
}

impl KISS2 {
    /// The generator with its parts seeded by the four seeds, each as the
    /// part seeds itself.
    pub fn new(
        seed_mwc_upper: u32,
        seed_mwc_lower: u32,
        seed_cong: u32,
        seed_shr3: u32,
    ) -> (r: KISS2)
        ensures
            KISS2::valid(r.state()),
            r.state() == (
                mwc64_sanitised(seed_mwc_upper, seed_mwc_lower),
                seed_cong,
                shr3_sanitised(seed_shr3),
            ),
    {
        KISS2 {
            mwc: MWC64::new(seed_mwc_upper, seed_mwc_lower),
            cong: Cong::new(seed_cong),
            shr3: SHR3::new(seed_shr3),
        }
    }

    /// Makes one step and returns the next word of the stream.
    pub fn next_u32(&mut self) -> (r: u32)
        requires
            KISS2::valid(old(self).state()),
        ensures
            KISS2::valid(final(self).state()),
            final(self).state() == kiss2_step(old(self).state()),
            r == kiss2_output(final(self).state()),
    {
        let mwc = self.mwc.next_u32();
        let cong = self.cong.next_u32();
        let shr3 = self.shr3.next_u32();
        let partial = mwc.wrapping_add(cong);
        proof {
            let w = 0x1_0000_0000int;
            crate::bits::lemma_wrapped_sum(mwc as nat, cong as nat, w as nat);
            crate::bits::lemma_wrapped_sum(partial as nat, shr3 as nat, w as nat);
            crate::arith::lemma_add_mod_noop_left(mwc + cong, shr3 as int, w);
        }
        partial.wrapping_add(shr3)
    }
}

impl RngJumpAhead for KISS {
    type State = KissState;

    closed spec fn state(&self) -> KissState {
        (self.mwc.state(), self.cong.state(), self.shr3.state())
    }

    open spec fn valid(s: KissState) -> bool {
        mwc_valid(s.0) && s.2 != 0
    }

    open spec fn step(s: KissState) -> KissState {
        kiss_step(s)
    }

    open spec fn steps(s: KissState, n: nat) -> KissState {
        kiss_steps(s, n)
    }

    open spec fn jumped(s: KissState, n: int) -> KissState {
        (mwc_pair_jumped(s.0, n), Cong::jumped(s.1, n), SHR3::jumped(s.2, n))
    }

    open spec fn exact_below() -> nat {
        MWC_LOWER_CYCLE_LEN as nat
    }

    open spec fn cycle_len() -> nat {
        mwc_pair_cycle_len() * CONG_CYCLE_LEN as nat * SHR3_CYCLE_LEN as nat
    }

    proof fn lemma_steps(s: KissState, n: nat) {
    }

    proof fn lemma_step_valid(s: KissState) {
        lemma_mwc_pair_step_valid(s.0);
        lemma_shr3_step_nonzero(s.2);
    }

    proof fn lemma_exact_below() {
    }

    proof fn lemma_jump_is_steps(s: KissState, n: nat) {
        lemma_kiss_steps(s, n);
        lemma_mwc_pair_jump_is_steps(s.0, n);
        Cong::lemma_jump_is_steps(s.1, n);
        SHR3::lemma_jump_is_steps(s.2, n);
    }

    proof fn lemma_jump_periodic(s: KissState, n: int, k: int) {
        let rest_mwc = CONG_CYCLE_LEN as int * (SHR3_CYCLE_LEN as int);
        let rest_cong = mwc_pair_cycle_len() as int * (SHR3_CYCLE_LEN as int);
        let rest_shr3 = mwc_pair_cycle_len() as int * (CONG_CYCLE_LEN as int);
        let whole = Self::cycle_len() as int;
        lemma_mwc_pair_jump_periodic(s.0, n, k * rest_mwc);
        assert(whole > 0
            && k * whole == (k * rest_mwc) * mwc_pair_cycle_len()
            && k * whole == k * (rest_cong * CONG_CYCLE_LEN)
            && k * whole == k * (rest_shr3 * SHR3_CYCLE_LEN))
            by (nonlinear_arith)
            requires
                whole == mwc_pair_cycle_len() * CONG_CYCLE_LEN * SHR3_CYCLE_LEN,
                rest_mwc == CONG_CYCLE_LEN * SHR3_CYCLE_LEN,
                rest_cong == mwc_pair_cycle_len() * SHR3_CYCLE_LEN,
                rest_shr3 == mwc_pair_cycle_len() * CONG_CYCLE_LEN,
                mwc_pair_cycle_len() > 0,
        ;
        lemma_mod_whole_cycles(n, k, rest_cong, CONG_CYCLE_LEN as int);
        lemma_mod_whole_cycles(n, k, rest_shr3, SHR3_CYCLE_LEN as int);
    }

    fn jumpahead<N>(&mut self, n: N) where N: IntTypes
        ensures
            0 <= n.as_int() < MWC_LOWER_CYCLE_LEN ==> final(self).state() == kiss_steps(
                old(self).state(),
                n.as_int() as nat,
            ),
    {
        proof {
            if 0 <= n.as_int() < MWC_LOWER_CYCLE_LEN {
                Self::lemma_jump_is_steps(self.state(), n.as_int() as nat);
            }
        }
        self.mwc.jumpahead(n);
        self.cong.jumpahead(n);
        self.shr3.jumpahead(n);
    }
}

impl RngJumpAhead for KISS2 {
    type State = Kiss2State;

    closed spec fn state(&self) -> Kiss2State {
        (self.mwc.state(), self.cong.state(), self.shr3.state())
    }

    open spec fn valid(s: Kiss2State) -> bool {
        mwc64_valid(s.0) && s.2 != 0
    }

    open spec fn step(s: Kiss2State) -> Kiss2State {
        kiss2_step(s)
    }

    open spec fn steps(s: Kiss2State, n: nat) -> Kiss2State {
        kiss2_steps(s, n)
    }

    open spec fn jumped(s: Kiss2State, n: int) -> Kiss2State {
        (mwc64_jumped(s.0, n), Cong::jumped(s.1, n), SHR3::jumped(s.2, n))
    }

    open spec fn exact_below() -> nat {
        SHR3_CYCLE_LEN as nat
    }

    open spec fn cycle_len() -> nat {
        MWC64_CYCLE_LEN as nat * CONG_CYCLE_LEN as nat * SHR3_CYCLE_LEN as nat
    }

    proof fn lemma_steps(s: Kiss2State, n: nat) {
    }

    proof fn lemma_step_valid(s: Kiss2State) {
        lemma_mwc64_step_valid(s.0);
        lemma_shr3_step_nonzero(s.2);
    }

    proof fn lemma_exact_below() {
    }

    proof fn lemma_jump_is_steps(s: Kiss2State, n: nat) {
        lemma_kiss2_steps(s, n);
        lemma_mwc64_jumped(s.0, n as int);
        Cong::lemma_jump_is_steps(s.1, n);
        SHR3::lemma_jump_is_steps(s.2, n);
    }

    proof fn lemma_jump_periodic(s: Kiss2State, n: int, k: int) {
        let rest_mwc = CONG_CYCLE_LEN as int * (SHR3_CYCLE_LEN as int);
        let rest_cong = MWC64_CYCLE_LEN as int * (SHR3_CYCLE_LEN as int);
        let rest_shr3 = MWC64_CYCLE_LEN as int * (CONG_CYCLE_LEN as int);
        let whole = Self::cycle_len() as int;
        assert(whole > 0
            && k * whole == k * (rest_mwc * MWC64_CYCLE_LEN)
            && k * whole == k * (rest_cong * CONG_CYCLE_LEN)
            && k * whole == k * (rest_shr3 * SHR3_CYCLE_LEN))
            by (nonlinear_arith)
            requires
                whole == MWC64_CYCLE_LEN * CONG_CYCLE_LEN * SHR3_CYCLE_LEN,
                rest_mwc == CONG_CYCLE_LEN * SHR3_CYCLE_LEN,
                rest_cong == MWC64_CYCLE_LEN * SHR3_CYCLE_LEN,
                rest_shr3 == MWC64_CYCLE_LEN * CONG_CYCLE_LEN,
        ;
        lemma_mod_whole_cycles(n, k, rest_mwc, MWC64_CYCLE_LEN as int);
        lemma_mod_whole_cycles(n, k, rest_cong, CONG_CYCLE_LEN as int);
        lemma_mod_whole_cycles(n, k, rest_shr3, SHR3_CYCLE_LEN as int);
    }

    fn jumpahead<N>(&mut self, n: N) where N: IntTypes
        ensures
            0 <= n.as_int() < SHR3_CYCLE_LEN ==> final(self).state() == kiss2_steps(
                old(self).state(),
                n.as_int() as nat,
            ),
    {
        proof {
            if 0 <= n.as_int() < SHR3_CYCLE_LEN {
                Self::lemma_jump_is_steps(self.state(), n.as_int() as nat);
            }
        }
        self.mwc.jumpahead(n);
        self.cong.jumpahead(n);
        self.shr3.jumpahead(n);
    }
}

} // verus!
