//! The congruential generator Cong.

use vstd::prelude::*;
use vstd::arithmetic::div_mod::{lemma_mod_twice, lemma_small_mod};
use vstd::arithmetic::power::{lemma_pow0, lemma_pow_adds, lemma_pow1, pow};
use crate::arith::{
    lemma_congruent_product, lemma_congruent_sum, lemma_geom_sum_adds,
    lemma_geom_sum_of_pow2_terms, lemma_geom_sum_shift, lemma_mod_whole_cycles,
    lemma_pow_of_pow2_is_one,
};
use vstd::arithmetic::power2::pow2;
use crate::bits::lemma_pow2_values;
use crate::jump::RngJumpAhead;
use crate::math::{geom_sum, modulo, wrapping_geom_series, wrapping_pow, IntTypes};

verus! {

/// The multiplier of Cong.
pub const CONG_MULT: u32 = 69069;

/// The increment of Cong.
pub const CONG_CONST: u32 = 12345;

/// The length of the cycle of Cong: after `2^32` steps it is back where it
/// started.
pub const CONG_CYCLE_LEN: u64 = 0x1_0000_0000;

/// One step of Cong: `x` becomes `69069 * x + 12345` modulo `2^32`.
pub open spec fn cong_step(x: u32) -> u32 {
    ((CONG_MULT * x + CONG_CONST) % 0x1_0000_0000) as u32
}

/// `n` steps of Cong from `x`.
pub open spec fn cong_steps(x: u32, n: nat) -> u32
    decreases n,
{
    if n == 0 {
        x
    } else {
        cong_step(cong_steps(x, (n - 1) as nat))
    }
}

/// After `n` steps Cong has reached `A^n * x + C * (1 + A + ... + A^(n - 1))`
/// modulo `2^32`, with `A` its multiplier and `C` its increment.
pub proof fn lemma_cong_steps_closed_form(x: u32, n: nat)
    ensures
        cong_steps(x, n) == (pow(CONG_MULT as int, n) * x + CONG_CONST * geom_sum(
            CONG_MULT as int,
            n,
        )) % 0x1_0000_0000,
    decreases n,
{
    let a = CONG_MULT as int;
    let c = CONG_CONST as int;
    let w = 0x1_0000_0000int;
    if n == 0 {
        lemma_pow0(a);
        assert(geom_sum(a, 0) == 0);
        assert(1 * x + c * 0 == x);
        lemma_small_mod(x as nat, w as nat);
    } else {
        let p = (n - 1) as nat;
        let before = pow(a, p) * x + c * geom_sum(a, p);
        lemma_cong_steps_closed_form(x, p);
        lemma_mod_twice(before, w);
        lemma_congruent_product(a, a, before % w, before, w);
        lemma_congruent_sum(a * (before % w), a * before, c, c, w);
        lemma_geom_sum_shift(a, p);
        lemma_pow_adds(a, 1, p);
        lemma_pow1(a);
        assert(a * before + c == pow(a, n) * x + c * geom_sum(a, n)) by (nonlinear_arith)
            requires
                before == pow(a, p) * x + c * geom_sum(a, p),
                pow(a, n) == a * pow(a, p),
                geom_sum(a, n) == a * geom_sum(a, p) + 1,
        ;
    }
}

/// The cycle of Cong closes after `2^32` steps: power `2^32` of the
/// multiplier is 1, and the sum of its first `2^32` powers is 0, modulo
/// `2^32`.
pub proof fn lemma_cong_cycle_closes()
    ensures
        pow(CONG_MULT as int, CONG_CYCLE_LEN as nat) % 0x1_0000_0000 == 1,
        geom_sum(CONG_MULT as int, CONG_CYCLE_LEN as nat) % 0x1_0000_0000 == 0,
{
    let a = CONG_MULT as int;
    let w = 0x1_0000_0000int;
    lemma_pow2_values();
    lemma_geom_sum_of_pow2_terms(a, 32);
    // a^(2^30) is 1 modulo 2^32, and a^(2^32) is its fourth power.
    lemma_pow_of_pow2_is_one(a, 30);
    vstd::arithmetic::power2::lemma_pow2_adds(30, 2);
    vstd::arithmetic::power2::lemma2_to64();
    vstd::arithmetic::power::lemma_pow_multiplies(a, pow2(30), 4);
    vstd::arithmetic::power::lemma_pow_mod_noop(pow(a, pow2(30)), 4, w);
    vstd::arithmetic::power::lemma1_pow(4);
    assert(pow2(30) * 4 == pow2(32));
}

/// `2^32` more steps of Cong lead to the same state.
pub proof fn lemma_cong_steps_cycle(x: u32, n: nat)
    ensures
        cong_steps(x, n + CONG_CYCLE_LEN as nat) == cong_steps(x, n),
{
    let a = CONG_MULT as int;
    let c = CONG_CONST as int;
    let w = 0x1_0000_0000int;
    let p = CONG_CYCLE_LEN as nat;
    lemma_cong_cycle_closes();
    lemma_cong_steps_closed_form(x, n);
    lemma_cong_steps_closed_form(x, n + p);
    // a^(n + p) is congruent to a^n.
    lemma_pow_adds(a, n, p);
    lemma_congruent_product(pow(a, n), pow(a, n), pow(a, p), 1, w);
    assert(pow(a, n) * 1 == pow(a, n));
    lemma_congruent_product(pow(a, n + p), pow(a, n), x as int, x as int, w);
    // S(a, n + p) is congruent to S(a, n).
    lemma_geom_sum_adds(a, p, n);
    lemma_congruent_product(pow(a, p), 1, geom_sum(a, n), geom_sum(a, n), w);
    assert(1 * geom_sum(a, n) == geom_sum(a, n));
    lemma_congruent_sum(geom_sum(a, p), 0, pow(a, p) * geom_sum(a, n), geom_sum(a, n), w);
    assert(0 + geom_sum(a, n) == geom_sum(a, n));
    lemma_congruent_product(c, c, geom_sum(a, p + n), geom_sum(a, n), w);
    lemma_congruent_sum(
        pow(a, n + p) * x,
        pow(a, n) * x,
        c * geom_sum(a, n + p),
        c * geom_sum(a, n),
        w,
    );
}

/// A jump of Cong is exact for every count: it leads where as many steps
/// lead.
pub proof fn lemma_cong_jump_exact(x: u32, n: nat)
    ensures
        Cong::jumped(x, n as int) == cong_steps(x, n),
    decreases n,
{
    let p = CONG_CYCLE_LEN as nat;
    if n < p {
        lemma_small_mod(n, p);
    } else {
        let m = (n - p) as nat;
        lemma_cong_jump_exact(x, m);
        lemma_cong_steps_cycle(x, m);
        vstd::arithmetic::div_mod::lemma_mod_sub_multiples_vanish(n as int, p as int);
    }
}

/// A jump of Cong back by `n` steps is undone by `n` steps.
pub proof fn lemma_cong_jump_back(x: u32, n: nat)
    ensures
        cong_steps(Cong::jumped(x, -(n as int)), n) == x,
{
    let p = CONG_CYCLE_LEN as int;
    let back = ((-(n as int)) % p) as nat;
    // `back + n` is a whole number of cycles.
    let k = (back + n) / (p as nat);
    vstd::arithmetic::div_mod::lemma_add_mod_noop(-(n as int), n as int, p);
    lemma_mod_twice(n as int, p);
    vstd::arithmetic::div_mod::lemma_add_mod_noop_right((-(n as int)) % p, n as int, p);
    assert((back + n) % (p as nat) == 0);
    lemma_cong_steps_compose(x, back, n);
    lemma_cong_jump_exact(x, back + n);
    assert(cong_steps(x, 0) == x);
}

/// Steps of Cong add up: `m` steps and then `n` steps are `m + n` steps.
pub proof fn lemma_cong_steps_compose(x: u32, m: nat, n: nat)
    ensures
        cong_steps(cong_steps(x, m), n) == cong_steps(x, m + n),
    decreases n,
{
    if n > 0 {
        lemma_cong_steps_compose(x, m, (n - 1) as nat);
    }
}

/// The generator Cong: a linear congruential generator modulo `2^32`.
#[derive(Debug, PartialEq, Eq, Structural)]
pub struct Cong {
    cong: u32,
}

impl Clone for Cong {
    /// A copy of the generator, in the same state.
    fn clone(&self) -> (r: Self)
        ensures
            r == *self,
    {
        Cong { cong: self.cong }
    }
}

impl Cong {
    /// The generator with the state `seed`. Every seed is a good one.
    pub fn new(seed: u32) -> (r: Cong)
        ensures
            r.state() == seed,
            Cong::valid(r.state()),
    {
        Cong { cong: seed }
    }

    /// Makes one step and returns the new state as the next word of the
    /// stream.
    pub fn next_u32(&mut self) -> (r: u32)
        ensures
            final(self).state() == cong_step(old(self).state()),
            r == final(self).state(),
    {
        self.cong = CONG_MULT.wrapping_mul(self.cong).wrapping_add(CONG_CONST);
        self.cong
    }
}

impl RngJumpAhead for Cong {
    type State = u32;

    closed spec fn state(&self) -> u32 {
        self.cong
    }

    open spec fn valid(s: u32) -> bool {
        true
    }

    open spec fn step(s: u32) -> u32 {
        cong_step(s)
    }

    open spec fn steps(s: u32, n: nat) -> u32 {
        cong_steps(s, n)
    }

    open spec fn jumped(s: u32, n: int) -> u32 {
        cong_steps(s, (n % (CONG_CYCLE_LEN as int)) as nat)
    }

    open spec fn exact_below() -> nat {
        CONG_CYCLE_LEN as nat
    }

    open spec fn cycle_len() -> nat {
        CONG_CYCLE_LEN as nat
    }

    proof fn lemma_steps(s: u32, n: nat) {
    }

    proof fn lemma_step_valid(s: u32) {
    }

    proof fn lemma_exact_below() {
    }

    proof fn lemma_jump_is_steps(s: u32, n: nat) {
        lemma_small_mod(n, CONG_CYCLE_LEN as nat);
    }

    proof fn lemma_jump_periodic(s: u32, n: int, k: int) {
        lemma_mod_whole_cycles(n, k, 1, CONG_CYCLE_LEN as int);
        assert(1 * (CONG_CYCLE_LEN as int) == CONG_CYCLE_LEN);
    }

    fn jumpahead<N>(&mut self, n: N) where N: IntTypes
        ensures
            n.as_int() >= 0 ==> final(self).state() == cong_steps(
                old(self).state(),
                n.as_int() as nat,
            ),
    {
        proof {
            if n.as_int() >= 0 {
                lemma_cong_jump_exact(self.cong, n.as_int() as nat);
            }
        }
        let n_mod: u64 = modulo(n, CONG_CYCLE_LEN);
        let count: u32 = n_mod as u32;
        let mult_exp: u32 = wrapping_pow(CONG_MULT, count);
        let add_const: u32 = wrapping_geom_series(CONG_MULT, count).wrapping_mul(CONG_CONST);
        proof {
            let a = CONG_MULT as int;
            let c = CONG_CONST as int;
            let w = 0x1_0000_0000int;
            let x = self.cong as int;
            let k = count as nat;
            lemma_pow2_values();
            lemma_cong_steps_closed_form(self.cong, k);
            lemma_mod_twice(pow(a, k), w);
            lemma_congruent_product(mult_exp as int, pow(a, k), x, x, w);
            lemma_mod_twice(geom_sum(a, k), w);
            lemma_congruent_product(geom_sum(a, k) % w, geom_sum(a, k), c, c, w);
            lemma_mod_twice((geom_sum(a, k) % w) * c, w);
            lemma_mod_twice(mult_exp * x, w);
            lemma_congruent_sum(
                (mult_exp * x) % w,
                pow(a, k) * x,
                add_const as int,
                geom_sum(a, k) * c,
                w,
            );
            assert(geom_sum(a, k) * c == c * geom_sum(a, k)) by (nonlinear_arith);
        }
        self.cong = mult_exp.wrapping_mul(self.cong).wrapping_add(add_const);
    }
}

} // verus!
