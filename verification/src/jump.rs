//! Jumping ahead in the stream of a generator.

use vstd::prelude::*;
use crate::math::IntTypes;

verus! {

/// A generator that can jump ahead in its stream: it moves to the state
/// that a given number of steps would lead to, without making the steps.
///
/// The state of a generator is a plain value, `state()`. One step takes a
/// valid state `s` to `step(s)`. A jump by `n` takes it to `jumped(s, n)`,
/// which for every count from 0 up to `exact_below()` is the state after `n`
/// steps.
pub trait RngJumpAhead: Sized {
    /// The words that make up the state of the generator.
    type State;

    /// The state of the generator.
    spec fn state(&self) -> Self::State;

    /// Whether `s` is a state that the generator can be in.
    spec fn valid(s: Self::State) -> bool;

    /// The state after one step from `s`.
    spec fn step(s: Self::State) -> Self::State;

    /// The state after `n` steps from `s`.
    spec fn steps(s: Self::State, n: nat) -> Self::State;

    /// The state after a jump by `n` from `s`. A negative `n` jumps back.
    spec fn jumped(s: Self::State, n: int) -> Self::State;

    /// The count below which a jump is exact without regard to the
    /// lengths of the cycles of the generator.
    spec fn exact_below() -> nat;

    /// A count that jumps by whole cycles of every part of the generator.
    spec fn cycle_len() -> nat;

    /// No steps leave the state as it is, and `n + 1` steps are `n` steps
    /// and one more.
    proof fn lemma_steps(s: Self::State, n: nat)
        ensures
            Self::steps(s, 0) == s,
            Self::steps(s, n + 1) == Self::step(Self::steps(s, n)),
    ;

    /// A step leads from a valid state to a valid state.
    proof fn lemma_step_valid(s: Self::State)
        requires
            Self::valid(s),
        ensures
            Self::valid(Self::step(s)),
    ;

    /// Jumps are exact for more than a million steps.
    proof fn lemma_exact_below()
        ensures
            Self::exact_below() > 1_000_000,
    ;

    /// A jump by `n` leads where `n` steps lead, for every `n` from 0 up to
    /// `exact_below()`.
    proof fn lemma_jump_is_steps(s: Self::State, n: nat)
        requires
            Self::valid(s),
            n < Self::exact_below(),
        ensures
            Self::jumped(s, n as int) == Self::steps(s, n),
    ;

    /// Whole cycles make no difference to a jump: a jump by
    /// `n + k * cycle_len()` leads where a jump by `n` leads.
    proof fn lemma_jump_periodic(s: Self::State, n: int, k: int)
        ensures
            Self::cycle_len() > 0,
            Self::jumped(s, n + k * Self::cycle_len()) == Self::jumped(s, n),
    ;

    /// Jumps ahead by `n` steps, or back by `-n` steps if `n` is negative,
    /// in a time that grows with the logarithm of `n`. The count may be of
    /// any integer type.
    fn jumpahead<N>(&mut self, n: N) where N: IntTypes
        requires
            Self::valid(old(self).state()),
        ensures
            Self::valid(final(self).state()),
            final(self).state() == Self::jumped(old(self).state(), n.as_int()),
    ;
}

/// A jump by up to a million steps, and one step more, lead where as many
/// single steps lead: after the jump the generator goes on with the very
/// stream that stepping would have reached.
pub proof fn lemma_jump_then_step<G: RngJumpAhead>(s: G::State, n: nat)
    requires
        G::valid(s),
        n <= 1_000_000,
    ensures
        G::jumped(s, n as int) == G::steps(s, n),
        G::step(G::jumped(s, n as int)) == G::steps(s, n + 1),
{
    G::lemma_exact_below();
    G::lemma_jump_is_steps(s, n);
    G::lemma_steps(s, n);
}

/// A jump by a whole cycle returns to the state that it started from.
pub proof fn lemma_jump_by_cycle_returns<G: RngJumpAhead>(s: G::State)
    requires
        G::valid(s),
    ensures
        G::jumped(s, G::cycle_len() as int) == s,
{
    G::lemma_jump_periodic(s, 0, 1);
    G::lemma_exact_below();
    G::lemma_jump_is_steps(s, 0);
    G::lemma_steps(s, 0);
    assert(0 + 1 * G::cycle_len() == G::cycle_len()) by (nonlinear_arith);
}

} // verus!
