//! Small, fast pseudo-random number generators that can jump ahead.
//!
//! The generators are those of Marsaglia's family and two combined
//! Tausworthe generators: [`Cong`], [`SHR3`], [`MWC1`], [`MWC2`], [`MWC64`],
//! [`KISS`], [`KISS2`], [`LFSR88`] and [`LFSR113`]. Each is seeded by
//! `new`, gives its stream word by word with `next_u32`, and jumps ahead or
//! back in the stream by any number of steps with
//! [`RngJumpAhead::jumpahead`], in a time that grows with the logarithm of
//! that number.
//!
//! Two engines carry the jumps. The generators that are linear over GF(2)
//! jump by a power of the matrix of their step ([`bitmatrix`], with its
//! algebra in [`gf2`]). The congruential generators jump by powers and
//! geometric series in modular and wrapping arithmetic ([`math`]).
//!
//! The crate is verified with Verus: every function carries a contract that
//! says what it computes, down to the law that a jump leads to the state
//! that as many single steps lead to.

pub mod arith;
pub mod bitmatrix;
pub mod bits;
pub mod cong;
pub mod gf2;
pub mod jump;
pub mod kiss;
pub mod lfsr;
pub mod machine_int;
pub mod math;
pub mod mwc;
pub mod orders;
pub mod shr3;
pub mod uint;

pub use crate::cong::Cong;
pub use crate::jump::RngJumpAhead;
pub use crate::kiss::{KISS, KISS2};
pub use crate::lfsr::{LFSR113, LFSR88};
pub use crate::mwc::{MWC1, MWC2, MWC64};
pub use crate::shr3::SHR3;
