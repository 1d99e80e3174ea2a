//! Bitwise operations seen as functions on natural numbers.
//!
//! Every machine word of at most 128 bits stands for a natural number below
//! `2^128`. The functions here give exclusive-or and conjunction on those
//! numbers, and the lemmas relate them to single bits, to powers of two and
//! to division and remainder, so that proofs about words of any width can
//! share them.

use vstd::prelude::*;
use vstd::arithmetic::div_mod::*;
use vstd::arithmetic::mul::*;
use vstd::arithmetic::power2::*;
use vstd::bits::lemma_u128_shr_is_div;

verus! {

/// Bitwise exclusive-or of `a` and `b`.
pub open spec fn bit_xor(a: nat, b: nat) -> nat {
    ((a as u128) ^ (b as u128)) as nat
}

/// Bitwise conjunction of `a` and `b`.
pub open spec fn bit_and(a: nat, b: nat) -> nat {
    ((a as u128) & (b as u128)) as nat
}

/// Bitwise disjunction of `a` and `b`.
pub open spec fn bit_or(a: nat, b: nat) -> nat {
    ((a as u128) | (b as u128)) as nat
}

/// Whether bit `i` of `x` is set, bit 0 being the least significant.
pub open spec fn bit(x: nat, i: nat) -> bool {
    (x / pow2(i)) % 2 == 1
}

/// The number `c` shifted left by `s` bits, within `width` bits.
pub open spec fn shift_left(c: nat, s: nat, width: nat) -> nat {
    (c * pow2(s)) % pow2(width)
}

/// The number `c` shifted right by `s` bits.
pub open spec fn shift_right(c: nat, s: nat) -> nat {
    c / pow2(s)
}

/// The powers of two at the widths of the machine integers, written out.
pub proof fn lemma_pow2_values()
    ensures
        pow2(0) == 1,
        pow2(1) == 2,
        pow2(7) == 0x80,
        pow2(8) == 0x100,
        pow2(15) == 0x8000,
        pow2(16) == 0x1_0000,
        pow2(31) == 0x8000_0000,
        pow2(32) == 0x1_0000_0000,
        pow2(63) == 0x8000_0000_0000_0000,
        pow2(64) == 0x1_0000_0000_0000_0000,
        pow2(127) == 0x8000_0000_0000_0000_0000_0000_0000_0000,
        pow2(128) == 0x1_0000_0000_0000_0000_0000_0000_0000_0000,
{
    lemma2_to64();
    lemma2_to64_rest();
    lemma_pow2_adds(64, 64);
    lemma_pow2_unfold(128);
    assert(0x1_0000_0000_0000_0000nat * 0x1_0000_0000_0000_0000nat
        == 0x1_0000_0000_0000_0000_0000_0000_0000_0000nat) by (nonlinear_arith);
}

/// Powers of two grow with the exponent.
pub proof fn lemma_pow2_monotone(i: nat, j: nat)
    requires
        i <= j,
    ensures
        pow2(i) <= pow2(j),
        pow2(i) > 0,
{
    lemma_pow2_pos(i);
    if i < j {
        lemma_pow2_strictly_increases(i, j);
    }
}

/// A number below `2^k` with `k <= 128` is below `2^128`.
pub proof fn lemma_fits_u128(x: nat, k: nat)
    requires
        x < pow2(k),
        k <= 128,
    ensures
        x < 0x1_0000_0000_0000_0000_0000_0000_0000_0000,
        (x as u128) as nat == x,
{
    lemma_pow2_monotone(k, 128);
    lemma_pow2_values();
}

/// A number cancels itself under exclusive-or.
pub proof fn lemma_xor_self(a: nat)
    ensures
        bit_xor(a, a) == 0,
{
    let x = a as u128;
    assert(x ^ x == 0) by (bit_vector);
}

/// Zero is neutral for exclusive-or.
pub proof fn lemma_xor_zero(a: nat)
    requires
        a < pow2(128),
    ensures
        bit_xor(a, 0) == a,
        bit_xor(0, a) == a,
{
    lemma_pow2_values();
    let x = a as u128;
    assert(x ^ 0 == x && 0 ^ x == x) by (bit_vector);
}

/// Bit `i` of a 128-bit word, by shifting and masking.
pub proof fn lemma_bit_of_word(x: u128, i: nat)
    requires
        i < 128,
    ensures
        bit(x as nat, i) == ((x >> (i as u128)) & 1 == 1),
{
    let s = i as u128;
    lemma_u128_shr_is_div(x, s);
    let y = x >> s;
    assert(y & 1 == y % 2) by (bit_vector);
}

/// A number below `2^k` has no bit set at position `k` or above.
pub proof fn lemma_bit_above(x: nat, k: nat, i: nat)
    requires
        x < pow2(k),
        k <= i,
    ensures
        !bit(x, i),
{
    lemma_pow2_monotone(k, i);
    lemma_basic_div(x as int, pow2(i) as int);
}

/// The bits of an exclusive-or are the exclusive-or of the bits.
pub proof fn lemma_xor_bit(a: nat, b: nat, i: nat)
    requires
        a < pow2(128),
        b < pow2(128),
    ensures
        bit(bit_xor(a, b), i) == (bit(a, i) != bit(b, i)),
{
    lemma_pow2_values();
    let x = a as u128;
    let y = b as u128;
    if i < 128 {
        let s = i as u128;
        lemma_bit_of_word(x, i);
        lemma_bit_of_word(y, i);
        lemma_bit_of_word(x ^ y, i);
        assert((((x ^ y) >> s) & 1 == 1) == (((x >> s) & 1 == 1) != ((y >> s) & 1 == 1)))
            by (bit_vector);
    } else {
        lemma_bit_above(a, 128, i);
        lemma_bit_above(b, 128, i);
        lemma_bit_above(bit_xor(a, b), 128, i);
    }
}

/// Reducing modulo `2^j` and then modulo `2^i` with `i <= j` is reducing
/// modulo `2^i`.
pub proof fn lemma_mod_pow2_twice(x: nat, i: nat, j: nat)
    requires
        i <= j,
    ensures
        (x % pow2(j)) % pow2(i) == x % pow2(i),
{
    lemma_pow2_pos(i);
    lemma_pow2_pos((j - i) as nat);
    lemma_pow2_adds(i, (j - i) as nat);
    lemma_mod_mod(x as int, pow2(i) as int, pow2((j - i) as nat) as int);
}

/// Shifting a 128-bit word left by `n` multiplies it by `2^n` modulo `2^128`.
pub proof fn lemma_shl_word(x: u128, n: nat)
    requires
        n < 128,
    ensures
        (x << (n as u128)) as nat == (x as nat * pow2(n)) % pow2(128),
    decreases n,
{
    lemma_pow2_values();
    if n == 0 {
        assert(x << 0u128 == x) by (bit_vector);
        assert(x as nat * 1 == x as nat);
    } else {
        let p = (n - 1) as nat;
        let s = p as u128;
        let t = n as u128;
        let y = x << s;
        lemma_shl_word(x, p);
        assert(x << t == (x << s) << 1u128) by (bit_vector)
            requires
                t == s + 1,
                t < 128,
        ;
        assert((y << 1u128) as int == (2 * y) % 0x1_0000_0000_0000_0000_0000_0000_0000_0000int)
            by (bit_vector);
        let w = pow2(128) as int;
        let a = x as nat * pow2(p);
        lemma_pow2_unfold(n);
        assert(x as nat * pow2(n) == 2 * a) by (nonlinear_arith)
            requires
                pow2(n) == 2 * pow2(p),
                a == x as nat * pow2(p),
        ;
        lemma_mul_mod_noop_right(2, a as int, w);
    }
}

/// The sum of two numbers below `w`, reduced modulo `w`.
pub proof fn lemma_wrapped_sum(a: nat, b: nat, w: nat)
    requires
        a < w,
        b < w,
    ensures
        (a + b) % w == if a + b >= w {
            a + b - w
        } else {
            (a + b) as int
        },
{
    if a + b >= w {
        lemma_mod_sub_multiples_vanish((a + b) as int, w as int);
        lemma_small_mod((a + b - w) as nat, w);
    } else {
        lemma_small_mod(a + b, w);
    }
}

/// The difference of two numbers below `w`, reduced modulo `w`.
pub proof fn lemma_wrapped_difference(a: nat, b: nat, w: nat)
    requires
        a < w,
        b < w,
    ensures
        (a - b) % (w as int) == if a < b {
            a - b + w
        } else {
            a - b
        },
{
    if a < b {
        lemma_mod_add_multiples_vanish(a - b, w as int);
        lemma_small_mod((a - b + w) as nat, w);
    } else {
        lemma_small_mod((a - b) as nat, w);
    }
}

/// The lowest bit of a number is its remainder modulo 2.
pub proof fn lemma_and_one(x: nat)
    requires
        x < pow2(128),
    ensures
        bit_and(x, 1) == x % 2,
{
    lemma_pow2_values();
    let y = x as u128;
    assert(y & 1 == y % 2) by (bit_vector);
}

/// Four numbers under exclusive-or may be paired either way.
pub proof fn lemma_xor_interchange(a: nat, b: nat, c: nat, d: nat)
    ensures
        bit_xor(bit_xor(a, b), bit_xor(c, d)) == bit_xor(bit_xor(a, c), bit_xor(b, d)),
{
    let x = a as u128;
    let y = b as u128;
    let z = c as u128;
    let w = d as u128;
    assert((x ^ y) ^ (z ^ w) == (x ^ z) ^ (y ^ w)) by (bit_vector);
}

/// A 128-bit word lies below `2^k` exactly if shifting it right by `k` bits
/// leaves nothing.
pub proof fn lemma_below_pow2_by_shift(x: u128, k: nat)
    requires
        k < 128,
    ensures
        (x as nat) < pow2(k) <==> x >> (k as u128) == 0,
{
    lemma_u128_shr_is_div(x, k as u128);
    lemma_pow2_pos(k);
    if (x as nat) < pow2(k) {
        lemma_basic_div(x as int, pow2(k) as int);
    } else {
        lemma_div_non_zero(x as int, pow2(k) as int);
    }
}

/// The exclusive-or of two numbers below `2^k` lies below `2^k`.
pub proof fn lemma_xor_bound(a: nat, b: nat, k: nat)
    requires
        a < pow2(k),
        b < pow2(k),
        k <= 128,
    ensures
        bit_xor(a, b) < pow2(k),
{
    lemma_pow2_values();
    if k < 128 {
        lemma_fits_u128(a, k);
        lemma_fits_u128(b, k);
        let x = a as u128;
        let y = b as u128;
        let s = k as u128;
        lemma_below_pow2_by_shift(x, k);
        lemma_below_pow2_by_shift(y, k);
        lemma_below_pow2_by_shift(x ^ y, k);
        assert((x ^ y) >> s == 0) by (bit_vector)
            requires
                x >> s == 0,
                y >> s == 0,
        ;
    }
}

/// A conjunction is at most its first operand.
pub proof fn lemma_and_bound(a: nat, b: nat)
    requires
        a < pow2(128),
    ensures
        bit_and(a, b) <= a,
{
    lemma_pow2_values();
    let x = a as u128;
    let y = b as u128;
    assert(x & y <= x) by (bit_vector);
}

/// The only bit of `2^j` that is set is bit `j`.
pub proof fn lemma_bit_of_pow2(j: nat, i: nat)
    ensures
        bit(pow2(j), i) == (i == j),
{
    lemma_pow2_pos(i);
    lemma_pow2_pos(j);
    if i == j {
        lemma_div_by_self(pow2(i) as int);
    } else if i > j {
        lemma_pow2_strictly_increases(j, i);
        lemma_basic_div(pow2(j) as int, pow2(i) as int);
    } else {
        lemma_pow2_subtracts(i, j);
        lemma_pow2_unfold((j - i) as nat);
    }
}

/// Zero has no bit set.
pub proof fn lemma_bit_of_zero(i: nat)
    ensures
        !bit(0, i),
{
    lemma_pow2_pos(i);
    lemma_basic_div(0, pow2(i) as int);
}

/// Setting bit `i` of a number below `2^i` adds `2^i` to it.
pub proof fn lemma_xor_pow2_above(a: nat, i: nat)
    requires
        a < pow2(i),
        i < 128,
    ensures
        bit_xor(a, pow2(i)) == a + pow2(i),
{
    lemma_pow2_values();
    lemma_fits_u128(a, i);
    lemma_pow2_strictly_increases(i, 128);
    let x = a as u128;
    let p = pow2(i) as u128;
    let s = i as u128;
    lemma_below_pow2_by_shift(x, i);
    lemma_shl_word(1, i);
    lemma_small_mod(pow2(i), pow2(128));
    assert(1 * pow2(i) == pow2(i));
    assert(x ^ p == x + p) by (bit_vector)
        requires
            x >> s == 0,
            p == 1u128 << s,
            s < 128,
    ;
}

/// The lowest `i + 1` bits of a number are its lowest `i` bits and bit `i`.
pub proof fn lemma_low_bits_step(x: nat, i: nat)
    ensures
        x % pow2(i + 1) == x % pow2(i) + if bit(x, i) {
            pow2(i)
        } else {
            0
        },
{
    lemma_pow2_pos(i);
    lemma_pow2_unfold(i + 1);
    lemma_mod_breakdown(x as int, pow2(i) as int, 2);
    let h = (x / pow2(i)) % 2;
    assert(pow2(i) * h == if h == 1 {
        pow2(i)
    } else {
        0
    }) by (nonlinear_arith)
        requires
            h == 0 || h == 1,
    ;
}

/// Masking with the lowest `k` bits keeps the remainder modulo `2^k`.
pub proof fn lemma_and_low_mask(x: nat, k: nat)
    requires
        x < pow2(128),
        k <= 128,
    ensures
        bit_and(x, (pow2(k) - 1) as nat) == x % pow2(k),
{
    lemma_pow2_values();
    lemma_pow2_pos(k);
    let y = x as u128;
    if k == 128 {
        assert(y & 0xffff_ffff_ffff_ffff_ffff_ffff_ffff_ffffu128 == y) by (bit_vector);
        lemma_small_mod(x, pow2(128));
    } else {
        let s = k as u128;
        let p = pow2(k) as u128;
        let q = y >> s;
        lemma_pow2_strictly_increases(k, 128);
        lemma_shl_word(1, k);
        lemma_small_mod(pow2(k), pow2(128));
        assert(1 * pow2(k) == pow2(k));
        assert(y & ((p - 1) as u128) == y - (q << s)) by (bit_vector)
            requires
                p == 1u128 << s,
                q == y >> s,
                s < 128,
        ;
        lemma_u128_shr_is_div(y, s);
        lemma_shl_word(q, k);
        lemma_fundamental_div_mod(x as int, pow2(k) as int);
        assert(q as nat * pow2(k) == pow2(k) * (x / pow2(k))) by (nonlinear_arith)
            requires
                q as nat == x / pow2(k),
        ;
        lemma_small_mod(q as nat * pow2(k), pow2(128));
    }
}

/// Conjunction with a mask distributes over exclusive-or.
pub proof fn lemma_and_distributes_over_xor(a: nat, b: nat, m: nat)
    ensures
        bit_and(bit_xor(a, b), m) == bit_xor(bit_and(a, m), bit_and(b, m)),
        bit_and(0, m) == 0,
{
    let x = a as u128;
    let y = b as u128;
    let z = m as u128;
    assert((x ^ y) & z == (x & z) ^ (y & z)) by (bit_vector);
    assert(0u128 & z == 0) by (bit_vector);
}

/// A number shifted left by at least as many bits as the width has left
/// the width.
pub proof fn lemma_shift_left_out(c: nat, s: nat, width: nat)
    requires
        width <= s,
    ensures
        shift_left(c, s, width) == 0,
{
    lemma_pow2_pos(width);
    lemma_pow2_adds((s - width) as nat, width);
    assert(c * pow2(s) == (c * pow2((s - width) as nat)) * pow2(width)) by (nonlinear_arith)
        requires
            pow2(s) == pow2((s - width) as nat) * pow2(width),
    ;
    lemma_mod_multiples_basic((c * pow2((s - width) as nat)) as int, pow2(width) as int);
}

/// A left shift within `width` bits, on a 128-bit word: shift, then mask.
pub proof fn lemma_shift_left_of_word(x: u128, s: nat, width: nat)
    requires
        s < 128,
        width <= 128,
    ensures
        shift_left(x as nat, s, width) == bit_and(
            (x << (s as u128)) as nat,
            (pow2(width) - 1) as nat,
        ),
{
    lemma_pow2_values();
    lemma_pow2_pos(width);
    lemma_shl_word(x, s);
    lemma_and_low_mask((x << (s as u128)) as nat, width);
    lemma_mod_pow2_twice(x as nat * pow2(s), width, 128);
}

/// Shifting left by `s + 1` bits is shifting left by `s` bits and then by
/// one more.
pub proof fn lemma_shift_left_step(c: nat, s: nat, width: nat)
    ensures
        shift_left(c, s + 1, width) == shift_left(shift_left(c, s, width), 1, width),
{
    lemma_pow2_values();
    lemma_pow2_pos(width);
    lemma_pow2_unfold(s + 1);
    assert(c * pow2(s + 1) == (c * pow2(s)) * 2) by (nonlinear_arith)
        requires
            pow2(s + 1) == 2 * pow2(s),
    ;
    lemma_mul_mod_noop_left((c * pow2(s)) as int, 2, pow2(width) as int);
}

/// Shifting right by `s + 1` bits is shifting right by `s` bits and then
/// by one more.
pub proof fn lemma_shift_right_step(c: nat, s: nat)
    ensures
        shift_right(c, s + 1) == shift_right(shift_right(c, s), 1),
{
    lemma_pow2_values();
    lemma_pow2_pos(s);
    lemma_pow2_unfold(s + 1);
    lemma_div_denominator(c as int, pow2(s) as int, 2);
}

/// A left shift within `width` bits distributes over exclusive-or.
pub proof fn lemma_shift_left_distributes_over_xor(a: nat, b: nat, s: nat, width: nat)
    requires
        a < pow2(128),
        b < pow2(128),
        width <= 128,
    ensures
        shift_left(bit_xor(a, b), s, width) == bit_xor(
            shift_left(a, s, width),
            shift_left(b, s, width),
        ),
        shift_left(0, s, width) == 0,
    decreases s,
{
    lemma_pow2_values();
    lemma_pow2_pos(width);
    lemma_pow2_monotone(width, 128);
    assert(0 * pow2(s) == 0);
    lemma_small_mod(0, pow2(width));
    let m = (pow2(width) - 1) as nat;
    if s == 0 {
        assert(a * pow2(0) == a);
        assert(b * pow2(0) == b);
        assert(bit_xor(a, b) * pow2(0) == bit_xor(a, b));
        lemma_and_low_mask(a, width);
        lemma_and_low_mask(b, width);
        lemma_and_low_mask(bit_xor(a, b), width);
        lemma_and_distributes_over_xor(a, b, m);
    } else {
        let p = (s - 1) as nat;
        let a1 = shift_left(a, p, width);
        let b1 = shift_left(b, p, width);
        lemma_shift_left_distributes_over_xor(a, b, p, width);
        lemma_shift_left_step(a, p, width);
        lemma_shift_left_step(b, p, width);
        lemma_shift_left_step(bit_xor(a, b), p, width);
        lemma_mod_bound((a * pow2(p)) as int, pow2(width) as int);
        lemma_mod_bound((b * pow2(p)) as int, pow2(width) as int);
        let x = a1 as u128;
        let y = b1 as u128;
        let z = m as u128;
        lemma_shift_left_of_word(x, 1, width);
        lemma_shift_left_of_word(y, 1, width);
        lemma_shift_left_of_word(x ^ y, 1, width);
        assert(((x ^ y) << 1u128) & z == ((x << 1u128) & z) ^ ((y << 1u128) & z)) by (bit_vector);
    }
}

/// A right shift distributes over exclusive-or.
pub proof fn lemma_shift_right_distributes_over_xor(a: nat, b: nat, s: nat)
    requires
        a < pow2(128),
        b < pow2(128),
    ensures
        shift_right(bit_xor(a, b), s) == bit_xor(shift_right(a, s), shift_right(b, s)),
        shift_right(0, s) == 0,
    decreases s,
{
    lemma_pow2_values();
    lemma_pow2_pos(s);
    lemma_basic_div(0, pow2(s) as int);
    if s == 0 {
        lemma_div_basics(a as int);
        lemma_div_basics(b as int);
        lemma_div_basics(bit_xor(a, b) as int);
        assert(shift_right(a, 0) == a);
        assert(shift_right(b, 0) == b);
        assert(shift_right(bit_xor(a, b), 0) == bit_xor(a, b));
    } else {
        let p = (s - 1) as nat;
        let a1 = shift_right(a, p);
        let b1 = shift_right(b, p);
        lemma_shift_right_distributes_over_xor(a, b, p);
        lemma_shift_right_step(a, p);
        lemma_shift_right_step(b, p);
        lemma_shift_right_step(bit_xor(a, b), p);
        lemma_pow2_pos(p);
        lemma_div_nonincreasing(a as int, pow2(p) as int);
        lemma_div_nonincreasing(b as int, pow2(p) as int);
        let x = a1 as u128;
        let y = b1 as u128;
        lemma_u128_shr_is_div(x, 1);
        lemma_u128_shr_is_div(y, 1);
        lemma_u128_shr_is_div(x ^ y, 1);
        assert((x ^ y) >> 1u128 == (x >> 1u128) ^ (y >> 1u128)) by (bit_vector);
    }
}

/// The mask of the lowest `k` bits covers a number exactly if the number
/// has no bit at position `k` or above: `(2^k - 1) | x` is the mask again
/// if and only if `x` lies below `2^k`.
pub proof fn lemma_mask_covers(x: nat, k: nat)
    requires
        x < pow2(128),
        k <= 128,
    ensures
        bit_or((pow2(k) - 1) as nat, x) == pow2(k) - 1 <==> x < pow2(k),
{
    lemma_pow2_values();
    lemma_pow2_pos(k);
    let y = x as u128;
    if k == 128 {
        assert(0xffff_ffff_ffff_ffff_ffff_ffff_ffff_ffffu128 | y
            == 0xffff_ffff_ffff_ffff_ffff_ffff_ffff_ffffu128) by (bit_vector);
    } else {
        let s = k as u128;
        let p = pow2(k) as u128;
        lemma_pow2_strictly_increases(k, 128);
        lemma_shl_word(1, k);
        lemma_small_mod(pow2(k), pow2(128));
        assert(1 * pow2(k) == pow2(k));
        lemma_below_pow2_by_shift(y, k);
        assert((((p - 1) as u128) | y == (p - 1) as u128) <==> y >> s == 0) by (bit_vector)
            requires
                p == 1u128 << s,
                s < 128,
        ;
    }
}

} // verus!
