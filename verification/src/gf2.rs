//! Square matrices over GF(2), as sequences of columns.
//!
//! A matrix of `width` columns is a sequence of `width` natural numbers below
//! `2^width`. Number `j` is column `j`, and its bit `i` is the entry in row
//! `i`. A vector is a natural number in the same way. Addition in GF(2) is
//! exclusive-or, so a matrix times a vector is the exclusive-or of the columns
//! that the set bits of the vector pick.
//!
//! The functions here say what the operations of [`crate::bitmatrix`] compute,
//! and the lemmas state the algebra that holds of them.

use vstd::prelude::*;
use vstd::arithmetic::div_mod::lemma_small_mod;
use vstd::arithmetic::power2::{lemma_pow2_pos, lemma_pow2_strictly_increases, pow2};
use crate::bits::{
    bit, bit_and, bit_xor, lemma_and_distributes_over_xor, lemma_bit_of_pow2, lemma_bit_of_zero,
    lemma_fits_u128, lemma_low_bits_step, lemma_pow2_monotone, lemma_pow2_values,
    lemma_shift_left_distributes_over_xor, lemma_shift_right_distributes_over_xor, lemma_xor_bit,
    lemma_xor_bound, lemma_xor_interchange, lemma_xor_pow2_above, lemma_xor_self, lemma_xor_zero,
    shift_left, shift_right,
};

verus! {

/// Whether `m` is a square matrix of `width` columns: it has `width`
/// columns, each below `2^width`, and `width` is at most 128.
pub open spec fn is_matrix(m: Seq<nat>, width: nat) -> bool {
    &&& width <= 128
    &&& m.len() == width
    &&& forall|j: int| 0 <= j < width ==> #[trigger] m[j] < pow2(width)
}

/// The column `c` if `pick` holds and the zero column if not.
pub open spec fn pick_column(pick: bool, c: nat) -> nat {
    if pick {
        c
    } else {
        0
    }
}

/// The exclusive-or of those among the first `n` columns of `m` whose bit in
/// `b` is set.
pub open spec fn dot_vec_upto(m: Seq<nat>, b: nat, n: nat) -> nat
    decreases n,
{
    if n == 0 {
        0
    } else {
        bit_xor(dot_vec_upto(m, b, (n - 1) as nat), pick_column(bit(b, (n - 1) as nat), m[n - 1]))
    }
}

/// The matrix `m` times the vector `b`.
pub open spec fn mat_dot_vec(m: Seq<nat>, b: nat) -> nat {
    dot_vec_upto(m, b, m.len())
}

/// The product of the matrices `a` and `b`: column `j` is `a` times column
/// `j` of `b`.
pub open spec fn mat_mul(a: Seq<nat>, b: Seq<nat>) -> Seq<nat> {
    Seq::new(b.len(), |j: int| mat_dot_vec(a, b[j]))
}

/// The sum of the matrices `a` and `b`: the exclusive-or, column by column.
pub open spec fn mat_add(a: Seq<nat>, b: Seq<nat>) -> Seq<nat> {
    Seq::new(a.len(), |j: int| bit_xor(a[j], b[j]))
}

/// The zero matrix of `width` columns.
pub open spec fn mat_zero(width: nat) -> Seq<nat> {
    Seq::new(width, |j: int| 0nat)
}

/// The identity matrix of `width` columns: column `j` has bit `j` alone.
pub open spec fn mat_one(width: nat) -> Seq<nat> {
    Seq::new(width, |j: int| pow2(j as nat))
}

/// The matrix that shifts a vector of `width` bits by `k` places, to the
/// left for a positive `k` and to the right for a negative one: column `j`
/// has bit `j + k` alone, where there is such a bit.
pub open spec fn mat_shift(width: nat, k: int) -> Seq<nat> {
    Seq::new(
        width,
        |j: int|
            if 0 <= j + k < width {
                pow2((j + k) as nat)
            } else {
                0
            },
    )
}

/// The power `n` of the matrix `a`; the power 0 is the identity.
pub open spec fn mat_pow(a: Seq<nat>, n: nat) -> Seq<nat>
    decreases n,
{
    if n == 0 {
        mat_one(a.len())
    } else {
        mat_mul(mat_pow(a, (n - 1) as nat), a)
    }
}

/// The matrix `a` with every column masked by `mask`.
pub open spec fn mat_and(a: Seq<nat>, mask: nat) -> Seq<nat> {
    Seq::new(a.len(), |j: int| bit_and(a[j], mask))
}

/// The matrix `a` with every column shifted left by `s` bits, within the
/// width of the matrix.
pub open spec fn mat_shl(a: Seq<nat>, s: nat) -> Seq<nat> {
    Seq::new(a.len(), |j: int| shift_left(a[j], s, a.len()))
}

/// The matrix `a` with every column shifted right by `s` bits.
pub open spec fn mat_shr(a: Seq<nat>, s: nat) -> Seq<nat> {
    Seq::new(a.len(), |j: int| shift_right(a[j], s))
}

/// A matrix times a vector is a vector of the same width.
pub proof fn lemma_dot_vec_upto_bound(m: Seq<nat>, b: nat, n: nat, width: nat)
    requires
        is_matrix(m, width),
        n <= width,
    ensures
        dot_vec_upto(m, b, n) < pow2(width),
    decreases n,
{
    lemma_pow2_pos(width);
    if n > 0 {
        lemma_dot_vec_upto_bound(m, b, (n - 1) as nat, width);
        lemma_xor_bound(
            dot_vec_upto(m, b, (n - 1) as nat),
            pick_column(bit(b, (n - 1) as nat), m[n - 1]),
            width,
        );
    }
}

/// A matrix times the zero vector is the zero vector.
pub proof fn lemma_dot_vec_upto_zero(m: Seq<nat>, n: nat)
    ensures
        dot_vec_upto(m, 0, n) == 0,
    decreases n,
{
    if n > 0 {
        lemma_dot_vec_upto_zero(m, (n - 1) as nat);
        lemma_bit_of_zero((n - 1) as nat);
        lemma_xor_self(0);
    }
}

/// A matrix times a vector is linear in the vector.
pub proof fn lemma_dot_vec_upto_linear(m: Seq<nat>, x: nat, y: nat, n: nat, width: nat)
    requires
        is_matrix(m, width),
        n <= width,
        x < pow2(128),
        y < pow2(128),
    ensures
        dot_vec_upto(m, bit_xor(x, y), n) == bit_xor(dot_vec_upto(m, x, n), dot_vec_upto(m, y, n)),
    decreases n,
{
    if n == 0 {
        lemma_xor_self(0);
    } else {
        let p = (n - 1) as nat;
        let c = m[n - 1];
        lemma_dot_vec_upto_linear(m, x, y, p, width);
        lemma_xor_bit(x, y, p);
        lemma_fits_u128(c, width);
        lemma_pow2_values();
        lemma_xor_self(c);
        lemma_xor_self(0);
        lemma_xor_zero(c);
        assert(pick_column(bit(bit_xor(x, y), p), c) == bit_xor(
            pick_column(bit(x, p), c),
            pick_column(bit(y, p), c),
        ));
        lemma_xor_interchange(
            dot_vec_upto(m, x, p),
            dot_vec_upto(m, y, p),
            pick_column(bit(x, p), c),
            pick_column(bit(y, p), c),
        );
    }
}

/// A matrix times a vector is a vector of the same width.
pub proof fn lemma_dot_vec_bound(m: Seq<nat>, b: nat, width: nat)
    requires
        is_matrix(m, width),
    ensures
        mat_dot_vec(m, b) < pow2(width),
        mat_dot_vec(m, b) < pow2(128),
{
    lemma_dot_vec_upto_bound(m, b, width, width);
    lemma_pow2_monotone(width, 128);
}

/// A matrix times a vector is linear in the vector:
/// `m * (x ^ y) = (m * x) ^ (m * y)`.
pub proof fn lemma_dot_vec_linear(m: Seq<nat>, x: nat, y: nat, width: nat)
    requires
        is_matrix(m, width),
        x < pow2(128),
        y < pow2(128),
    ensures
        mat_dot_vec(m, bit_xor(x, y)) == bit_xor(mat_dot_vec(m, x), mat_dot_vec(m, y)),
{
    lemma_dot_vec_upto_linear(m, x, y, width, width);
}

/// The product of two matrices is a matrix.
pub proof fn lemma_mat_mul_is_matrix(a: Seq<nat>, b: Seq<nat>, width: nat)
    requires
        is_matrix(a, width),
        is_matrix(b, width),
    ensures
        is_matrix(mat_mul(a, b), width),
{
    assert forall|j: int| 0 <= j < width implies #[trigger] mat_mul(a, b)[j] < pow2(width) by {
        lemma_dot_vec_bound(a, b[j], width);
    }
}

/// Applying `a` to what `b` makes of a vector is applying the product of `a`
/// and `b` to it, for the first `n` columns of `b`.
pub proof fn lemma_dot_vec_upto_compose(a: Seq<nat>, b: Seq<nat>, c: nat, n: nat, width: nat)
    requires
        is_matrix(a, width),
        is_matrix(b, width),
        n <= width,
    ensures
        mat_dot_vec(a, dot_vec_upto(b, c, n)) == dot_vec_upto(mat_mul(a, b), c, n),
    decreases n,
{
    if n == 0 {
        lemma_dot_vec_upto_zero(a, width);
    } else {
        let p = (n - 1) as nat;
        let rest = dot_vec_upto(b, c, p);
        let last = pick_column(bit(c, p), b[n - 1]);
        lemma_dot_vec_upto_compose(a, b, c, p, width);
        lemma_dot_vec_upto_bound(b, c, p, width);
        lemma_pow2_monotone(width, 128);
        lemma_dot_vec_linear(a, rest, last, width);
        lemma_dot_vec_upto_zero(a, width);
        assert(mat_dot_vec(a, last) == pick_column(bit(c, p), mat_mul(a, b)[n - 1]));
    }
}

/// A product of matrices times a vector: `(a * b) * c = a * (b * c)`.
pub proof fn lemma_dot_vec_compose(a: Seq<nat>, b: Seq<nat>, c: nat, width: nat)
    requires
        is_matrix(a, width),
        is_matrix(b, width),
    ensures
        mat_dot_vec(mat_mul(a, b), c) == mat_dot_vec(a, mat_dot_vec(b, c)),
{
    lemma_dot_vec_upto_compose(a, b, c, width, width);
}

/// The product of matrices is associative: `(a * b) * c = a * (b * c)`.
pub proof fn lemma_mat_mul_associative(a: Seq<nat>, b: Seq<nat>, c: Seq<nat>, width: nat)
    requires
        is_matrix(a, width),
        is_matrix(b, width),
        is_matrix(c, width),
    ensures
        mat_mul(mat_mul(a, b), c) == mat_mul(a, mat_mul(b, c)),
{
    assert forall|j: int| 0 <= j < width implies #[trigger] mat_mul(mat_mul(a, b), c)[j]
        == mat_mul(a, mat_mul(b, c))[j] by {
        lemma_dot_vec_compose(a, b, c[j], width);
    }
    assert(mat_mul(mat_mul(a, b), c) =~= mat_mul(a, mat_mul(b, c)));
}

/// A matrix added to itself is the zero matrix.
pub proof fn lemma_mat_add_self(a: Seq<nat>)
    ensures
        mat_add(a, a) == mat_zero(a.len()),
{
    assert forall|j: int| 0 <= j < a.len() implies #[trigger] mat_add(a, a)[j] == 0 by {
        lemma_xor_self(a[j]);
    }
    assert(mat_add(a, a) =~= mat_zero(a.len()));
}

/// A matrix times the vector with bit `j` alone is column `j` of the matrix,
/// once the columns taken reach `j`.
pub proof fn lemma_dot_vec_upto_pow2(m: Seq<nat>, j: nat, n: nat, width: nat)
    requires
        is_matrix(m, width),
        n <= width,
    ensures
        dot_vec_upto(m, pow2(j), n) == if j < n {
            m[j as int]
        } else {
            0
        },
    decreases n,
{
    if n > 0 {
        let p = (n - 1) as nat;
        lemma_dot_vec_upto_pow2(m, j, p, width);
        lemma_bit_of_pow2(j, p);
        lemma_xor_self(0);
        lemma_pow2_monotone(width, 128);
        if j < n {
            lemma_xor_zero(m[j as int]);
        }
    }
}

/// The identity matrix times a vector keeps the bits below the number of
/// columns taken.
pub proof fn lemma_dot_vec_upto_one(x: nat, n: nat, width: nat)
    requires
        n <= width <= 128,
    ensures
        dot_vec_upto(mat_one(width), x, n) == x % pow2(n),
    decreases n,
{
    lemma_pow2_values();
    if n > 0 {
        let p = (n - 1) as nat;
        let low = x % pow2(p);
        lemma_dot_vec_upto_one(x, p, width);
        lemma_pow2_pos(p);
        lemma_low_bits_step(x, p);
        lemma_pow2_monotone(p, 128);
        if bit(x, p) {
            lemma_xor_pow2_above(low, p);
        } else {
            lemma_xor_zero(low);
        }
    }
}

/// The identity matrix is a matrix.
pub proof fn lemma_mat_one_is_matrix(width: nat)
    requires
        width <= 128,
    ensures
        is_matrix(mat_one(width), width),
{
    assert forall|j: int| 0 <= j < width implies #[trigger] mat_one(width)[j] < pow2(width) by {
        lemma_pow2_strictly_increases(j as nat, width);
    }
}

/// The identity matrix times a vector is the vector.
pub proof fn lemma_dot_vec_one(x: nat, width: nat)
    requires
        width <= 128,
        x < pow2(width),
    ensures
        mat_dot_vec(mat_one(width), x) == x,
{
    lemma_dot_vec_upto_one(x, width, width);
    lemma_small_mod(x, pow2(width));
}

/// The identity matrix is neutral on both sides: `1 * a = a * 1 = a`.
pub proof fn lemma_mat_mul_one(a: Seq<nat>, width: nat)
    requires
        is_matrix(a, width),
    ensures
        mat_mul(mat_one(width), a) == a,
        mat_mul(a, mat_one(width)) == a,
{
    assert forall|j: int| 0 <= j < width implies #[trigger] mat_mul(mat_one(width), a)[j]
        == a[j] by {
        lemma_dot_vec_one(a[j], width);
    }
    assert(mat_mul(mat_one(width), a) =~= a);
    assert forall|j: int| 0 <= j < width implies #[trigger] mat_mul(a, mat_one(width))[j]
        == a[j] by {
        lemma_dot_vec_upto_pow2(a, j as nat, width, width);
    }
    assert(mat_mul(a, mat_one(width)) =~= a);
}

/// A power of a matrix is a matrix.
pub proof fn lemma_mat_pow_is_matrix(a: Seq<nat>, n: nat, width: nat)
    requires
        is_matrix(a, width),
    ensures
        is_matrix(mat_pow(a, n), width),
    decreases n,
{
    if n == 0 {
        lemma_mat_one_is_matrix(width);
    } else {
        lemma_mat_pow_is_matrix(a, (n - 1) as nat, width);
        lemma_mat_mul_is_matrix(mat_pow(a, (n - 1) as nat), a, width);
    }
}

/// The first power of a matrix is the matrix.
pub proof fn lemma_mat_pow_one(a: Seq<nat>, width: nat)
    requires
        is_matrix(a, width),
    ensures
        mat_pow(a, 1) == a,
{
    assert(mat_pow(a, 1) == mat_mul(mat_pow(a, 0), a));
    lemma_mat_mul_one(a, width);
}

/// Powers of one matrix multiply by adding the exponents:
/// `a^(m + n) = a^m * a^n`.
pub proof fn lemma_mat_pow_adds(a: Seq<nat>, m: nat, n: nat, width: nat)
    requires
        is_matrix(a, width),
    ensures
        mat_pow(a, m + n) == mat_mul(mat_pow(a, m), mat_pow(a, n)),
    decreases n,
{
    lemma_mat_pow_is_matrix(a, m, width);
    if n == 0 {
        lemma_mat_mul_one(mat_pow(a, m), width);
    } else {
        let p = (n - 1) as nat;
        lemma_mat_pow_adds(a, m, p, width);
        lemma_mat_pow_is_matrix(a, p, width);
        lemma_mat_mul_associative(mat_pow(a, m), mat_pow(a, p), a, width);
        assert(mat_pow(a, m + n) == mat_mul(mat_pow(a, (m + n - 1) as nat), a));
    }
}

/// A power of the square is the power of twice the exponent:
/// `(a * a)^q = a^(2q)`.
pub proof fn lemma_mat_pow_of_square(a: Seq<nat>, q: nat, width: nat)
    requires
        is_matrix(a, width),
    ensures
        mat_pow(mat_mul(a, a), q) == mat_pow(a, 2 * q),
    decreases q,
{
    lemma_mat_mul_is_matrix(a, a, width);
    if q > 0 {
        let p = (q - 1) as nat;
        lemma_mat_pow_of_square(a, p, width);
        lemma_mat_pow_one(a, width);
        lemma_mat_pow_adds(a, 1, 1, width);
        lemma_mat_pow_adds(a, 2 * p, 2, width);
    }
}

/// One round of square-and-multiply keeps `acc * t^e`: with the exponent
/// split into its half and its lowest bit,
/// `(acc * t^(e % 2)) * (t * t)^(e / 2) = acc * t^e`.
pub proof fn lemma_mat_pow_step(acc: Seq<nat>, t: Seq<nat>, e: nat, width: nat)
    requires
        is_matrix(acc, width),
        is_matrix(t, width),
    ensures
        mat_mul(mat_mul(acc, mat_pow(t, e % 2)), mat_pow(mat_mul(t, t), e / 2)) == mat_mul(
            acc,
            mat_pow(t, e),
        ),
{
    let q = e / 2;
    let r = e % 2;
    lemma_mat_pow_of_square(t, q, width);
    lemma_mat_pow_is_matrix(t, r, width);
    lemma_mat_pow_is_matrix(t, 2 * q, width);
    lemma_mat_mul_associative(acc, mat_pow(t, r), mat_pow(t, 2 * q), width);
    lemma_mat_pow_adds(t, r, 2 * q, width);
    assert(r + 2 * q == e);
}

/// Whether `f` is linear on vectors: it keeps zero and distributes over
/// exclusive-or.
pub open spec fn is_linear(f: spec_fn(nat) -> nat) -> bool {
    &&& f(0) == 0
    &&& forall|a: nat, b: nat|
        a < pow2(128) && b < pow2(128) ==> #[trigger] f(bit_xor(a, b)) == bit_xor(f(a), f(b))
}

/// Applying a linear `f` to every column of a matrix is applying it to the
/// product of the matrix and a vector.
pub proof fn lemma_dot_vec_upto_map(
    m: Seq<nat>,
    mapped: Seq<nat>,
    f: spec_fn(nat) -> nat,
    x: nat,
    n: nat,
    width: nat,
)
    requires
        is_matrix(m, width),
        n <= width,
        is_linear(f),
        mapped.len() == width,
        forall|j: int| 0 <= j < width ==> #[trigger] mapped[j] == f(m[j]),
    ensures
        dot_vec_upto(mapped, x, n) == f(dot_vec_upto(m, x, n)),
    decreases n,
{
    if n > 0 {
        let p = (n - 1) as nat;
        lemma_dot_vec_upto_map(m, mapped, f, x, p, width);
        lemma_dot_vec_upto_bound(m, x, p, width);
        lemma_pow2_monotone(width, 128);
        lemma_pow2_pos(128);
        let rest = dot_vec_upto(m, x, p);
        let last = pick_column(bit(x, p), m[n - 1]);
        assert(f(bit_xor(rest, last)) == bit_xor(f(rest), f(last)));
        assert(f(last) == pick_column(bit(x, p), mapped[n - 1]));
    }
}

/// The sum of two matrices times a vector is the sum of the two products:
/// `(a + b) * x = (a * x) ^ (b * x)`.
pub proof fn lemma_dot_vec_of_sum(a: Seq<nat>, b: Seq<nat>, x: nat, width: nat)
    requires
        is_matrix(a, width),
        is_matrix(b, width),
    ensures
        mat_dot_vec(mat_add(a, b), x) == bit_xor(mat_dot_vec(a, x), mat_dot_vec(b, x)),
{
    lemma_dot_vec_upto_of_sum(a, b, x, width, width);
}

/// The sum of two matrices times a vector, for the first `n` columns.
pub proof fn lemma_dot_vec_upto_of_sum(a: Seq<nat>, b: Seq<nat>, x: nat, n: nat, width: nat)
    requires
        is_matrix(a, width),
        is_matrix(b, width),
        n <= width,
    ensures
        dot_vec_upto(mat_add(a, b), x, n) == bit_xor(dot_vec_upto(a, x, n), dot_vec_upto(b, x, n)),
    decreases n,
{
    lemma_xor_self(0);
    if n > 0 {
        let p = (n - 1) as nat;
        lemma_dot_vec_upto_of_sum(a, b, x, p, width);
        lemma_xor_interchange(
            dot_vec_upto(a, x, p),
            dot_vec_upto(b, x, p),
            pick_column(bit(x, p), a[n - 1]),
            pick_column(bit(x, p), b[n - 1]),
        );
    }
}

/// A sum of matrices is a matrix.
pub proof fn lemma_mat_add_is_matrix(a: Seq<nat>, b: Seq<nat>, width: nat)
    requires
        is_matrix(a, width),
        is_matrix(b, width),
    ensures
        is_matrix(mat_add(a, b), width),
{
    assert forall|j: int| 0 <= j < width implies #[trigger] mat_add(a, b)[j] < pow2(width) by {
        lemma_xor_bound(a[j], b[j], width);
    }
}

/// A shift matrix is a matrix.
pub proof fn lemma_mat_shift_is_matrix(width: nat, k: int)
    requires
        width <= 128,
    ensures
        is_matrix(mat_shift(width, k), width),
{
    assert forall|j: int| 0 <= j < width implies #[trigger] mat_shift(width, k)[j] < pow2(
        width,
    ) by {
        lemma_pow2_pos(width);
        if 0 <= j + k < width {
            lemma_pow2_strictly_increases((j + k) as nat, width);
        }
    }
}

/// A masked matrix is a matrix.
pub proof fn lemma_mat_and_is_matrix(a: Seq<nat>, mask: nat, width: nat)
    requires
        is_matrix(a, width),
    ensures
        is_matrix(mat_and(a, mask), width),
{
    lemma_pow2_monotone(width, 128);
    assert forall|j: int| 0 <= j < width implies #[trigger] mat_and(a, mask)[j] < pow2(width) by {
        crate::bits::lemma_and_bound(a[j], mask);
    }
}

/// A matrix shifted left is a matrix.
pub proof fn lemma_mat_shl_is_matrix(a: Seq<nat>, s: nat, width: nat)
    requires
        is_matrix(a, width),
    ensures
        is_matrix(mat_shl(a, s), width),
{
    lemma_pow2_pos(width);
    assert forall|j: int| 0 <= j < width implies #[trigger] mat_shl(a, s)[j] < pow2(width) by {
        vstd::arithmetic::div_mod::lemma_mod_bound((a[j] * pow2(s)) as int, pow2(width) as int);
    }
}

/// A matrix shifted right is a matrix.
pub proof fn lemma_mat_shr_is_matrix(a: Seq<nat>, s: nat, width: nat)
    requires
        is_matrix(a, width),
    ensures
        is_matrix(mat_shr(a, s), width),
{
    assert forall|j: int| 0 <= j < width implies #[trigger] mat_shr(a, s)[j] < pow2(width) by {
        lemma_pow2_pos(s);
        vstd::arithmetic::div_mod::lemma_div_nonincreasing(a[j] as int, pow2(s) as int);
    }
}

/// A masked matrix times a vector is the masked product:
/// `(a & mask) * x = (a * x) & mask`.
pub proof fn lemma_dot_vec_of_masked(a: Seq<nat>, mask: nat, x: nat, width: nat)
    requires
        is_matrix(a, width),
    ensures
        mat_dot_vec(mat_and(a, mask), x) == bit_and(mat_dot_vec(a, x), mask),
{
    let f = |c: nat| bit_and(c, mask);
    assert(is_linear(f)) by {
        assert forall|c: nat, d: nat| #[trigger] f(bit_xor(c, d)) == bit_xor(f(c), f(d)) by {
            lemma_and_distributes_over_xor(c, d, mask);
        }
        lemma_and_distributes_over_xor(0, 0, mask);
    }
    lemma_dot_vec_upto_map(a, mat_and(a, mask), f, x, width, width);
}

/// A matrix shifted left times a vector is the product shifted left:
/// `(a << s) * x = (a * x) << s`, within the width of the matrix.
pub proof fn lemma_dot_vec_of_shifted_left(a: Seq<nat>, s: nat, x: nat, width: nat)
    requires
        is_matrix(a, width),
    ensures
        mat_dot_vec(mat_shl(a, s), x) == shift_left(mat_dot_vec(a, x), s, width),
{
    let f = |c: nat| shift_left(c, s, width);
    assert(is_linear(f)) by {
        assert forall|c: nat, d: nat| c < pow2(128) && d < pow2(128) implies #[trigger] f(
            bit_xor(c, d),
        ) == bit_xor(f(c), f(d)) by {
            lemma_shift_left_distributes_over_xor(c, d, s, width);
        }
        lemma_pow2_pos(128);
        lemma_shift_left_distributes_over_xor(0, 0, s, width);
    }
    lemma_dot_vec_upto_map(a, mat_shl(a, s), f, x, width, width);
}

/// A matrix shifted right times a vector is the product shifted right:
/// `(a >> s) * x = (a * x) >> s`.
pub proof fn lemma_dot_vec_of_shifted_right(a: Seq<nat>, s: nat, x: nat, width: nat)
    requires
        is_matrix(a, width),
    ensures
        mat_dot_vec(mat_shr(a, s), x) == shift_right(mat_dot_vec(a, x), s),
{
    let f = |c: nat| shift_right(c, s);
    assert(is_linear(f)) by {
        assert forall|c: nat, d: nat| c < pow2(128) && d < pow2(128) implies #[trigger] f(
            bit_xor(c, d),
        ) == bit_xor(f(c), f(d)) by {
            lemma_shift_right_distributes_over_xor(c, d, s);
        }
        lemma_pow2_pos(128);
        lemma_shift_right_distributes_over_xor(0, 0, s);
    }
    lemma_dot_vec_upto_map(a, mat_shr(a, s), f, x, width, width);
}

/// The shift matrix is the identity with its columns shifted.
pub proof fn lemma_mat_shift_is_shifted_one(width: nat, k: int)
    requires
        width <= 128,
    ensures
        k >= 0 ==> mat_shift(width, k) == mat_shl(mat_one(width), k as nat),
        k < 0 ==> mat_shift(width, k) == mat_shr(mat_one(width), (-k) as nat),
{
    lemma_pow2_pos(width);
    if k >= 0 {
        let s = k as nat;
        assert forall|j: int| 0 <= j < width implies #[trigger] mat_shift(width, k)[j] == mat_shl(
            mat_one(width),
            s,
        )[j] by {
            vstd::arithmetic::power2::lemma_pow2_adds(j as nat, s);
            if j + k < width {
                lemma_pow2_strictly_increases((j + k) as nat, width);
                lemma_small_mod(pow2((j + k) as nat), pow2(width));
            } else {
                crate::bits::lemma_shift_left_out(1, (j + k) as nat, width);
                assert(1 * pow2((j + k) as nat) == pow2(j as nat) * pow2(s));
            }
        }
        assert(mat_shift(width, k) =~= mat_shl(mat_one(width), s));
    } else {
        let s = (-k) as nat;
        assert forall|j: int| 0 <= j < width implies #[trigger] mat_shift(width, k)[j] == mat_shr(
            mat_one(width),
            s,
        )[j] by {
            lemma_pow2_pos(s);
            if j + k >= 0 {
                vstd::arithmetic::power2::lemma_pow2_subtracts(s, j as nat);
            } else {
                lemma_pow2_strictly_increases(j as nat, s);
                vstd::arithmetic::div_mod::lemma_basic_div(pow2(j as nat) as int, pow2(s) as int);
            }
        }
        assert(mat_shift(width, k) =~= mat_shr(mat_one(width), s));
    }
}

/// The shift matrix times a vector is the vector shifted: to the left
/// within the width for `k >= 0`, to the right for `k < 0`.
pub proof fn lemma_dot_vec_of_shift(width: nat, k: int, x: nat)
    requires
        width <= 128,
        x < pow2(width),
    ensures
        k >= 0 ==> mat_dot_vec(mat_shift(width, k), x) == shift_left(x, k as nat, width),
        k < 0 ==> mat_dot_vec(mat_shift(width, k), x) == shift_right(x, (-k) as nat),
{
    lemma_mat_shift_is_shifted_one(width, k);
    lemma_mat_one_is_matrix(width);
    lemma_dot_vec_one(x, width);
    if k >= 0 {
        lemma_dot_vec_of_shifted_left(mat_one(width), k as nat, x, width);
    } else {
        lemma_dot_vec_of_shifted_right(mat_one(width), (-k) as nat, x, width);
    }
}

/// A power of a matrix times a vector is the matrix applied to the vector
/// once for each unit of the exponent.
pub proof fn lemma_dot_vec_of_pow(a: Seq<nat>, n: nat, x: nat, width: nat)
    requires
        is_matrix(a, width),
        n > 0,
    ensures
        mat_dot_vec(mat_pow(a, n), x) == mat_dot_vec(a, mat_dot_vec(mat_pow(a, (n - 1) as nat), x)),
{
    let p = (n - 1) as nat;
    lemma_mat_pow_one(a, width);
    lemma_mat_pow_adds(a, 1, p, width);
    lemma_mat_pow_is_matrix(a, p, width);
    lemma_dot_vec_compose(a, mat_pow(a, p), x, width);
}

/// The function `f` applied `n` times to `x`.
pub open spec fn iterate(f: spec_fn(nat) -> nat, x: nat, n: nat) -> nat
    decreases n,
{
    if n == 0 {
        x
    } else {
        f(iterate(f, x, (n - 1) as nat))
    }
}

/// If a matrix times a vector is `f` of the vector, then power `n` of the
/// matrix times a vector is `f` applied `n` times to it.
pub proof fn lemma_dot_vec_of_pow_iterates(
    m: Seq<nat>,
    f: spec_fn(nat) -> nat,
    x: nat,
    n: nat,
    width: nat,
)
    requires
        is_matrix(m, width),
        x < pow2(width),
        forall|y: nat| y < pow2(width) ==> #[trigger] mat_dot_vec(m, y) == f(y),
    ensures
        mat_dot_vec(mat_pow(m, n), x) == iterate(f, x, n),
        iterate(f, x, n) < pow2(width),
    decreases n,
{
    if n == 0 {
        lemma_dot_vec_one(x, width);
    } else {
        let p = (n - 1) as nat;
        lemma_dot_vec_of_pow_iterates(m, f, x, p, width);
        lemma_dot_vec_of_pow(m, n, x, width);
        lemma_dot_vec_bound(m, iterate(f, x, p), width);
    }
}

/// If power `p` of a matrix is the identity, its powers repeat with the
/// period `p`: `m^(k * p + n) = m^n`.
pub proof fn lemma_mat_pow_periodic(m: Seq<nat>, p: nat, k: nat, n: nat, width: nat)
    requires
        is_matrix(m, width),
        mat_pow(m, p) == mat_one(width),
    ensures
        mat_pow(m, k * p + n) == mat_pow(m, n),
    decreases k,
{
    if k == 0 {
        assert(0 * p + n == n);
    } else {
        let j = (k - 1) as nat;
        lemma_mat_pow_periodic(m, p, j, n, width);
        assert(k * p + n == p + (j * p + n)) by (nonlinear_arith)
            requires
                k == j + 1,
        ;
        lemma_mat_pow_adds(m, p, j * p + n, width);
        lemma_mat_pow_is_matrix(m, n, width);
        lemma_mat_mul_one(mat_pow(m, n), width);
    }
}

/// If a matrix has the order `p`, its power `p` times a vector is the
/// vector: going round the whole cycle leads back to the start.
pub proof fn lemma_dot_vec_of_whole_cycle(m: Seq<nat>, p: nat, x: nat, width: nat)
    requires
        is_matrix(m, width),
        mat_pow(m, p) == mat_one(width),
        x < pow2(width),
    ensures
        mat_dot_vec(mat_pow(m, p), x) == x,
{
    lemma_dot_vec_one(x, width);
}

/// If power `p + 1` of a matrix is the matrix itself, its powers from the
/// first on repeat with the period `p`: `m^(k * p + n) = m^n` for `n >= 1`.
pub proof fn lemma_mat_pow_periodic_from_first(m: Seq<nat>, p: nat, k: nat, n: nat, width: nat)
    requires
        is_matrix(m, width),
        mat_pow(m, p + 1) == m,
        n >= 1,
    ensures
        mat_pow(m, k * p + n) == mat_pow(m, n),
    decreases k,
{
    if k == 0 {
        assert(0 * p + n == n);
    } else {
        let j = (k - 1) as nat;
        let rest = (j * p + n - 1) as nat;
        lemma_mat_pow_periodic_from_first(m, p, j, n, width);
        assert(k * p + n == (p + 1) + rest) by (nonlinear_arith)
            requires
                k == j + 1,
                rest == j * p + n - 1,
        ;
        // m^(p + 1) * m^rest is m * m^rest.
        lemma_mat_pow_adds(m, p + 1, rest, width);
        lemma_mat_pow_one(m, width);
        lemma_mat_pow_adds(m, 1, rest, width);
        assert(1 + rest == j * p + n);
    }
}

} // verus!
