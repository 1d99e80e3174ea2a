//! Lemmas of modular arithmetic behind the multiplication, the powers and
//! the geometric series of this crate.

use vstd::prelude::*;
use vstd::arithmetic::div_mod::*;
use vstd::arithmetic::mul::*;
use vstd::arithmetic::power::*;
use vstd::arithmetic::power2::{lemma2_to64, lemma_pow2_pos, lemma_pow2_unfold, pow2};
use crate::math::geom_sum;

verus! {

/// A number in `[m, 2m)` is reduced modulo `m` by one subtraction.
pub proof fn lemma_reduce_once(b: nat, m: nat)
    requires
        m <= b < 2 * m,
    ensures
        b % m == b - m,
{
    lemma_mod_sub_multiples_vanish(b as int, m as int);
    lemma_small_mod((b - m) as nat, m);
}

/// Addition modulo `m` by a compare, a wrapping subtraction and a wrapping
/// addition in words of `w` values.
///
/// For `x, y < m <= w`, let `t` be `x - m` modulo `w` if `y >= m - x` and `x`
/// otherwise. Then `t + y` modulo `w` is `x + y` modulo `m`.
pub proof fn lemma_add_mod_by_wrapping(x: nat, y: nat, m: nat, w: nat)
    requires
        x < m,
        y < m,
        m <= w,
    ensures
        y >= m - x ==> (((x - m) % (w as int)) + y) % (w as int) == (x + y) % m,
        y < m - x ==> (x + y) % w == (x + y) % m,
{
    if y >= m - x {
        lemma_mod_add_multiples_vanish(x - m, w as int);
        lemma_small_mod((x - m + w) as nat, w);
        assert((x - m) % (w as int) == x - m + w);
        lemma_mod_sub_multiples_vanish(x - m + w + y, w as int);
        lemma_small_mod((x + y - m) as nat, w);
        lemma_reduce_once(x + y, m);
    } else {
        lemma_small_mod(x + y, w);
        lemma_small_mod(x + y, m);
    }
}

/// One round of double-and-add keeps `acc + a * b` modulo `m`.
///
/// With `a = 2q + r`, adding `r * b` to the accumulator and doubling `b`,
/// both modulo `m`, leaves `acc + a * b` unchanged modulo `m`.
pub proof fn lemma_double_and_add_step(acc: nat, a: nat, b: nat, m: nat)
    requires
        m > 0,
    ensures
        ((acc + (a % 2) * b) % m + (a / 2) * ((b + b) % m)) % m == (acc + a * b) % m,
{
    let q = a / 2;
    let r = a % 2;
    let mi = m as int;
    let acc1 = (acc + r * b) as int;
    let dbl = (b + b) as int;
    lemma_mul_mod_noop_right(q as int, dbl, mi);
    assert((q * (dbl % mi)) % mi == (q * dbl) % mi);
    lemma_add_mod_noop(acc1, (q * dbl) as int, mi);
    lemma_add_mod_noop_right(acc1 % mi, (q * (dbl % mi)) as int, mi);
    assert(acc1 + q * dbl == acc + a * b) by (nonlinear_arith)
        requires
            a == 2 * q + r,
            acc1 == acc + r * b,
            dbl == b + b,
    ;
}

/// Congruent summands give congruent sums.
pub proof fn lemma_congruent_sum(a: int, a2: int, b: int, b2: int, m: int)
    requires
        m > 0,
        a % m == a2 % m,
        b % m == b2 % m,
    ensures
        (a + b) % m == (a2 + b2) % m,
{
    lemma_add_mod_noop(a, b, m);
    lemma_add_mod_noop(a2, b2, m);
}

/// Congruent factors give congruent products.
pub proof fn lemma_congruent_product(a: int, a2: int, b: int, b2: int, m: int)
    requires
        m > 0,
        a % m == a2 % m,
        b % m == b2 % m,
    ensures
        (a * b) % m == (a2 * b2) % m,
{
    lemma_mul_mod_noop(a, b, m);
    lemma_mul_mod_noop(a2, b2, m);
}

/// An exponent splits into its half and its lowest bit:
/// `t^e = (t * t)^(e / 2) * t^(e % 2)`.
pub proof fn lemma_pow_halves(t: int, e: nat)
    ensures
        pow(t, e) == pow(t * t, e / 2) * pow(t, e % 2),
{
    let q = e / 2;
    let r = e % 2;
    lemma_square_is_pow2(t);
    lemma_pow_multiplies(t, 2, q);
    assert(2 * q + r == e);
    lemma_pow_adds(t, 2 * q, r);
}

/// One round of square-and-multiply keeps `acc * t^e` modulo `m`.
///
/// Multiplying the accumulator by `t` if `e` is odd, squaring `t` and
/// halving `e`, all modulo `m`, leaves `acc * t^e` unchanged modulo `m`.
pub proof fn lemma_square_and_multiply_step(acc: int, t: int, e: nat, m: int)
    requires
        m > 0,
    ensures
        (((acc * pow(t, e % 2)) % m) * pow((t * t) % m, e / 2)) % m == (acc * pow(t, e)) % m,
{
    let q = e / 2;
    let r = e % 2;
    let a = acc * pow(t, r);
    let b = pow(t * t, q);
    let b2 = pow((t * t) % m, q);
    lemma_pow_mod_noop(t * t, q, m);
    lemma_mod_twice(a, m);
    lemma_congruent_product(a % m, a, b2, b, m);
    lemma_pow_halves(t, e);
    assert(a * b == acc * pow(t, e)) by (nonlinear_arith)
        requires
            a == acc * pow(t, r),
            pow(t, e) == b * pow(t, r),
    ;
}

/// A geometric series pairs up its terms:
/// `S(r, n) = (1 + r) * S(r * r, n / 2)`, plus `r^(n - 1)` if `n` is odd.
pub proof fn lemma_geom_sum_pairs(r: int, n: nat)
    ensures
        geom_sum(r, n) == (1 + r) * geom_sum(r * r, n / 2) + if n % 2 == 1 {
            pow(r, (n - 1) as nat)
        } else {
            0
        },
    decreases n,
{
    if n == 0 {
        assert((1 + r) * 0 == 0);
    } else if n == 1 {
        assert(geom_sum(r, 1) == geom_sum(r, 0) + pow(r, 0));
        assert((1 + r) * 0 == 0);
    } else {
        let k = (n - 2) as nat;
        let q = k / 2;
        lemma_geom_sum_pairs(r, k);
        assert(n / 2 == q + 1);
        assert(geom_sum(r * r, q + 1) == geom_sum(r * r, q) + pow(r * r, q));
        if n % 2 == 0 {
            // S(r, n) = S(r, k) + r^k + r^(k + 1), and r^k = (r * r)^q.
            assert(geom_sum(r, n) == geom_sum(r, (n - 1) as nat) + pow(r, (n - 1) as nat));
            assert(geom_sum(r, (n - 1) as nat) == geom_sum(r, k) + pow(r, k));
            lemma_pow_halves(r, k);
            lemma_pow0(r);
            lemma_pow_adds(r, k, 1);
            lemma_pow1(r);
            let s = geom_sum(r * r, q);
            let p = pow(r * r, q);
            assert(geom_sum(r, n) == (1 + r) * (s + p)) by (nonlinear_arith)
                requires
                    geom_sum(r, n) == (1 + r) * s + pow(r, k) + pow(r, (k + 1) as nat),
                    pow(r, k) == p * 1,
                    pow(r, (k + 1) as nat) == pow(r, k) * r,
            ;
        } else {
            // S(r, n) = S(r, n - 1) + r^(n - 1), and n - 1 is even.
            lemma_geom_sum_pairs(r, (n - 1) as nat);
            assert((n - 1) / 2 == n / 2);
        }
    }
}

/// Reducing the ratio modulo `m` keeps a geometric series modulo `m`.
pub proof fn lemma_geom_sum_mod_noop(r: int, n: nat, m: int)
    requires
        m > 0,
    ensures
        geom_sum(r % m, n) % m == geom_sum(r, n) % m,
    decreases n,
{
    if n > 0 {
        let k = (n - 1) as nat;
        lemma_geom_sum_mod_noop(r, k, m);
        lemma_pow_mod_noop(r, k, m);
        lemma_congruent_sum(geom_sum(r % m, k), geom_sum(r, k), pow(r % m, k), pow(r, k), m);
    }
}

/// One round of the pairing loop keeps `acc + mult * S(r, n)` modulo `m`.
///
/// If `n` is odd the lone last term `r^(n - 1) * mult` moves into the
/// accumulator; then `mult` takes the factor `1 + r`, `r` is squared and `n`
/// is halved, all modulo `m`.
pub proof fn lemma_geom_series_step(acc: int, mult: int, r: int, n: nat, m: int)
    requires
        m > 0,
        n >= 1,
    ensures
        ({
            let acc2 = if n % 2 == 1 {
                ((pow(r, (n - 1) as nat) % m) * mult % m + acc) % m
            } else {
                acc
            };
            let mult2 = (((1 + r) % m) * mult) % m;
            let r2 = (r * r) % m;
            (acc2 + mult2 * geom_sum(r2, n / 2)) % m == (acc + mult * geom_sum(r, n)) % m
        }),
{
    let q = n / 2;
    let last = if n % 2 == 1 {
        pow(r, (n - 1) as nat)
    } else {
        0
    };
    let acc2 = if n % 2 == 1 {
        ((pow(r, (n - 1) as nat) % m) * mult % m + acc) % m
    } else {
        acc
    };
    let mult2 = (((1 + r) % m) * mult) % m;
    let r2 = (r * r) % m;
    let s = geom_sum(r * r, q);
    // acc2 is congruent to acc + last * mult.
    assert(acc2 % m == (last * mult + acc) % m) by {
        if n % 2 == 1 {
            lemma_mod_twice(last, m);
            lemma_congruent_product(last % m, last, mult, mult, m);
            lemma_mod_twice((last % m) * mult, m);
            lemma_congruent_sum((last % m) * mult % m, last * mult, acc, acc, m);
            lemma_mod_twice((last % m) * mult % m + acc, m);
        } else {
            assert(last * mult == 0);
        }
    }
    // mult2 is congruent to (1 + r) * mult.
    lemma_mod_twice(1 + r, m);
    lemma_congruent_product((1 + r) % m, 1 + r, mult, mult, m);
    lemma_mod_twice(((1 + r) % m) * mult, m);
    // The series of the reduced square is congruent to that of the square.
    lemma_geom_sum_mod_noop(r * r, q, m);
    lemma_congruent_product(mult2, (1 + r) * mult, geom_sum(r2, q), s, m);
    lemma_congruent_sum(acc2, last * mult + acc, mult2 * geom_sum(r2, q), (1 + r) * mult * s, m);
    lemma_geom_sum_pairs(r, n);
    assert(last * mult + acc + (1 + r) * mult * s == acc + mult * geom_sum(r, n))
        by (nonlinear_arith)
        requires
            geom_sum(r, n) == (1 + r) * s + last,
    ;
}

/// The remainder of a negative number `-u` modulo `m`: zero if `m` divides
/// `u`, and else `m` less the remainder of `u`.
pub proof fn lemma_mod_of_negation(u: nat, m: nat)
    requires
        m > 0,
    ensures
        (-(u as int)) % (m as int) == if u % m == 0 {
            0
        } else {
            m - u % m
        },
{
    let q = (u / m) as int;
    let rest = (u % m) as int;
    let mi = m as int;
    lemma_fundamental_div_mod(u as int, mi);
    if rest == 0 {
        assert(-(u as int) == (-q) * mi + 0) by (nonlinear_arith)
            requires
                u == mi * q + rest,
                rest == 0,
        ;
        lemma_fundamental_div_mod_converse(-(u as int), mi, -q, 0);
    } else {
        assert(-(u as int) == (-q - 1) * mi + (mi - rest)) by (nonlinear_arith)
            requires
                u == mi * q + rest,
        ;
        lemma_fundamental_div_mod_converse(-(u as int), mi, -q - 1, mi - rest);
    }
}

/// A geometric series grows by a factor and a term:
/// `S(r, n + 1) = r * S(r, n) + 1`.
pub proof fn lemma_geom_sum_shift(r: int, n: nat)
    ensures
        geom_sum(r, n + 1) == r * geom_sum(r, n) + 1,
    decreases n,
{
    if n == 0 {
        lemma_pow0(r);
        assert(geom_sum(r, 1) == geom_sum(r, 0) + pow(r, 0));
        assert(geom_sum(r, 0) == 0);
        assert(r * 0 + 1 == 1);
    } else {
        let p = (n - 1) as nat;
        lemma_geom_sum_shift(r, p);
        lemma_pow_adds(r, 1, p);
        lemma_pow1(r);
        assert(geom_sum(r, n + 1) == geom_sum(r, n) + pow(r, n));
        assert(geom_sum(r, n) == geom_sum(r, p) + pow(r, p));
        assert(geom_sum(r, n) + pow(r, n) == r * geom_sum(r, n) + 1) by (nonlinear_arith)
            requires
                geom_sum(r, n) == r * geom_sum(r, p) + 1,
                geom_sum(r, n) == geom_sum(r, p) + pow(r, p),
                pow(r, n) == r * pow(r, p),
        ;
    }
}

/// Reducing the first summand modulo `m` keeps a sum modulo `m`.
pub proof fn lemma_add_mod_noop_left(x: int, y: int, m: int)
    requires
        m > 0,
    ensures
        ((x % m) + y) % m == (x + y) % m,
{
    lemma_add_mod_noop_right(y, x, m);
}

/// Adding a multiple of a multiple of `p` keeps the remainder modulo `p`:
/// `(n + k * (c * p)) % p == n % p`.
pub proof fn lemma_mod_whole_cycles(n: int, k: int, c: int, p: int)
    requires
        p > 0,
    ensures
        (n + k * (c * p)) % p == n % p,
{
    assert(n + k * (c * p) == p * (k * c) + n) by (nonlinear_arith);
    lemma_mod_multiples_vanish(k * c, n, p);
}

/// A geometric series splits after its first `m` terms:
/// `S(r, m + n) = S(r, m) + r^m * S(r, n)`.
pub proof fn lemma_geom_sum_adds(r: int, m: nat, n: nat)
    ensures
        geom_sum(r, m + n) == geom_sum(r, m) + pow(r, m) * geom_sum(r, n),
    decreases n,
{
    if n == 0 {
        assert(geom_sum(r, 0) == 0);
        assert(pow(r, m) * 0 == 0);
    } else {
        let p = (n - 1) as nat;
        lemma_geom_sum_adds(r, m, p);
        lemma_pow_adds(r, m, p);
        assert(geom_sum(r, m + n) == geom_sum(r, m + p) + pow(r, m + p));
        assert(geom_sum(r, n) == geom_sum(r, p) + pow(r, p));
        assert(pow(r, m) * geom_sum(r, p) + pow(r, m) * pow(r, p) == pow(r, m) * (geom_sum(r, p)
            + pow(r, p))) by (nonlinear_arith);
    }
}

/// The square of a number that is 1 modulo `2^t` is 1 modulo `2^(t + 1)`,
/// for `t >= 1`.
pub proof fn lemma_square_lifts(y: int, t: nat)
    requires
        t >= 1,
        y % (pow2(t) as int) == 1,
    ensures
        (y * y) % (pow2(t + 1) as int) == 1,
{
    let m = pow2(t) as int;
    let half = pow2((t - 1) as nat) as int;
    let c = y / m;
    lemma_pow2_pos(t);
    lemma_pow2_pos((t - 1) as nat);
    lemma_pow2_unfold(t);
    lemma_pow2_unfold(t + 1);
    lemma_fundamental_div_mod(y, m);
    assert(y * y == (2 * m) * (c + half * c * c) + 1) by (nonlinear_arith)
        requires
            y == m * c + 1,
            m == 2 * half,
    ;
    lemma_fundamental_div_mod_converse(y * y, 2 * m, c + half * c * c, 1);
}

/// A number that is 1 modulo 4, raised to the power `2^j`, is 1 modulo
/// `2^(j + 2)`.
pub proof fn lemma_pow_of_pow2_is_one(a: int, j: nat)
    requires
        a % 4 == 1,
    ensures
        pow(a, pow2(j)) % (pow2(j + 2) as int) == 1,
    decreases j,
{
    lemma2_to64();
    if j == 0 {
        lemma_pow1(a);
    } else {
        let i = (j - 1) as nat;
        lemma_pow_of_pow2_is_one(a, i);
        lemma_pow2_unfold(j);
        lemma_pow_adds(a, pow2(i), pow2(i));
        lemma_square_lifts(pow(a, pow2(i)), i + 2);
    }
}

/// The sum of the first `2^j` powers of an odd number is a multiple of
/// `2^j`.
pub proof fn lemma_geom_sum_of_pow2_terms(r: int, j: nat)
    requires
        r % 2 == 1,
    ensures
        geom_sum(r, pow2(j)) % (pow2(j) as int) == 0,
    decreases j,
{
    lemma2_to64();
    if j == 0 {
        assert(geom_sum(r, 1) % 1 == 0);
    } else {
        let i = (j - 1) as nat;
        let m = pow2(i) as int;
        lemma_pow2_pos(i);
        lemma_pow2_unfold(j);
        let h = r / 2;
        assert(r * r == 2 * (2 * h * h + 2 * h) + 1) by (nonlinear_arith)
            requires
                r == 2 * h + 1,
        ;
        lemma_fundamental_div_mod_converse(r * r, 2, 2 * h * h + 2 * h, 1);
        lemma_geom_sum_of_pow2_terms(r * r, i);
        lemma_geom_sum_pairs(r, pow2(j));
        let s = geom_sum(r * r, pow2(i));
        let u = (1 + r) / 2;
        let v = s / m;
        lemma_fundamental_div_mod(1 + r, 2);
        lemma_fundamental_div_mod(s, m);
        assert((1 + r) * s == (2 * m) * (u * v)) by (nonlinear_arith)
            requires
                1 + r == 2 * u,
                s == m * v,
        ;
        lemma_mod_multiples_basic(u * v, 2 * m);
    }
}

/// One line of a table of powers: from `a^e = c` to `a^(2e) = c * c`,
/// modulo `m`.
pub proof fn lemma_pow_table_square(a: int, m: int, e: nat, c: int, d: int)
    requires
        m > 0,
        pow(a, e) % m == c,
        (c * c) % m == d,
    ensures
        pow(a, 2 * e) % m == d,
{
    lemma_pow_adds(a, e, e);
    lemma_mul_mod_noop(pow(a, e), pow(a, e), m);
    lemma_mod_twice(pow(a, e), m);
}

/// One line of a table of powers: from `a^e = c` to `a^(e + 1) = c * a`,
/// modulo `m`.
pub proof fn lemma_pow_table_next(a: int, m: int, e: nat, c: int, d: int)
    requires
        m > 0,
        pow(a, e) % m == c,
        (c * a) % m == d,
    ensures
        pow(a, e + 1) % m == d,
{
    lemma_pow_adds(a, e, 1);
    lemma_pow1(a);
    lemma_mul_mod_noop_left(pow(a, e), a, m);
}

/// If `a * b` is 1 modulo `m` and `a^(p + 1)` is `a` modulo `m`, then `a^p`
/// is 1 modulo `m`.
pub proof fn lemma_pow_order_from_next(a: int, b: int, p: nat, m: int)
    requires
        m > 1,
        (a * b) % m == 1,
        pow(a, p + 1) % m == a % m,
    ensures
        pow(a, p) % m == 1,
{
    let y = pow(a, p);
    lemma_pow_adds(a, p, 1);
    lemma_pow1(a);
    // y * a is congruent to a, so y * (a * b) is congruent to a * b.
    lemma_small_mod(1, m as nat);
    lemma_congruent_product(y * a, a, b, b, m);
    assert((y * a) * b == y * (a * b)) by (nonlinear_arith);
    lemma_congruent_product(y, y, a * b, 1, m);
    assert(y * 1 == y);
}

/// If `a^p` is 1 modulo `m`, multiplying by `a^k` and then by `a^n` gives
/// back any `x` below `m` whenever `k + n` is a multiple of `p`.
pub proof fn lemma_pow_mod_round_trip(a: int, p: nat, k: nat, n: nat, x: nat, m: int)
    requires
        m > 1,
        p > 0,
        pow(a, p) % m == 1,
        (k + n) % p == 0,
        x < m,
    ensures
        (pow(a, n) * ((pow(a, k) * x) % m)) % m == x,
{
    lemma_small_mod(1, m as nat);
    lemma_pow_mod_periodic(a, p, k + n, m);
    lemma_pow0(a);
    lemma_pow_adds(a, n, k);
    lemma_mod_twice(pow(a, k) * x, m);
    lemma_congruent_product(pow(a, n), pow(a, n), (pow(a, k) * x) % m, pow(a, k) * x, m);
    assert(pow(a, n) * (pow(a, k) * x) == pow(a, n + k) * x) by (nonlinear_arith)
        requires
            pow(a, n + k) == pow(a, n) * pow(a, k),
    ;
    lemma_congruent_product(pow(a, n + k), 1, x as int, x as int, m);
    assert(1 * x == x);
    lemma_small_mod(x, m as nat);
}

/// If `a^p` is 1 modulo `m`, the powers of `a` repeat with the period `p`
/// modulo `m`.
pub proof fn lemma_pow_mod_periodic(a: int, p: nat, n: nat, m: int)
    requires
        m > 0,
        p > 0,
        pow(a, p) % m == 1int % m,
    ensures
        pow(a, n) % m == pow(a, n % p) % m,
    decreases n,
{
    if n < p {
        lemma_small_mod(n, p);
    } else {
        let r = (n - p) as nat;
        lemma_pow_mod_periodic(a, p, r, m);
        lemma_mod_sub_multiples_vanish(n as int, p as int);
        lemma_pow_adds(a, p, r);
        lemma_congruent_product(pow(a, p), 1, pow(a, r), pow(a, r), m);
        assert(1 * pow(a, r) == pow(a, r));
    }
}

} // verus!
