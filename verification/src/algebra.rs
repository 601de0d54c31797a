//! Exact arithmetic over numbers of the form `(a + b*sqrt(3)) / 6^k`.
//!
//! Every point of the fractal is reachable from the initial triangle by the two
//! affine maps `p -> conj(alpha)*conj(p) + alpha` and `p -> alpha*conj(p)` with
//! `alpha = 1/2 + (sqrt(3)/6)*i`.  Both maps keep each coordinate inside the
//! ring of numbers `(a + b*sqrt(3)) / 6^k` with integer `a`, `b`, so the whole
//! recurrence can be carried out exactly on integer coefficients, and the
//! degeneracy threshold can be decided exactly instead of with floating point.

use vstd::prelude::*;

use crate::bignum::{big_from_i128, big_lt, big_mul};

verus! {

/// `6^k`: the denominator that one coefficient level stands for.
pub open spec fn pow6(k: nat) -> int
    decreases k,
{
    if k == 0 {
        1
    } else {
        6 * pow6((k - 1) as nat)
    }
}

/// `3^k`: used to state when the degeneracy threshold is crossed.
pub open spec fn pow3(k: nat) -> int
    decreases k,
{
    if k == 0 {
        1
    } else {
        3 * pow3((k - 1) as nat)
    }
}

/// `12^k`: the exact factor by which the squared edge coefficients shrink
/// relative to the denominator as generations advance.
pub open spec fn pow12(k: nat) -> int
    decreases k,
{
    if k == 0 {
        1
    } else {
        12 * pow12((k - 1) as nat)
    }
}

pub proof fn lemma_pow6_pos(k: nat)
    ensures
        pow6(k) >= 1,
    decreases k,
{
    if k > 0 {
        lemma_pow6_pos((k - 1) as nat);
    }
}

pub proof fn lemma_pow3_pos(k: nat)
    ensures
        pow3(k) >= 1,
    decreases k,
{
    if k > 0 {
        lemma_pow3_pos((k - 1) as nat);
    }
}

pub proof fn lemma_pow12_pos(k: nat)
    ensures
        pow12(k) >= 1,
    decreases k,
{
    if k > 0 {
        lemma_pow12_pos((k - 1) as nat);
    }
}

pub proof fn lemma_pow6_monotone(j: nat, k: nat)
    requires
        j <= k,
    ensures
        pow6(j) <= pow6(k),
    decreases k,
{
    lemma_pow6_pos(j);
    if j < k {
        lemma_pow6_monotone(j, (k - 1) as nat);
    }
}

/// `6^(2k) = 12^k * 3^k`: ties the denominator of a squared edge to the factor
/// `12` that each generation multiplies the edge coefficients by.
pub proof fn lemma_pow6_even_split(k: nat)
    ensures
        pow6(2 * k) == pow12(k) * pow3(k),
    decreases k,
{
    if k == 0 {
    } else {
        let km1 = (k - 1) as nat;
        lemma_pow6_even_split(km1);
        assert(2 * k == 2 * km1 + 2);
        assert(pow6(2 * km1 + 2) == 6 * pow6(2 * km1 + 1));
        assert(pow6(2 * km1 + 1) == 6 * pow6(2 * km1));
        assert(36 * (pow12(km1) * pow3(km1)) == (12 * pow12(km1)) * (3 * pow3(km1)))
            by (nonlinear_arith);
    }
}

pub proof fn lemma_pow3_monotone(j: nat, k: nat)
    requires
        j <= k,
    ensures
        pow3(j) <= pow3(k),
    decreases k,
{
    lemma_pow3_pos(j);
    if j < k {
        lemma_pow3_monotone(j, (k - 1) as nat);
    }
}

/// The two powers of 3 that bracket the scaled threshold `10^6`: the
/// degeneracy reset first becomes possible at the 13th subdivision level.
pub proof fn lemma_pow3_literals()
    ensures
        pow3(12) == 531441,
        pow3(13) == 1594323,
{
    assert(pow3(0) == 1);
    assert(pow3(1) == 3);
    assert(pow3(2) == 9);
    assert(pow3(3) == 27);
    assert(pow3(4) == 81);
    assert(pow3(5) == 243);
    assert(pow3(6) == 729);
    assert(pow3(7) == 2187);
    assert(pow3(8) == 6561);
    assert(pow3(9) == 19683);
    assert(pow3(10) == 59049);
    assert(pow3(11) == 177147);
    assert(pow3(12) == 531441);
    assert(pow3(13) == 1594323);
}

/// `a + b*sqrt(3) < c`, decided over the integers.  Since `sqrt(3)` is
/// irrational, `b*sqrt(3)` never equals a nonzero integer difference, so
/// comparing `3*b*b` against `(c-a)*(c-a)` (with the right signs) settles the
/// order exactly, with no rounding anywhere.
pub open spec fn alg_lt(a: int, b: int, c: int) -> bool {
    let l = c - a;
    if b >= 0 {
        l > 0 && 3 * b * b < l * l
    } else {
        l >= 0 || 3 * b * b > l * l
    }
}

/// With no `sqrt(3)` part the comparison is the ordinary strict order.  In
/// particular the threshold test it encodes is strict: an exactly-equal value
/// does not count as below.
pub proof fn lemma_alg_lt_rational(a: int, c: int)
    ensures
        alg_lt(a, 0, c) <==> a < c,
{
    let l = c - a;
    if l > 0 {
        assert(l * l > 0) by (nonlinear_arith)
            requires
                l > 0,
        ;
    }
}

/// A squared edge with coefficients `(12^m, 0)` over denominator `6^(2m)` is
/// below the squared threshold `1/10^6` exactly when `10^6 < 3^m`.
pub proof fn lemma_threshold_at(m: nat)
    ensures
        alg_lt(1000000 * pow12(m), 0, pow6(2 * m)) <==> 1000000 < pow3(m),
{
    lemma_alg_lt_rational(1000000 * pow12(m), pow6(2 * m));
    lemma_pow6_even_split(m);
    lemma_pow12_pos(m);
    lemma_strict_mul_cancel(pow12(m), 1000000, pow3(m));
    assert(pow12(m) * 1000000 == 1000000 * pow12(m)) by (nonlinear_arith);
}

/// Multiplying both sides of a strict comparison by a positive factor keeps it.
pub proof fn lemma_strict_mul_cancel(f: int, x: int, y: int)
    requires
        f > 0,
    ensures
        (f * x < f * y) <==> (x < y),
{
    assert((f * x < f * y) <==> (x < y)) by (nonlinear_arith)
        requires
            f > 0,
    ;
}

/// Decides `a + b*sqrt(3) < c` at run time, exactly.  The squares are taken
/// with arbitrary-precision integers, so no magnitude of `b` or `c - a` can
/// overflow them.
pub fn alg_lt_exec(a: i128, b: i128, c: i128) -> (r: bool)
    requires
        c - a <= i128::MAX,
        i128::MIN <= c - a,
    ensures
        r == alg_lt(a as int, b as int, c as int),
{
    let l: i128 = c - a;
    let three = big_from_i128(3);
    let bb = big_from_i128(b);
    let bl = big_from_i128(l);
    let three_b_sq = big_mul(&big_mul(&three, &bb), &bb);
    let l_sq = big_mul(&bl, &bl);
    if b >= 0 {
        l > 0 && big_lt(&three_b_sq, &l_sq)
    } else {
        l >= 0 || big_lt(&l_sq, &three_b_sq)
    }
}

} // verus!
