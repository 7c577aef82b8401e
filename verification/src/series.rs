//! Fixed-point series for the exponential and the inverse hyperbolic
//! tangent, both at scale 10^12.
//!
//! The barometric formula needs `exp(x)` for the isothermal layers and
//! `(T2/T1)^e` for the gradient layers. The power is reduced to the
//! exponential through `ln(r) == 2 * atanh((r - 1) / (r + 1))`, so two
//! series suffice. Every spec function mirrors the executable computation
//! exactly, rounding included, and the lemmas bound the series values so
//! that callers can show their arguments stay in range and their results
//! stay positive.

use vstd::prelude::*;
use vstd::arithmetic::div_mod::lemma_div_is_ordered;
use vstd::arithmetic::div_mod::lemma_div_is_ordered_by_denominator;
use vstd::arithmetic::div_mod::lemma_div_pos_is_pos;
use vstd::arithmetic::div_mod::lemma_div_multiples_vanish;
use vstd::arithmetic::mul::lemma_mul_inequality;
use vstd::arithmetic::mul::lemma_mul_nonnegative;

verus! {

/// Scale of dimensionless fixed-point values: 10^12.
pub const SCALE: u64 = 1_000_000_000_000;

/// Largest argument the exponential accepts: 2.5 at scale 10^12. The
/// layer table never produces a larger barometric exponent.
pub const EXP_ARG_MAX: u64 = 2_500_000_000_000;

/// Upper bound on the exponential of an in-range argument: 15 at scale
/// 10^12 (the true value of exp(2.5) is below 12.2).
pub const EXP_CAP: u64 = 15_000_000_000_000;

/// Largest argument the inverse hyperbolic tangent accepts: 0.144 at
/// scale 10^12. The temperature ratios of the layer table stay below it.
pub const ATANH_ARG_MAX: u64 = 144_000_000_000;

/// Number of Taylor terms of the exponential.
pub const EXP_TERMS: u64 = 20;

/// Number of series terms of the inverse hyperbolic tangent.
pub const ATANH_TERMS: u64 = 8;

/// Term `k` of the Taylor series of exp(y / SCALE), at scale SCALE:
/// term 0 is 1, and term k is term (k-1) times y/SCALE divided by k,
/// rounded down at each step.
pub open spec fn exp_term(y: int, k: nat) -> int
    decreases k,
{
    if k == 0 {
        SCALE as int
    } else {
        exp_term(y, (k - 1) as nat) * y / ((k as int) * (SCALE as int))
    }
}

/// Sum of the first `n` Taylor terms of exp(y / SCALE).
pub open spec fn exp_partial(y: int, n: nat) -> int
    decreases n,
{
    if n == 0 {
        0
    } else {
        exp_partial(y, (n - 1) as nat) + exp_term(y, (n - 1) as nat)
    }
}

/// exp(y / SCALE) at scale SCALE, as the model computes it.
pub open spec fn exp_series(y: int) -> int {
    exp_partial(y, EXP_TERMS as nat)
}

/// Every Taylor term of a nonnegative argument is nonnegative.
pub proof fn lemma_exp_term_nonneg(y: int, k: nat)
    requires
        0 <= y,
    ensures
        0 <= exp_term(y, k),
    decreases k,
{
    if k > 0 {
        lemma_exp_term_nonneg(y, (k - 1) as nat);
        let tp = exp_term(y, (k - 1) as nat);
        lemma_mul_nonnegative(tp, y);
        lemma_mul_inequality(1, k as int, SCALE as int);
        lemma_div_pos_is_pos(tp * y, (k as int) * (SCALE as int));
    }
}

/// Numeric bounds on the Taylor terms for in-range arguments.
pub proof fn lemma_exp_term_bounds(y: int, k: nat)
    requires
        0 <= y <= EXP_ARG_MAX,
    ensures
        0 <= exp_term(y, k) <= 3_200_000_000_000,
        k == 0 ==> exp_term(y, k) == SCALE,
        k == 1 ==> exp_term(y, k) == y,
        k >= 3 ==> exp_term(y, k) <= 2_700_000_000_000,
        k >= 4 ==> exp_term(y, k) <= 1_700_000_000_000,
    decreases k,
{
    lemma_exp_term_nonneg(y, k);
    assert(exp_term(y, 0) == SCALE as int);
    if k == 1 {
        assert(exp_term(y, 1) == (SCALE as int) * y / (1 * (SCALE as int)));
        lemma_div_multiples_vanish(y, SCALE as int);
    } else if k == 2 {
        lemma_exp_term_bounds(y, 1nat);
        assert(y * y <= 6_250_000_000_000_000_000_000_000) by (nonlinear_arith)
            requires
                0 <= y <= 2_500_000_000_000,
        ;
        lemma_div_is_ordered(y * y, 6_250_000_000_000_000_000_000_000, 2 * (SCALE as int));
    } else if k >= 3 {
        lemma_exp_term_bounds(y, (k - 1) as nat);
        let tp = exp_term(y, (k - 1) as nat);
        assert(tp * y <= 8_000_000_000_000_000_000_000_000) by (nonlinear_arith)
            requires
                0 <= tp <= 3_200_000_000_000,
                0 <= y <= 2_500_000_000_000,
        ;
        lemma_mul_inequality(3, k as int, SCALE as int);
        lemma_div_is_ordered(tp * y, 8_000_000_000_000_000_000_000_000, (k as int) * (SCALE as int));
        lemma_div_is_ordered_by_denominator(
            8_000_000_000_000_000_000_000_000,
            3_000_000_000_000,
            (k as int) * (SCALE as int),
        );
        if k >= 4 {
            assert(tp * y <= 6_750_000_000_000_000_000_000_000) by (nonlinear_arith)
                requires
                    0 <= tp <= 2_700_000_000_000,
                    0 <= y <= 2_500_000_000_000,
            ;
            lemma_mul_inequality(4, k as int, SCALE as int);
            lemma_div_is_ordered(
                tp * y,
                6_750_000_000_000_000_000_000_000,
                (k as int) * (SCALE as int),
            );
            lemma_div_is_ordered_by_denominator(
                6_750_000_000_000_000_000_000_000,
                4_000_000_000_000,
                (k as int) * (SCALE as int),
            );
        }
    }
}

/// Numeric bounds on the partial sums: they grow past 1 + y/SCALE and
/// stay below 15, at scale SCALE. The term-weighted form of the upper
/// bound makes the tail of the series inductive.
pub proof fn lemma_exp_partial_bounds(y: int, n: nat)
    requires
        0 <= y <= EXP_ARG_MAX,
    ensures
        0 <= exp_partial(y, n),
        n >= 1 ==> (SCALE as int) <= exp_partial(y, n),
        n >= 2 ==> (SCALE as int) + y <= exp_partial(y, n),
        exp_partial(y, n) + 3 * exp_term(y, n) <= EXP_CAP,
    decreases n,
{
    lemma_exp_term_bounds(y, n);
    assert(exp_partial(y, 0) == 0);
    if n == 0 {
    } else if n == 1 {
        lemma_exp_term_bounds(y, 0nat);
        assert(exp_partial(y, 1) == SCALE as int);
    } else if n <= 4 {
        lemma_exp_term_bounds(y, 0nat);
        lemma_exp_term_bounds(y, 1nat);
        lemma_exp_term_bounds(y, 2nat);
        lemma_exp_term_bounds(y, 3nat);
        assert(exp_partial(y, 1) == SCALE as int);
        assert(exp_partial(y, 2) == SCALE as int + y);
        assert(exp_partial(y, 3) == SCALE as int + y + exp_term(y, 2));
        assert(exp_partial(y, 4) == SCALE as int + y + exp_term(y, 2) + exp_term(y, 3));
    } else {
        lemma_exp_partial_bounds(y, (n - 1) as nat);
        lemma_exp_term_bounds(y, (n - 1) as nat);
        let tp = exp_term(y, (n - 1) as nat);
        assert(exp_term(y, n) == tp * y / ((n as int) * (SCALE as int)));
        assert(3 * (tp * y / ((n as int) * 1_000_000_000_000)) <= 2 * tp) by (nonlinear_arith)
            requires
                0 <= y <= 2_500_000_000_000,
                n >= 5,
                0 <= tp,
        ;
    }
}

/// The Taylor terms are monotone in the argument.
pub proof fn lemma_exp_term_mono(y1: int, y2: int, k: nat)
    requires
        0 <= y1 <= y2,
    ensures
        exp_term(y1, k) <= exp_term(y2, k),
    decreases k,
{
    if k > 0 {
        lemma_exp_term_mono(y1, y2, (k - 1) as nat);
        lemma_exp_term_nonneg(y1, (k - 1) as nat);
        lemma_exp_term_nonneg(y2, (k - 1) as nat);
        let t1 = exp_term(y1, (k - 1) as nat);
        let t2 = exp_term(y2, (k - 1) as nat);
        assert(t1 * y1 <= t2 * y2) by (nonlinear_arith)
            requires
                0 <= t1 <= t2,
                0 <= y1 <= y2,
        ;
        lemma_mul_inequality(1, k as int, SCALE as int);
        lemma_div_is_ordered(t1 * y1, t2 * y2, (k as int) * (SCALE as int));
    }
}

/// The partial sums are monotone in the argument.
pub proof fn lemma_exp_partial_mono(y1: int, y2: int, n: nat)
    requires
        0 <= y1 <= y2,
    ensures
        exp_partial(y1, n) <= exp_partial(y2, n),
    decreases n,
{
    if n > 0 {
        lemma_exp_partial_mono(y1, y2, (n - 1) as nat);
        lemma_exp_term_mono(y1, y2, (n - 1) as nat);
    }
}

/// The partial sums grow at least linearly with the argument: the degree
/// one term alone accounts for the whole gap.
pub proof fn lemma_exp_partial_gap(y1: int, y2: int, n: nat)
    requires
        0 <= y1 <= y2 <= EXP_ARG_MAX,
        n >= 2,
    ensures
        exp_partial(y2, n) - exp_partial(y1, n) >= y2 - y1,
    decreases n,
{
    lemma_exp_term_bounds(y1, 0nat);
    lemma_exp_term_bounds(y2, 0nat);
    lemma_exp_term_bounds(y1, 1nat);
    lemma_exp_term_bounds(y2, 1nat);
    if n == 2 {
        assert(exp_partial(y1, 0) == 0);
        assert(exp_partial(y2, 0) == 0);
        assert(exp_partial(y1, 1) == SCALE as int);
        assert(exp_partial(y2, 1) == SCALE as int);
        assert(exp_partial(y1, 2) == SCALE as int + y1);
        assert(exp_partial(y2, 2) == SCALE as int + y2);
    } else {
        lemma_exp_partial_gap(y1, y2, (n - 1) as nat);
        lemma_exp_term_mono(y1, y2, (n - 1) as nat);
    }
}

/// At argument zero the series is exactly one: term 0 alone contributes.
pub proof fn lemma_exp_zero(n: nat)
    ensures
        exp_partial(0, n) == if n == 0 {
            0int
        } else {
            SCALE as int
        },
    decreases n,
{
    if n > 0 {
        lemma_exp_zero((n - 1) as nat);
        if n >= 2 {
            lemma_exp_term_zero((n - 1) as nat);
        }
    }
}

/// Every Taylor term past the first vanishes at argument zero.
pub proof fn lemma_exp_term_zero(k: nat)
    requires
        k >= 1,
    ensures
        exp_term(0, k) == 0,
    decreases k,
{
    if k == 1 {
        assert(exp_term(0, 1) == (SCALE as int) * 0 / (SCALE as int));
        lemma_div_multiples_vanish(0, SCALE as int);
    } else {
        lemma_exp_term_zero((k - 1) as nat);
        lemma_mul_inequality(1, k as int, SCALE as int);
        lemma_div_multiples_vanish(0, (k as int) * (SCALE as int));
    }
}

/// exp(y / SCALE) at scale SCALE, by the Taylor series, rounded down at
/// every step.
pub fn exp_scaled(y: u64) -> (r: u64)
    requires
        y <= EXP_ARG_MAX,
    ensures
        r as int == exp_series(y as int),
        SCALE as int + y <= r as int,
        r <= EXP_CAP,
{
    let y_wide: u128 = y as u128;
    let mut acc: u128 = SCALE as u128;
    let mut term: u128 = SCALE as u128;
    let mut k: u64 = 1;
    proof {
        assert(exp_term(y as int, 0nat) == SCALE as int);
        assert(exp_partial(y as int, 0nat) == 0);
        assert(exp_partial(y as int, 1nat) == SCALE as int);
    }
    while k < EXP_TERMS
        invariant
            1 <= k <= EXP_TERMS,
            y <= EXP_ARG_MAX,
            y_wide == y,
            term as int == exp_term(y as int, (k - 1) as nat),
            acc as int == exp_partial(y as int, k as nat),
        decreases EXP_TERMS - k,
    {
        proof {
            lemma_exp_term_bounds(y as int, (k - 1) as nat);
            lemma_exp_term_bounds(y as int, k as nat);
            lemma_exp_partial_bounds(y as int, k as nat);
            assert((term as int) * (y_wide as int) <= 8_000_000_000_000_000_000_000_000)
                by (nonlinear_arith)
                requires
                    0 <= term as int <= 3_200_000_000_000,
                    0 <= y_wide as int <= 2_500_000_000_000,
            ;
        }
        term = term * y_wide / ((k as u128) * (SCALE as u128));
        acc = acc + term;
        k = k + 1;
    }
    proof {
        lemma_exp_partial_bounds(y as int, EXP_TERMS as nat);
        lemma_exp_term_nonneg(y as int, EXP_TERMS as nat);
    }
    acc as u64
}

/// Power `j` of the odd-power ladder of the atanh series, at scale SCALE:
/// power 0 is z, and power j is power (j-1) times z^2 (at scale SCALE),
/// rounded down at each step.
pub open spec fn atanh_pow(z: int, j: nat) -> int
    decreases j,
{
    if j == 0 {
        z
    } else {
        atanh_pow(z, (j - 1) as nat) * (z * z / (SCALE as int)) / (SCALE as int)
    }
}

/// Sum of the first `n` terms of atanh(z / SCALE): term j is power j
/// divided by 2j + 1.
pub open spec fn atanh_partial(z: int, n: nat) -> int
    decreases n,
{
    if n == 0 {
        0
    } else {
        atanh_partial(z, (n - 1) as nat) + atanh_pow(z, (n - 1) as nat) / (2 * ((n - 1) as int)
            + 1)
    }
}

/// atanh(z / SCALE) at scale SCALE, as the model computes it.
pub open spec fn atanh_series(z: int) -> int {
    atanh_partial(z, ATANH_TERMS as nat)
}

/// The power ladder shrinks by a factor of at least 48 per step, because
/// z^2 stays below SCALE/48 for in-range arguments.
pub proof fn lemma_atanh_pow_bounds(z: int, j: nat)
    requires
        0 <= z <= ATANH_ARG_MAX,
    ensures
        0 <= atanh_pow(z, j) <= z,
        j >= 1 ==> 48 * atanh_pow(z, j) <= atanh_pow(z, (j - 1) as nat),
    decreases j,
{
    if j >= 1 {
        lemma_atanh_pow_bounds(z, (j - 1) as nat);
        let p = atanh_pow(z, (j - 1) as nat);
        let z2 = z * z / (SCALE as int);
        assert(z * z <= 20_736_000_000_000_000_000_000) by (nonlinear_arith)
            requires
                0 <= z <= 144_000_000_000,
        ;
        lemma_mul_nonnegative(z, z);
        lemma_div_pos_is_pos(z * z, SCALE as int);
        lemma_div_is_ordered(z * z, 20_736_000_000_000_000_000_000, SCALE as int);
        assert(z2 <= 20_736_000_000);
        assert(48 * (p * z2 / 1_000_000_000_000) <= p) by (nonlinear_arith)
            requires
                0 <= p,
                0 <= z2 <= 20_736_000_000,
        ;
        lemma_mul_nonnegative(p, z2);
        lemma_div_pos_is_pos(p * z2, SCALE as int);
    }
}

/// Numeric bounds on the atanh partial sums: they start at z and stay
/// below z * 49/48. The weighted form of the upper bound carries the tail
/// of the series through the induction.
pub proof fn lemma_atanh_partial_bounds(z: int, n: nat)
    requires
        0 <= z <= ATANH_ARG_MAX,
    ensures
        0 <= atanh_partial(z, n),
        n >= 1 ==> z <= atanh_partial(z, n),
        n >= 1 ==> 2 * atanh_partial(z, n) + atanh_pow(z, n) <= 2 * z + 2 * atanh_pow(z, 1),
        48 * atanh_partial(z, n) <= 49 * z,
    decreases n,
{
    lemma_atanh_pow_bounds(z, n);
    lemma_atanh_pow_bounds(z, 1nat);
    assert(atanh_pow(z, 0nat) == z);
    assert(atanh_partial(z, 0nat) == 0);
    if n == 1 {
        lemma_div_multiples_vanish(z, 1);
        assert(atanh_partial(z, 1) == z / 1);
    } else if n >= 2 {
        lemma_atanh_partial_bounds(z, (n - 1) as nat);
        lemma_atanh_pow_bounds(z, (n - 1) as nat);
        let p = atanh_pow(z, (n - 1) as nat);
        let d = 2 * ((n - 1) as int) + 1;
        lemma_div_pos_is_pos(p, d);
        lemma_div_is_ordered_by_denominator(p, 3, d);
        assert(2 * (p / 3) + p / 48 <= p) by (nonlinear_arith)
            requires
                0 <= p,
        ;
        assert(48 * atanh_pow(z, n) <= p);
    }
}

/// The power ladder is monotone in the argument.
pub proof fn lemma_atanh_pow_mono(z1: int, z2: int, j: nat)
    requires
        0 <= z1 <= z2,
    ensures
        atanh_pow(z1, j) <= atanh_pow(z2, j),
    decreases j,
{
    if j >= 1 {
        lemma_atanh_pow_mono(z1, z2, (j - 1) as nat);
        let p1 = atanh_pow(z1, (j - 1) as nat);
        let p2 = atanh_pow(z2, (j - 1) as nat);
        lemma_atanh_pow_nonneg(z1, (j - 1) as nat);
        assert(z1 * z1 <= z2 * z2) by (nonlinear_arith)
            requires
                0 <= z1 <= z2,
        ;
        lemma_mul_nonnegative(z1, z1);
        lemma_div_is_ordered(z1 * z1, z2 * z2, SCALE as int);
        lemma_div_pos_is_pos(z1 * z1, SCALE as int);
        let q1 = z1 * z1 / (SCALE as int);
        let q2 = z2 * z2 / (SCALE as int);
        assert(p1 * q1 <= p2 * q2) by (nonlinear_arith)
            requires
                0 <= p1 <= p2,
                0 <= q1 <= q2,
        ;
        lemma_div_is_ordered(p1 * q1, p2 * q2, SCALE as int);
    }
}

/// Every power of a nonnegative argument is nonnegative.
pub proof fn lemma_atanh_pow_nonneg(z: int, j: nat)
    requires
        0 <= z,
    ensures
        0 <= atanh_pow(z, j),
    decreases j,
{
    if j >= 1 {
        lemma_atanh_pow_nonneg(z, (j - 1) as nat);
        lemma_mul_nonnegative(z, z);
        lemma_div_pos_is_pos(z * z, SCALE as int);
        lemma_mul_nonnegative(atanh_pow(z, (j - 1) as nat), z * z / (SCALE as int));
        lemma_div_pos_is_pos(atanh_pow(z, (j - 1) as nat) * (z * z / (SCALE as int)), SCALE as int);
    }
}

/// The partial sums of atanh are monotone in the argument.
pub proof fn lemma_atanh_partial_mono(z1: int, z2: int, n: nat)
    requires
        0 <= z1 <= z2,
    ensures
        atanh_partial(z1, n) <= atanh_partial(z2, n),
    decreases n,
{
    if n >= 1 {
        lemma_atanh_partial_mono(z1, z2, (n - 1) as nat);
        lemma_atanh_pow_mono(z1, z2, (n - 1) as nat);
        lemma_div_is_ordered(
            atanh_pow(z1, (n - 1) as nat),
            atanh_pow(z2, (n - 1) as nat),
            2 * ((n - 1) as int) + 1,
        );
    }
}

/// At argument zero every power, and so the whole series, vanishes.
pub proof fn lemma_atanh_zero(n: nat)
    ensures
        atanh_partial(0, n) == 0,
    decreases n,
{
    if n >= 1 {
        lemma_atanh_zero((n - 1) as nat);
        lemma_atanh_pow_zero((n - 1) as nat);
        lemma_div_pos_is_pos(0, 2 * ((n - 1) as int) + 1);
        lemma_div_is_ordered(0, 0, 2 * ((n - 1) as int) + 1);
        assert(0int / (2 * ((n - 1) as int) + 1) == 0) by {
            lemma_div_multiples_vanish(0, 2 * ((n - 1) as int) + 1);
        }
    }
}

/// The partial sums of atanh grow at least linearly with the argument:
/// the first term alone accounts for the whole gap.
pub proof fn lemma_atanh_partial_gap(z1: int, z2: int, n: nat)
    requires
        0 <= z1 <= z2,
        n >= 1,
    ensures
        atanh_partial(z2, n) - atanh_partial(z1, n) >= z2 - z1,
    decreases n,
{
    if n == 1 {
        lemma_div_multiples_vanish(z1, 1);
        lemma_div_multiples_vanish(z2, 1);
        assert(atanh_pow(z1, 0nat) == z1);
        assert(atanh_pow(z2, 0nat) == z2);
        assert(atanh_partial(z1, 0nat) == 0);
        assert(atanh_partial(z2, 0nat) == 0);
        assert(atanh_partial(z1, 1) == z1 / 1);
        assert(atanh_partial(z2, 1) == z2 / 1);
    } else {
        lemma_atanh_partial_gap(z1, z2, (n - 1) as nat);
        lemma_atanh_pow_mono(z1, z2, (n - 1) as nat);
        lemma_div_is_ordered(
            atanh_pow(z1, (n - 1) as nat),
            atanh_pow(z2, (n - 1) as nat),
            2 * ((n - 1) as int) + 1,
        );
    }
}

/// Every power of argument zero is zero.
pub proof fn lemma_atanh_pow_zero(j: nat)
    ensures
        atanh_pow(0, j) == 0,
    decreases j,
{
    if j >= 1 {
        lemma_atanh_pow_zero((j - 1) as nat);
        lemma_div_multiples_vanish(0, SCALE as int);
    }
}

/// atanh(z / SCALE) at scale SCALE, by the odd-power series, rounded down
/// at every step.
pub fn atanh_scaled(z: u64) -> (r: u64)
    requires
        z <= ATANH_ARG_MAX,
    ensures
        r as int == atanh_series(z as int),
        z <= r,
        48 * (r as int) <= 49 * (z as int),
{
    let z_wide: u128 = z as u128;
    proof {
        assert((z_wide as int) * (z_wide as int) <= 20_736_000_000_000_000_000_000)
            by (nonlinear_arith)
            requires
                0 <= z_wide as int <= 144_000_000_000,
        ;
    }
    let zsq: u128 = z_wide * z_wide / (SCALE as u128);
    proof {
        lemma_mul_nonnegative(z as int, z as int);
        lemma_div_pos_is_pos((z as int) * (z as int), SCALE as int);
    }
    let mut acc: u128 = z_wide;
    let mut pw: u128 = z_wide;
    let mut j: u64 = 1;
    proof {
        assert(atanh_pow(z as int, 0nat) == z as int);
        assert(atanh_partial(z as int, 0nat) == 0);
        lemma_div_multiples_vanish(z as int, 1);
        assert(atanh_partial(z as int, 1) == (z as int) / 1);
    }
    while j < ATANH_TERMS
        invariant
            1 <= j <= ATANH_TERMS,
            z <= ATANH_ARG_MAX,
            z_wide == z,
            zsq as int == (z as int) * (z as int) / (SCALE as int),
            pw as int == atanh_pow(z as int, (j - 1) as nat),
            acc as int == atanh_partial(z as int, j as nat),
        decreases ATANH_TERMS - j,
    {
        proof {
            lemma_atanh_pow_bounds(z as int, (j - 1) as nat);
            lemma_atanh_pow_bounds(z as int, j as nat);
            lemma_atanh_partial_bounds(z as int, j as nat);
            assert((z as int) * (z as int) <= 20_736_000_000_000_000_000_000)
                by (nonlinear_arith)
                requires
                    0 <= z as int <= 144_000_000_000,
            ;
            lemma_div_is_ordered(
                (z as int) * (z as int),
                20_736_000_000_000_000_000_000,
                SCALE as int,
            );
            assert((pw as int) * (zsq as int) <= 2_985_984_000_000_000_000_000)
                by (nonlinear_arith)
                requires
                    0 <= pw as int <= 144_000_000_000,
                    0 <= zsq as int <= 20_736_000_000,
            ;
        }
        pw = pw * zsq / (SCALE as u128);
        acc = acc + pw / (2 * (j as u128) + 1);
        proof {
            lemma_div_pos_is_pos(pw as int, 2 * (j as int) + 1);
        }
        j = j + 1;
    }
    proof {
        lemma_atanh_partial_bounds(z as int, ATANH_TERMS as nat);
    }
    acc as u64
}

} // verus!
