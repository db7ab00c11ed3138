//! Balanced residues: the representative of a residue class that lies closest
//! to zero, with a tie going to the positive side.
//!
//! A modulus of zero stands for the integers themselves, where every number is
//! its own representative.
use vstd::arithmetic::div_mod::lemma_fundamental_div_mod;
use vstd::arithmetic::div_mod::lemma_fundamental_div_mod_converse;
use vstd::arithmetic::div_mod::lemma_mod_bound;
use crate::integer::truncated_remainder;
use vstd::prelude::*;

verus! {

/// The largest balanced residue modulo `m`: the floor of `m / 2`.
pub open spec fn upper_bound(m: nat) -> int {
    (m as int) / 2
}

/// The strict lower bound of the balanced residues modulo `m`.
pub open spec fn lower_bound(m: nat) -> int {
    (m as int) / 2 - m
}

/// Whether `x` and `y` stand for the same element modulo `m`. Modulo zero only
/// equal numbers do.
pub open spec fn congruent(x: int, y: int, m: nat) -> bool {
    if m == 0 {
        x == y
    } else {
        (x - y) % (m as int) == 0
    }
}

/// Whether `x` is the representative that the library stores for its class
/// modulo `m`.
pub open spec fn is_canonical(x: int, m: nat) -> bool {
    m == 0 || lower_bound(m) < x <= upper_bound(m)
}

/// The balanced residue of `x` modulo `m`.
pub open spec fn balanced(x: int, m: nat) -> int {
    if m == 0 {
        x
    } else {
        let t = x % (m as int);
        if t > upper_bound(m) {
            t - m
        } else {
            t
        }
    }
}

/// The balanced residue lies in the half-open interval from `lower_bound`
/// (excluded) to `upper_bound` (included) and is congruent to the number it
/// was taken from.
pub proof fn lemma_balanced_is_canonical(x: int, m: nat)
    ensures
        is_canonical(balanced(x, m), m),
        congruent(balanced(x, m), x, m),
{
    if m > 0 {
        let d = m as int;
        lemma_mod_bound(x, d);
        lemma_fundamental_div_mod(x, d);
        let t = x % d;
        let q = x / d;
        if t > upper_bound(m) {
            assert(t - d - x == (-q - 1) * d + 0) by (nonlinear_arith)
                requires
                    x == d * q + t,
            ;
            lemma_fundamental_div_mod_converse(t - d - x, d, -q - 1, 0);
        } else {
            assert(t - x == (-q) * d + 0) by (nonlinear_arith)
                requires
                    x == d * q + t,
            ;
            lemma_fundamental_div_mod_converse(t - x, d, -q, 0);
        }
    }
}

/// Two numbers in the balanced interval that are congruent are equal.
pub proof fn lemma_canonical_congruent_equal(x: int, y: int, m: nat)
    requires
        is_canonical(x, m),
        is_canonical(y, m),
        congruent(x, y, m),
    ensures
        x == y,
{
    if m > 0 {
        let d = m as int;
        let k = (x - y) / d;
        lemma_fundamental_div_mod(x - y, d);
        assert(-d < x - y < d);
        assert(k == 0) by (nonlinear_arith)
            requires
                -d < d * k < d,
                d > 0,
        ;
    }
}

/// Congruence modulo `m` is reflexive, symmetric and transitive.
pub proof fn lemma_congruent_equivalence(x: int, y: int, z: int, m: nat)
    ensures
        congruent(x, x, m),
        congruent(x, y, m) ==> congruent(y, x, m),
        congruent(x, y, m) && congruent(y, z, m) ==> congruent(x, z, m),
{
    if m > 0 {
        let d = m as int;
        lemma_fundamental_div_mod_converse(x - x, d, 0, 0);
        if congruent(x, y, m) {
            let k = (x - y) / d;
            lemma_fundamental_div_mod(x - y, d);
            assert(y - x == (-k) * d + 0) by (nonlinear_arith)
                requires
                    x - y == d * k,
            ;
            lemma_fundamental_div_mod_converse(y - x, d, -k, 0);
            if congruent(y, z, m) {
                let j = (y - z) / d;
                lemma_fundamental_div_mod(y - z, d);
                assert(x - z == (k + j) * d + 0) by (nonlinear_arith)
                    requires
                        x - y == d * k,
                        y - z == d * j,
                ;
                lemma_fundamental_div_mod_converse(x - z, d, k + j, 0);
            }
        }
    }
}

/// The balanced residue is the only number in the balanced interval that is
/// congruent to `x`.
pub proof fn lemma_balanced_unique(x: int, r: int, m: nat)
    requires
        is_canonical(r, m),
        congruent(r, x, m),
    ensures
        r == balanced(x, m),
{
    lemma_balanced_is_canonical(x, m);
    lemma_congruent_equivalence(balanced(x, m), x, r, m);
    lemma_congruent_equivalence(r, x, balanced(x, m), m);
    lemma_canonical_congruent_equal(r, balanced(x, m), m);
}

/// Congruent numbers have the same balanced residue.
pub proof fn lemma_balanced_congruent(x: int, y: int, m: nat)
    requires
        congruent(x, y, m),
    ensures
        balanced(x, m) == balanced(y, m),
{
    lemma_balanced_is_canonical(x, m);
    lemma_congruent_equivalence(balanced(x, m), x, y, m);
    lemma_balanced_unique(y, balanced(x, m), m);
}

/// A canonical number is its own balanced residue.
pub proof fn lemma_balanced_of_canonical(x: int, m: nat)
    requires
        is_canonical(x, m),
    ensures
        balanced(x, m) == x,
{
    lemma_congruent_equivalence(x, x, x, m);
    lemma_balanced_unique(x, x, m);
}

/// A multiple of the modulus is congruent to zero.
pub proof fn lemma_multiple_congruent_zero(k: int, m: nat)
    ensures
        congruent(k * m, 0, m),
{
    if m > 0 {
        lemma_fundamental_div_mod_converse(k * m - 0, m as int, k, 0);
    }
}

/// Sums and products of congruent numbers are congruent.
pub proof fn lemma_congruent_arithmetic(a: int, b: int, c: int, d: int, m: nat)
    requires
        congruent(a, b, m),
        congruent(c, d, m),
    ensures
        congruent(a + c, b + d, m),
        congruent(a - c, b - d, m),
        congruent(a * c, b * d, m),
{
    if m > 0 {
        let n = m as int;
        let k = (a - b) / n;
        let j = (c - d) / n;
        lemma_fundamental_div_mod(a - b, n);
        lemma_fundamental_div_mod(c - d, n);
        assert((a + c) - (b + d) == (k + j) * n + 0) by (nonlinear_arith)
            requires
                a - b == n * k,
                c - d == n * j,
        ;
        lemma_fundamental_div_mod_converse((a + c) - (b + d), n, k + j, 0);
        assert((a - c) - (b - d) == (k - j) * n + 0) by (nonlinear_arith)
            requires
                a - b == n * k,
                c - d == n * j,
        ;
        lemma_fundamental_div_mod_converse((a - c) - (b - d), n, k - j, 0);
        assert(a * c - b * d == (k * c + b * j) * n + 0) by (nonlinear_arith)
            requires
                a - b == n * k,
                c - d == n * j,
        ;
        lemma_fundamental_div_mod_converse(a * c - b * d, n, k * c + b * j, 0);
    } else {
        assert(a * c == b * d);
    }
}

/// The remainder of a division that rounds toward zero is congruent to the
/// dividend, smaller in magnitude than the divisor, and never of the opposite
/// sign.
pub proof fn lemma_truncated_remainder(x: int, m: nat)
    requires
        m > 0,
    ensures
        congruent(truncated_remainder(x, m as int), x, m),
        -m < truncated_remainder(x, m as int) < m,
        x >= 0 ==> truncated_remainder(x, m as int) >= 0,
        x <= 0 ==> truncated_remainder(x, m as int) <= 0,
{
    let d = m as int;
    if x >= 0 {
        lemma_mod_bound(x, d);
        lemma_fundamental_div_mod(x, d);
        let q = x / d;
        assert(x % d - x == (-q) * d + 0) by (nonlinear_arith)
            requires
                x == d * q + x % d,
        ;
        lemma_fundamental_div_mod_converse(x % d - x, d, -q, 0);
    } else {
        let y = -x;
        lemma_mod_bound(y, d);
        lemma_fundamental_div_mod(y, d);
        let q = y / d;
        assert(-(y % d) - x == q * d + 0) by (nonlinear_arith)
            requires
                y == d * q + y % d,
                y == -x,
        ;
        lemma_fundamental_div_mod_converse(-(y % d) - x, d, q, 0);
    }
}

/// Moving a remainder `t` of `x` by one modulus into the balanced interval
/// gives the balanced residue of `x`.
pub proof fn lemma_shift_into_interval(x: int, t: int, m: nat)
    requires
        m > 0,
        congruent(t, x, m),
        -m < t < m,
    ensures
        t <= lower_bound(m) ==> t + m == balanced(x, m),
        t > upper_bound(m) ==> t - m == balanced(x, m),
        lower_bound(m) < t <= upper_bound(m) ==> t == balanced(x, m),
{
    let d = m as int;
    lemma_multiple_congruent_zero(1, m);
    if t <= lower_bound(m) {
        lemma_congruent_arithmetic(t, x, 1 * d, 0, m);
        lemma_balanced_unique(x, t + m, m);
    } else if t > upper_bound(m) {
        lemma_congruent_arithmetic(t, x, 1 * d, 0, m);
        lemma_balanced_unique(x, t - m, m);
    } else {
        lemma_balanced_unique(x, t, m);
    }
}

/// Reducing a canonical number modulo any other modulus leaves it canonical:
/// the balanced residue is never farther from zero than the number it was
/// taken from.
pub proof fn lemma_balanced_stays_canonical(x: int, other: nat, m: nat)
    requires
        is_canonical(x, m),
    ensures
        is_canonical(balanced(x, other), m),
{
    if m > 0 && other > 0 {
        lemma_balanced_is_canonical(x, other);
        if lower_bound(other) < x <= upper_bound(other) {
            lemma_balanced_of_canonical(x, other);
        }
    }
}

} // verus!
