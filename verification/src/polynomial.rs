//! Polynomials with integer coefficients, as sequences: entry `i` is the
//! coefficient of `X^i`. This module says what the ring operations compute.
use crate::residue::balanced;
use crate::residue::congruent;
use crate::residue::lemma_congruent_arithmetic;
use crate::residue::lemma_congruent_equivalence;
use vstd::arithmetic::div_mod::lemma_basic_div;
use vstd::arithmetic::div_mod::lemma_div_minus_one;
use vstd::arithmetic::div_mod::lemma_mod_sub_multiples_vanish;
use vstd::arithmetic::div_mod::lemma_small_mod;
use vstd::prelude::*;

verus! {

/// Entry `i` of `s`, and zero where `s` has no entry `i`.
pub open spec fn entry(s: Seq<int>, i: int) -> int {
    if 0 <= i < s.len() {
        s[i]
    } else {
        0
    }
}

/// Coefficient `p` of the remainder of `v` modulo `X^n + 1`. A polynomial of
/// degree below `n` is its own remainder. A longer one is split at `X^n`, and
/// since `X^n` is congruent to `-1`, the upper part is subtracted.
pub open spec fn fold_entry(v: Seq<int>, n: nat, p: int) -> int
    decreases v.len(),
{
    if n == 0 || v.len() <= n {
        entry(v, p)
    } else {
        v[p] - fold_entry(v.skip(n as int), n, p)
    }
}

/// The remainder of `v` modulo `X^n + 1`, as `n` coefficients.
pub open spec fn fold(v: Seq<int>, n: nat) -> Seq<int> {
    Seq::new(n, |p: int| fold_entry(v, n, p))
}

/// Every entry replaced by its balanced residue modulo `m`.
pub open spec fn reduce_all(v: Seq<int>, m: nat) -> Seq<int> {
    Seq::new(v.len(), |i: int| balanced(v[i], m))
}

/// The element of the ring of degree `n` over the integers modulo `m` that a
/// coefficient vector stands for.
pub open spec fn project(v: Seq<int>, n: nat, m: nat) -> Seq<int> {
    reduce_all(fold(v, n), m)
}

/// The coefficient-wise sum of two elements, reduced modulo `m`.
pub open spec fn element_sum(a: Seq<int>, b: Seq<int>, m: nat) -> Seq<int> {
    Seq::new(a.len(), |i: int| balanced(a[i] + b[i], m))
}

/// The coefficient-wise product of two elements, reduced modulo `m`.
pub open spec fn element_hadamard(a: Seq<int>, b: Seq<int>, m: nat) -> Seq<int> {
    Seq::new(a.len(), |i: int| balanced(a[i] * b[i], m))
}

/// The sum of `a[i] * b[k - i]` over the first `count` entries of `a`.
pub open spec fn convolution_partial(a: Seq<int>, b: Seq<int>, k: int, count: nat) -> int
    decreases count,
{
    if count == 0 {
        0
    } else {
        convolution_partial(a, b, k, (count - 1) as nat) + a[count - 1] * entry(
            b,
            k - (count - 1),
        )
    }
}

/// Coefficient `k` of the product of the polynomials `a` and `b`: the sum of
/// `a[i] * b[j]` over all `i + j == k`.
pub open spec fn convolution_entry(a: Seq<int>, b: Seq<int>, k: int) -> int {
    convolution_partial(a, b, k, a.len())
}

/// The product of the polynomials `a` and `b`.
pub open spec fn convolution(a: Seq<int>, b: Seq<int>) -> Seq<int> {
    if a.len() == 0 || b.len() == 0 {
        Seq::empty()
    } else {
        Seq::new((a.len() + b.len() - 1) as nat, |k: int| convolution_entry(a, b, k))
    }
}

/// The product of two elements of the ring of degree `n` over the integers
/// modulo `m`: the product of the polynomials, taken modulo `X^n + 1`, with
/// every coefficient reduced.
pub open spec fn ring_product(a: Seq<int>, b: Seq<int>, n: nat, m: nat) -> Seq<int> {
    project(convolution(a, b), n, m)
}

/// What entry `i` of `v` adds to coefficient `p` of the remainder modulo
/// `X^n + 1`: the entries are taken in blocks of `n`, entry `i` sits at
/// position `i % n` of block `i / n`, and the blocks alternate in sign.
pub open spec fn signed_term(v: Seq<int>, n: nat, p: int, i: int) -> int {
    if i % (n as int) == p {
        if (i / (n as int)) % 2 == 0 {
            v[i]
        } else {
            -v[i]
        }
    } else {
        0
    }
}

/// What the first `k` entries of `v` add to coefficient `p` of the remainder
/// modulo `X^n + 1`.
pub open spec fn partial_fold(v: Seq<int>, n: nat, p: int, k: nat) -> int
    decreases k,
{
    if k == 0 {
        0
    } else {
        partial_fold(v, n, p, (k - 1) as nat) + signed_term(v, n, p, k - 1)
    }
}

/// Within the first block only entry `p` adds to coefficient `p`.
proof fn lemma_partial_fold_first_block(v: Seq<int>, n: nat, p: int, k: nat)
    requires
        0 <= p < n,
        k <= n,
    ensures
        partial_fold(v, n, p, k) == if p < k {
            v[p]
        } else {
            0
        },
    decreases k,
{
    if k > 0 {
        lemma_partial_fold_first_block(v, n, p, (k - 1) as nat);
        lemma_small_mod((k - 1) as nat, n);
        lemma_basic_div(k - 1, n as int);
    }
}

/// Past the first block, the entries add to coefficient `p` what they add in
/// the polynomial without its first block, with the opposite sign.
proof fn lemma_partial_fold_shift(v: Seq<int>, n: nat, p: int, k: nat)
    requires
        0 <= p < n,
        n <= k <= v.len(),
    ensures
        partial_fold(v, n, p, k) == v[p] - partial_fold(v.skip(n as int), n, p, (k - n) as nat),
    decreases k,
{
    if k == n {
        lemma_partial_fold_first_block(v, n, p, k);
    } else {
        lemma_partial_fold_shift(v, n, p, (k - 1) as nat);
        let i = k - 1;
        let d = n as int;
        lemma_mod_sub_multiples_vanish(i, d);
        lemma_div_minus_one(i, d);
        assert((i - d) % d == i % d);
        assert((i - d) / d == i / d - 1);
        assert(v.skip(d)[i - d] == v[i]);
        assert(signed_term(v, n, p, i) == -signed_term(v.skip(d), n, p, i - d));
    }
}

/// Adding up the entries of `v` by position and block, with alternating
/// signs, gives the remainder modulo `X^n + 1`.
pub proof fn lemma_partial_fold_is_fold(v: Seq<int>, n: nat, p: int)
    requires
        0 <= p < n,
    ensures
        partial_fold(v, n, p, v.len()) == fold_entry(v, n, p),
    decreases v.len(),
{
    if v.len() <= n {
        lemma_partial_fold_first_block(v, n, p, v.len());
    } else {
        lemma_partial_fold_shift(v, n, p, v.len());
        lemma_partial_fold_is_fold(v.skip(n as int), n, p);
    }
}

/// Entry `t` of `b` where `b` is continued to the left by `X^n == -1`, with
/// `n` the length of `b`: below zero the entries of `b` come again with the
/// opposite sign.
pub open spec fn wrapped(b: Seq<int>, t: int) -> int {
    if t >= 0 {
        entry(b, t)
    } else {
        -entry(b, t + b.len())
    }
}

/// What the first `count` entries of `a` add to coefficient `p` of the
/// product of `a` and `b` modulo `X^n + 1`, with `n` the length of `b`.
pub open spec fn negacyclic_partial(a: Seq<int>, b: Seq<int>, p: int, count: nat) -> int
    decreases count,
{
    if count == 0 {
        0
    } else {
        negacyclic_partial(a, b, p, (count - 1) as nat) + a[count - 1] * wrapped(
            b,
            p - (count - 1),
        )
    }
}

/// Coefficient `p` of the product of `a` and `b` modulo `X^n + 1`, with `n`
/// the length of both.
pub open spec fn negacyclic_entry(a: Seq<int>, b: Seq<int>, p: int) -> int {
    negacyclic_partial(a, b, p, a.len())
}

/// The column of `b` that meets row `i` of `a` in coefficient `p` of the
/// product modulo `X^n + 1`.
pub open spec fn meeting_column(n: nat, p: int, i: int) -> int {
    if p >= i {
        p - i
    } else {
        p - i + n
    }
}

/// What the first `count` entries of `b` add to coefficient `p` of the
/// product modulo `X^n + 1` when they are multiplied by entry `i` of `a`.
pub open spec fn negacyclic_row(a: Seq<int>, b: Seq<int>, p: int, i: int, count: nat) -> int {
    if meeting_column(b.len(), p, i) < count {
        a[i] * wrapped(b, p - i)
    } else {
        0
    }
}

/// No entry of `b` goes into a coefficient of the product that lies beyond
/// the degrees of both factors.
proof fn lemma_convolution_beyond(a: Seq<int>, b: Seq<int>, k: int, count: nat)
    requires
        k >= b.len() + count - 1,
    ensures
        convolution_partial(a, b, k, count) == 0,
    decreases count,
{
    if count > 0 {
        lemma_convolution_beyond(a, b, k, (count - 1) as nat);
    }
}

/// Coefficient `p` of the product, less coefficient `p + n`, is coefficient
/// `p` of the product modulo `X^n + 1`.
proof fn lemma_convolution_partial_wraps(a: Seq<int>, b: Seq<int>, p: int, count: nat)
    requires
        0 <= p < b.len(),
        count <= b.len(),
    ensures
        convolution_partial(a, b, p, count) - convolution_partial(a, b, p + b.len(), count)
            == negacyclic_partial(a, b, p, count),
    decreases count,
{
    if count > 0 {
        lemma_convolution_partial_wraps(a, b, p, (count - 1) as nat);
        let i = count - 1;
        let x = a[i];
        let low = entry(b, p - i);
        let high = entry(b, p + b.len() - i);
        assert(x * low - x * high == x * wrapped(b, p - i)) by (nonlinear_arith)
            requires
                wrapped(b, p - i) == low - high,
        ;
    }
}

/// Folding the product of two polynomials of `n` coefficients gives the
/// product modulo `X^n + 1`.
pub proof fn lemma_fold_of_convolution(a: Seq<int>, b: Seq<int>, p: int)
    requires
        a.len() == b.len(),
        0 <= p < b.len(),
    ensures
        fold_entry(convolution(a, b), b.len(), p) == negacyclic_entry(a, b, p),
{
    let n = b.len();
    let c = convolution(a, b);
    lemma_convolution_partial_wraps(a, b, p, n);
    if p + n >= c.len() {
        lemma_convolution_beyond(a, b, p + n, n);
    }
    if n > 1 {
        assert(c.skip(n as int).len() == n - 1);
        assert(fold_entry(c.skip(n as int), n, p) == entry(c.skip(n as int), p));
    }
}

/// The element one of a ring of degree `n`: the constant polynomial 1.
pub open spec fn unit(n: nat) -> Seq<int> {
    Seq::new(n, |i: int| if i == 0 { 1int } else { 0int })
}

/// Multiplying by one on the right picks entry `p` of `a`.
pub proof fn lemma_negacyclic_unit_right(a: Seq<int>, p: int, count: nat)
    requires
        0 <= p < a.len(),
        count <= a.len(),
    ensures
        negacyclic_partial(a, unit(a.len()), p, count) == if p < count {
            a[p]
        } else {
            0
        },
    decreases count,
{
    if count > 0 {
        lemma_negacyclic_unit_right(a, p, (count - 1) as nat);
        let i = count - 1;
        let one = unit(a.len());
        if p - i > 0 {
            assert(wrapped(one, p - i) == one[p - i]);
            assert(a[i] * wrapped(one, p - i) == 0);
        } else if p - i < 0 {
            assert(wrapped(one, p - i) == -one[p - i + a.len()]);
            assert(a[i] * wrapped(one, p - i) == 0);
        } else {
            let w = wrapped(one, p - i);
            assert(w == one[0]);
            assert(a[i] * w == a[i]) by (nonlinear_arith)
                requires
                    w == 1,
            ;
        }
    }
}

/// Multiplying by one on the left picks entry `p` of `b`.
pub proof fn lemma_negacyclic_unit_left(b: Seq<int>, p: int, count: nat)
    requires
        0 <= p < b.len(),
        count <= b.len(),
    ensures
        negacyclic_partial(unit(b.len()), b, p, count) == if 0 < count {
            b[p]
        } else {
            0
        },
    decreases count,
{
    if count > 0 {
        lemma_negacyclic_unit_left(b, p, (count - 1) as nat);
    }
}

/// The product modulo `X^n + 1` is additive in its second factor.
pub proof fn lemma_negacyclic_additive(
    a: Seq<int>,
    b: Seq<int>,
    c: Seq<int>,
    s: Seq<int>,
    p: int,
    count: nat,
)
    requires
        b.len() == c.len(),
        b.len() == s.len(),
        forall|j: int| 0 <= j < s.len() ==> s[j] == b[j] + c[j],
    ensures
        negacyclic_partial(a, s, p, count) == negacyclic_partial(a, b, p, count)
            + negacyclic_partial(a, c, p, count),
    decreases count,
{
    if count > 0 {
        lemma_negacyclic_additive(a, b, c, s, p, (count - 1) as nat);
        let i = count - 1;
        let x = a[i];
        let t = p - i;
        assert(x * wrapped(s, t) == x * wrapped(b, t) + x * wrapped(c, t)) by (nonlinear_arith)
            requires
                wrapped(s, t) == wrapped(b, t) + wrapped(c, t),
        ;
    }
}

/// Second factors that agree modulo `m`, entry by entry, give products that
/// agree modulo `m`.
pub proof fn lemma_negacyclic_congruent(
    a: Seq<int>,
    b: Seq<int>,
    c: Seq<int>,
    p: int,
    count: nat,
    m: nat,
)
    requires
        b.len() == c.len(),
        forall|j: int| 0 <= j < b.len() ==> congruent(b[j], c[j], m),
    ensures
        congruent(negacyclic_partial(a, b, p, count), negacyclic_partial(a, c, p, count), m),
    decreases count,
{
    lemma_congruent_equivalence(0, 0, 0, m);
    if count > 0 {
        lemma_negacyclic_congruent(a, b, c, p, (count - 1) as nat, m);
        let i = count - 1;
        let t = p - i;
        let u = if t >= 0 {
            t
        } else {
            t + b.len()
        };
        lemma_congruent_arithmetic(0, 0, entry(b, u), entry(c, u), m);
        assert(congruent(wrapped(b, t), wrapped(c, t), m));
        lemma_congruent_equivalence(a[i], a[i], a[i], m);
        lemma_congruent_arithmetic(a[i], a[i], wrapped(b, t), wrapped(c, t), m);
        lemma_congruent_arithmetic(
            negacyclic_partial(a, b, p, (count - 1) as nat),
            negacyclic_partial(a, c, p, (count - 1) as nat),
            a[i] * wrapped(b, t),
            a[i] * wrapped(c, t),
            m,
        );
    }
}

/// Entry `j` of the quotient of `v` by `X^n + 1`.
pub open spec fn quotient_entry(v: Seq<int>, n: nat, j: int) -> int
    decreases v.len() - j,
{
    if n == 0 || j < 0 || j + n >= v.len() {
        0
    } else {
        v[j + n] - quotient_entry(v, n, j + n)
    }
}

/// The quotient of `v` by `X^n + 1`.
pub open spec fn quotient(v: Seq<int>, n: nat) -> Seq<int> {
    Seq::new(
        if v.len() > n {
            (v.len() - n) as nat
        } else {
            0
        },
        |j: int| quotient_entry(v, n, j),
    )
}

/// Whether `v == q * (X^n + 1) + r` with `r` of degree below `n`, which says
/// that `q` is the quotient and `r` the remainder of `v` by `X^n + 1`.
pub open spec fn is_division(v: Seq<int>, n: nat, q: Seq<int>, r: Seq<int>) -> bool {
    &&& r.len() == n
    &&& forall|i: int|
        0 <= i ==> #[trigger] entry(v, i) == entry(q, i) + entry(q, i - n) + entry(r, i)
}

/// The quotient of a polynomial without its first block is the quotient of
/// the polynomial, moved down by one block.
proof fn lemma_quotient_shift(v: Seq<int>, n: nat, j: int)
    requires
        n > 0,
        v.len() >= n,
        0 <= j,
    ensures
        quotient_entry(v.skip(n as int), n, j) == quotient_entry(v, n, j + n),
    decreases v.len() - j,
{
    if j + n + n < v.len() {
        lemma_quotient_shift(v, n, j + n);
    }
}

/// What folding gives is the polynomial less its quotient.
proof fn lemma_fold_quotient(v: Seq<int>, n: nat, p: int)
    requires
        0 <= p < n,
    ensures
        fold_entry(v, n, p) == entry(v, p) - quotient_entry(v, n, p),
    decreases v.len(),
{
    if v.len() > n {
        lemma_fold_quotient(v.skip(n as int), n, p);
        lemma_quotient_shift(v, n, p);
    }
}

/// Folding divides: `v == quotient * (X^n + 1) + fold`.
pub proof fn lemma_fold_divides(v: Seq<int>, n: nat)
    requires
        n > 0,
    ensures
        is_division(v, n, quotient(v, n), fold(v, n)),
{
    let q = quotient(v, n);
    let r = fold(v, n);
    assert forall|i: int| 0 <= i implies #[trigger] entry(v, i) == entry(q, i) + entry(q, i - n)
        + entry(r, i) by {
        assert(entry(q, i) == quotient_entry(v, n, i));
        assert(entry(q, i - n) == quotient_entry(v, n, i - n));
        if i < n {
            lemma_fold_quotient(v, n, i);
        }
    }
}

/// Two divisions of one polynomial by `X^n + 1` have the same quotient.
proof fn lemma_quotient_unique(
    v: Seq<int>,
    n: nat,
    q1: Seq<int>,
    r1: Seq<int>,
    q2: Seq<int>,
    r2: Seq<int>,
    j: int,
)
    requires
        n > 0,
        is_division(v, n, q1, r1),
        is_division(v, n, q2, r2),
    ensures
        entry(q1, j) == entry(q2, j),
    decreases
            (if j < q1.len() + q2.len() {
                q1.len() + q2.len() - j
            } else {
                0
            }),
{
    if 0 <= j && (j < q1.len() || j < q2.len()) {
        lemma_quotient_unique(v, n, q1, r1, q2, r2, j + n);
        assert(entry(v, j + n) == entry(q1, j + n) + entry(q1, j + n - n) + entry(r1, j + n));
        assert(entry(v, j + n) == entry(q2, j + n) + entry(q2, j + n - n) + entry(r2, j + n));
    }
}

/// Two divisions of one polynomial by `X^n + 1` have the same remainder.
pub proof fn lemma_remainder_unique(
    v: Seq<int>,
    n: nat,
    q1: Seq<int>,
    r1: Seq<int>,
    q2: Seq<int>,
    r2: Seq<int>,
)
    requires
        n > 0,
        is_division(v, n, q1, r1),
        is_division(v, n, q2, r2),
    ensures
        r1 == r2,
{
    assert forall|i: int| 0 <= i < n implies r1[i] == r2[i] by {
        lemma_quotient_unique(v, n, q1, r1, q2, r2, i);
        lemma_quotient_unique(v, n, q1, r1, q2, r2, i - n);
        assert(entry(v, i) == entry(q1, i) + entry(q1, i - n) + entry(r1, i));
        assert(entry(v, i) == entry(q2, i) + entry(q2, i - n) + entry(r2, i));
    }
    assert(r1 =~= r2);
}

} // verus!
